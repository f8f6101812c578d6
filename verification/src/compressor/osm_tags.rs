//! The tags of an OSM element: keys with values, each key at most once.
use vstd::prelude::*;

use crate::compressor::literals::literal_value::str_eq;

verus! {

broadcast use vstd::string::group_string_axioms;

/// The tags of an element, in the order they were added.
#[derive(Debug)]
pub struct Tags {
    entries: Vec<(String, String)>,
}

/// Whether some entry of `s` has the key `k`.
pub open spec fn has_key(s: Seq<(Seq<char>, Seq<char>)>, k: Seq<char>) -> bool {
    exists|i: int| 0 <= i < s.len() && #[trigger] s[i].0 == k
}

/// The position of the entry with key `k`, where there is one.
pub open spec fn key_index(s: Seq<(Seq<char>, Seq<char>)>, k: Seq<char>) -> int {
    choose|i: int| 0 <= i < s.len() && #[trigger] s[i].0 == k
}

/// Whether the tags `s` hold key `k` with value `v`.
pub open spec fn has_pair(s: Seq<(Seq<char>, Seq<char>)>, k: Seq<char>, v: Seq<char>) -> bool {
    exists|i: int| 0 <= i < s.len() && #[trigger] s[i] == (k, v)
}

/// Whether no key occurs twice.
pub open spec fn unique_keys(s: Seq<(Seq<char>, Seq<char>)>) -> bool {
    forall|i: int, j: int| 0 <= i < j < s.len() ==> #[trigger] s[i].0 != #[trigger] s[j].0
}

/// Where keys are unique, the position found for a key is the one that
/// `key_index` names.
pub proof fn lemma_key_index(s: Seq<(Seq<char>, Seq<char>)>, k: Seq<char>, i: int)
    requires
        unique_keys(s),
        0 <= i < s.len(),
        s[i].0 == k,
    ensures
        has_key(s, k),
        key_index(s, k) == i,
{
    assert(has_key(s, k));
    let j = key_index(s, k);
    if j < i {
        assert(s[j].0 != s[i].0);
    } else if i < j {
        assert(s[i].0 != s[j].0);
    }
}

impl Tags {
    /// The tags as pairs of characters, in order.
    pub closed spec fn view_pairs(&self) -> Seq<(Seq<char>, Seq<char>)> {
        Seq::new(self.entries@.len(), |i: int| (self.entries@[i].0@, self.entries@[i].1@))
    }

    pub open spec fn wf(&self) -> bool {
        unique_keys(self.view_pairs())
    }

    pub fn new() -> (r: Tags)
        ensures
            r.wf(),
            r.view_pairs() == Seq::<(Seq<char>, Seq<char>)>::empty(),
    {
        let r = Tags { entries: Vec::new() };
        assert(r.view_pairs() =~= Seq::<(Seq<char>, Seq<char>)>::empty());
        r
    }

    pub fn len(&self) -> (r: usize)
        ensures
            r == self.view_pairs().len(),
    {
        self.entries.len()
    }

    /// The key and value at position `i`.
    pub fn get(&self, i: usize) -> (r: (&str, &str))
        requires
            i < self.view_pairs().len(),
        ensures
            r.0@ == self.view_pairs()[i as int].0,
            r.1@ == self.view_pairs()[i as int].1,
    {
        (self.entries[i].0.as_str(), self.entries[i].1.as_str())
    }

    /// The position of key `k`.
    fn position(&self, k: &str) -> (r: Option<usize>)
        ensures
            match r {
                Some(i) => i < self.view_pairs().len() && self.view_pairs()[i as int].0 == k@,
                None => !has_key(self.view_pairs(), k@),
            },
    {
        let mut i: usize = 0;
        while i < self.entries.len()
            invariant
                i <= self.view_pairs().len(),
                self.view_pairs().len() == self.entries@.len(),
                forall|j: int| 0 <= j < i ==> self.view_pairs()[j].0 != k@,
            decreases self.entries@.len() - i,
        {
            if str_eq(self.entries[i].0.as_str(), k) {
                return Some(i);
            }
            i = i + 1;
        }
        None
    }

    /// Whether the tags hold key `k` with value `v`.
    pub fn contains(&self, k: &str, v: &str) -> (r: bool)
        ensures
            r == has_pair(self.view_pairs(), k@, v@),
    {
        let mut i: usize = 0;
        while i < self.entries.len()
            invariant
                i <= self.view_pairs().len(),
                self.view_pairs().len() == self.entries@.len(),
                forall|j: int| 0 <= j < i ==> self.view_pairs()[j] != (k@, v@),
            decreases self.entries@.len() - i,
        {
            if str_eq(self.entries[i].0.as_str(), k) && str_eq(self.entries[i].1.as_str(), v) {
                assert(self.view_pairs()[i as int] == (k@, v@));
                return true;
            }
            i = i + 1;
        }
        false
    }

    /// Sets key `k` to value `v`, replacing the value it had; a new key goes
    /// last.
    pub fn insert(&mut self, k: String, v: String)
        requires
            old(self).wf(),
        ensures
            final(self).wf(),
            has_key(old(self).view_pairs(), k@) ==> final(self).view_pairs() == old(
                self,
            ).view_pairs().update(key_index(old(self).view_pairs(), k@), (k@, v@)),
            !has_key(old(self).view_pairs(), k@) ==> final(self).view_pairs() == old(
                self,
            ).view_pairs().push((k@, v@)),
    {
        let ghost s = self.view_pairs();
        match self.position(k.as_str()) {
            Some(i) => {
                proof {
                    lemma_key_index(s, k@, i as int);
                }
                self.entries.set(i, (k, v));
                assert(self.view_pairs() =~= s.update(i as int, (k@, v@)));
            },
            None => {
                self.entries.push((k, v));
                assert(self.view_pairs() =~= s.push((k@, v@)));
            },
        }
    }

    /// Takes key `k` out of the tags and answers its value.
    pub fn remove(&mut self, k: &str) -> (r: Option<String>)
        requires
            old(self).wf(),
        ensures
            final(self).wf(),
            has_key(old(self).view_pairs(), k@) ==> ({
                let i = key_index(old(self).view_pairs(), k@);
                &&& r matches Some(v) && v@ == old(self).view_pairs()[i].1
                &&& final(self).view_pairs() == old(self).view_pairs().remove(i)
            }),
            !has_key(old(self).view_pairs(), k@) ==> r is None && final(self).view_pairs() == old(
                self,
            ).view_pairs(),
    {
        let ghost s = self.view_pairs();
        match self.position(k) {
            Some(i) => {
                proof {
                    lemma_key_index(s, k@, i as int);
                }
                let (_, v) = self.entries.remove(i);
                proof {
                    let t = self.view_pairs();
                    assert(t =~= s.remove(i as int));
                    assert forall|a: int, b: int|
                        0 <= a < b < t.len() implies #[trigger] t[a].0 != #[trigger] t[b].0 by {
                        assert(t[a] == s[if a < i { a } else { a + 1 }]);
                        assert(t[b] == s[if b < i { b } else { b + 1 }]);
                    }
                }
                Some(v)
            },
            None => None,
        }
    }

    /// Removes every tag.
    pub fn clear(&mut self)
        ensures
            final(self).wf(),
            final(self).view_pairs() == Seq::<(Seq<char>, Seq<char>)>::empty(),
    {
        self.entries.clear();
        assert(self.view_pairs() =~= Seq::<(Seq<char>, Seq<char>)>::empty());
    }

    /// Keeps only the tags at the positions where `keep` holds, in order.
    pub fn retain_positions(&mut self, keep: &Vec<bool>)
        requires
            old(self).wf(),
            keep@.len() == old(self).view_pairs().len(),
        ensures
            final(self).wf(),
            final(self).view_pairs() == kept(old(self).view_pairs(), keep@),
    {
        let ghost s = self.view_pairs();
        let mut out: Vec<(String, String)> = Vec::new();
        let mut old_entries: Vec<(String, String)> = Vec::new();
        old_entries.append(&mut self.entries);
        let ghost src = old_entries@;
        assert(s =~= Seq::new(src.len(), |i: int| (src[i].0@, src[i].1@)));
        let mut i: usize = 0;
        while i < keep.len()
            invariant
                keep@.len() == src.len() == s.len(),
                s == Seq::new(src.len(), |i: int| (src[i].0@, src[i].1@)),
                old_entries@ == src.skip(i as int),
                i <= keep@.len(),
                Seq::new(out@.len(), |j: int| (out@[j].0@, out@[j].1@)) == kept(
                    s.take(i as int),
                    keep@.take(i as int),
                ),
            decreases keep@.len() - i,
        {
            let e = old_entries.remove(0);
            assert(e == src[i as int]);
            if keep[i] {
                out.push(e);
            }
            proof {
                assert(s.take(i + 1).drop_last() =~= s.take(i as int));
                assert(keep@.take(i + 1).drop_last() =~= keep@.take(i as int));
                assert(old_entries@ =~= src.skip(i + 1));
                assert(Seq::new(out@.len(), |j: int| (out@[j].0@, out@[j].1@)) =~= kept(
                    s.take(i + 1),
                    keep@.take(i + 1),
                ));
            }
            i = i + 1;
        }
        assert(s.take(s.len() as int) =~= s);
        assert(keep@.take(keep@.len() as int) =~= keep@);
        self.entries = out;
        proof {
            assert(self.view_pairs() =~= kept(s, keep@));
            lemma_kept_unique(s, keep@);
        }
    }
}

/// The entries of `s` at the positions where `keep` holds, in order.
pub open spec fn kept<A>(s: Seq<A>, keep: Seq<bool>) -> Seq<A>
    decreases s.len(),
{
    if s.len() == 0 || keep.len() == 0 {
        Seq::empty()
    } else if keep.last() {
        kept(s.drop_last(), keep.drop_last()).push(s.last())
    } else {
        kept(s.drop_last(), keep.drop_last())
    }
}

#[verifier::spinoff_prover]
proof fn lemma_kept_sub(s: Seq<(Seq<char>, Seq<char>)>, keep: Seq<bool>)
    requires
        s.len() == keep.len(),
    ensures
        forall|i: int|
            0 <= i < kept(s, keep).len() ==> exists|j: int|
                0 <= j < s.len() && #[trigger] kept(s, keep)[i] == s[j],
    decreases s.len(),
{
    if s.len() > 0 {
        lemma_kept_sub(s.drop_last(), keep.drop_last());
        let k = kept(s, keep);
        let p = kept(s.drop_last(), keep.drop_last());
        assert forall|i: int| 0 <= i < k.len() implies exists|j: int|
            0 <= j < s.len() && #[trigger] k[i] == s[j] by {
            if i < p.len() {
                let j = choose|j: int| 0 <= j < s.drop_last().len() && #[trigger] p[i] == s.drop_last()[j];
                assert(k[i] == s[j]);
            } else {
                assert(k[i] == s[s.len() - 1]);
            }
        }
    }
}

proof fn lemma_kept_unique(s: Seq<(Seq<char>, Seq<char>)>, keep: Seq<bool>)
    requires
        s.len() == keep.len(),
        unique_keys(s),
    ensures
        unique_keys(kept(s, keep)),
    decreases s.len(),
{
    if s.len() > 0 {
        lemma_kept_unique(s.drop_last(), keep.drop_last());
        lemma_kept_sub(s.drop_last(), keep.drop_last());
        let k = kept(s, keep);
        let p = kept(s.drop_last(), keep.drop_last());
        if keep.last() {
            assert forall|a: int, b: int| 0 <= a < b < k.len() implies #[trigger] k[a].0
                != #[trigger] k[b].0 by {
                if b == k.len() - 1 {
                    let j = choose|j: int| 0 <= j < s.drop_last().len() && #[trigger] p[a] == s.drop_last()[j];
                    assert(s[j].0 != s[s.len() - 1].0);
                } else {
                    assert(p[a].0 != p[b].0);
                }
            }
        }
    }
}

/// The tags after `k` was set to `v`, as `insert` leaves them.
pub open spec fn inserted(s: Seq<(Seq<char>, Seq<char>)>, k: Seq<char>, v: Seq<char>) -> Seq<(Seq<char>, Seq<char>)> {
    if has_key(s, k) {
        s.update(key_index(s, k), (k, v))
    } else {
        s.push((k, v))
    }
}

/// A tag that was set is read back: the key is held, with the value it was
/// set to, and every other key keeps its value; no key occurs twice.
pub proof fn lemma_inserted_reads_back(
    s: Seq<(Seq<char>, Seq<char>)>,
    k: Seq<char>,
    v: Seq<char>,
    other: Seq<char>,
)
    requires
        unique_keys(s),
        other != k,
    ensures
        unique_keys(inserted(s, k, v)),
        has_key(inserted(s, k, v), k),
        inserted(s, k, v)[key_index(inserted(s, k, v), k)].1 == v,
        has_key(inserted(s, k, v), other) == has_key(s, other),
        has_key(s, other) ==> inserted(s, k, v)[key_index(inserted(s, k, v), other)] == s[key_index(
            s,
            other,
        )],
{
    let t = inserted(s, k, v);
    let i = if has_key(s, k) {
        key_index(s, k)
    } else {
        s.len() as int
    };
    assert(t[i] == (k, v));
    assert forall|a: int, b: int| 0 <= a < b < t.len() implies #[trigger] t[a].0 != #[trigger] t[b].0 by {
        if a != i && b != i {
            assert(t[a] == s[a] && t[b] == s[b]);
        } else if a == i {
            if has_key(s, k) {
                assert(s[b].0 != s[i].0);
            } else {
                assert(!(s[b].0 == k));
            }
        } else {
            if has_key(s, k) {
                assert(s[a].0 != s[i].0);
            } else {
                assert(!(s[a].0 == k));
            }
        }
    }
    lemma_key_index(t, k, i);
    if has_key(s, other) {
        let j = key_index(s, other);
        assert(t[j] == s[j]);
        lemma_key_index(t, other, j);
    } else {
        if has_key(t, other) {
            let j = key_index(t, other);
            assert(t[j].0 == other);
            assert(j != i);
            assert(s[j].0 == other);
        }
    }
}

/// A tag that was removed is no longer held.
pub proof fn lemma_removed_is_gone(s: Seq<(Seq<char>, Seq<char>)>, k: Seq<char>)
    requires
        unique_keys(s),
        has_key(s, k),
    ensures
        !has_key(s.remove(key_index(s, k)), k),
        unique_keys(s.remove(key_index(s, k))),
{
    let i = key_index(s, k);
    let t = s.remove(i);
    if has_key(t, k) {
        let j = key_index(t, k);
        let orig = if j < i { j } else { j + 1 };
        assert(t[j] == s[orig]);
        assert(s[orig].0 == s[i].0);
    }
    assert forall|a: int, b: int| 0 <= a < b < t.len() implies #[trigger] t[a].0 != #[trigger] t[b].0 by {
        let oa = if a < i { a } else { a + 1 };
        let ob = if b < i { b } else { b + 1 };
        assert(t[a] == s[oa] && t[b] == s[ob]);
    }
}

} // verus!
