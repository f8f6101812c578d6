//! A cache of shared values by id, with a budget of bytes. A value is made
//! once per id and handed out shared; once the bytes counted pass the budget,
//! values that nobody else holds are dropped until the count is below half
//! of it.
//!
//! How many handles share a value is known only when the cache runs; the
//! library reads those counts once, as a list of ids and counts, and what is
//! dropped is stated exactly in terms of that list.
use std::collections::BTreeMap;
use std::sync::Arc;

use vstd::prelude::*;
use vstd::std_specs::iter::IteratorSpec;
use vstd::wrapping::usize_specs::{wrapping_add, wrapping_sub};

verus! {

broadcast use {vstd::std_specs::btree::group_btree_axioms, vstd::laws_cmp::group_laws_cmp};

/// Another handle on the value that `a` shares (`Arc::clone`): the same
/// value.
#[verifier::external_body]
fn share<V>(a: &Arc<V>) -> (r: Arc<V>)
    ensures
        r == *a,
{
    Arc::clone(a)
}

/// How many handles share the value of `a` (`Arc::strong_count`). Nothing is
/// stated of it: it depends on the handles held outside the cache.
#[verifier::external_body]
fn holders<V>(a: &Arc<V>) -> usize {
    Arc::strong_count(a)
}

/// Whether `counts` lists the ids of `m`, each once, with a count.
pub open spec fn lists_ids<V>(m: Map<u64, (usize, Arc<V>)>, counts: Seq<(u64, usize)>) -> bool {
    &&& counts.len() == m.dom().len()
    &&& forall|i: int| 0 <= i < counts.len() ==> m.contains_key(#[trigger] counts[i].0)
    &&& forall|i: int, j: int| 0 <= i < j < counts.len() ==> counts[i].0 != counts[j].0
}

/// What dropping unheld values leaves, the entries being `m` and the bytes
/// counted `bytes`: the ids of `counts` are taken in turn; one whose count is
/// one, that is not `keep` and that is still held, is dropped, and its size
/// comes off `bytes` and off `total`, with wrap-around. Dropping stops as
/// soon as `total` is below `target`. Answers the entries and the bytes
/// counted after.
pub open spec fn evicted<V>(
    m: Map<u64, (usize, Arc<V>)>,
    bytes: usize,
    total: usize,
    target: usize,
    keep: Option<u64>,
    counts: Seq<(u64, usize)>,
) -> (Map<u64, (usize, Arc<V>)>, usize)
    decreases counts.len(),
{
    if counts.len() == 0 {
        (m, bytes)
    } else {
        let k = counts[0].0;
        if counts[0].1 == 1 && keep != Some(k) && m.contains_key(k) {
            let size = m[k].0;
            let b = wrapping_sub(bytes, size);
            let t = wrapping_sub(total, size);
            if t < target {
                (m.remove(k), b)
            } else {
                evicted(m.remove(k), b, t, target, keep, counts.drop_first())
            }
        } else {
            evicted(m, bytes, total, target, keep, counts.drop_first())
        }
    }
}

/// Dropping never adds an entry or changes one, and never drops `keep`.
proof fn lemma_evicted_submap<V>(
    m: Map<u64, (usize, Arc<V>)>,
    bytes: usize,
    total: usize,
    target: usize,
    keep: Option<u64>,
    counts: Seq<(u64, usize)>,
)
    ensures
        evicted(m, bytes, total, target, keep, counts).0.submap_of(m),
        keep is Some && m.contains_key(keep->0) ==> evicted(
            m,
            bytes,
            total,
            target,
            keep,
            counts,
        ).0.contains_key(keep->0),
    decreases counts.len(),
{
    if counts.len() > 0 {
        let k = counts[0].0;
        if counts[0].1 == 1 && keep != Some(k) && m.contains_key(k) {
            let size = m[k].0;
            let m1 = m.remove(k);
            lemma_evicted_submap(
                m1,
                wrapping_sub(bytes, size),
                wrapping_sub(total, size),
                target,
                keep,
                counts.drop_first(),
            );
            assert(m1.submap_of(m));
            let e = evicted(m, bytes, total, target, keep, counts).0;
            assert forall|x: u64| #[trigger] e.contains_key(x) implies m.contains_key(x) && e[x] == m[x] by {
                assert(m1.contains_key(x) && e[x] == m1[x]);
            }
        } else {
            lemma_evicted_submap(m, bytes, total, target, keep, counts.drop_first());
        }
    }
}

/// Ids are ordered as integers are, as the map of values needs.
proof fn lemma_ids_ordered()
    ensures
        vstd::std_specs::btree::key_obeys_cmp_spec::<u64>(),
{
}

/// Values by id, each with the bytes it was counted as.
pub struct Cache<V> {
    cache: BTreeMap<u64, (usize, Arc<V>)>,
    cached_bytes: usize,
    max_bytes: usize,
}

impl<V> Cache<V> {
    /// The values held, by id, each with its byte count.
    pub closed spec fn entries(&self) -> Map<u64, (usize, Arc<V>)> {
        self.cache@
    }

    /// The budget of bytes.
    pub closed spec fn budget(&self) -> usize {
        self.max_bytes
    }

    /// The bytes counted: what was added for each value made, less what was
    /// taken off for each value dropped, with wrap-around.
    pub closed spec fn counted_bytes(&self) -> usize {
        self.cached_bytes
    }

    /// An empty cache with a budget of `max_bytes`.
    pub fn new(max_bytes: usize) -> (r: Self)
        ensures
            r.entries() == Map::<u64, (usize, Arc<V>)>::empty(),
            r.budget() == max_bytes,
            r.counted_bytes() == 0,
    {
        Cache { cache: BTreeMap::new(), cached_bytes: 0, max_bytes }
    }

    /// Whether a value is held for `id`.
    pub fn is_cached(&mut self, id: &u64) -> (r: bool)
        ensures
            r == old(self).entries().contains_key(*id),
            *final(self) == *old(self),
    {
        proof {
            lemma_ids_ordered();
        }
        self.cache.contains_key(id)
    }

    /// The bytes counted.
    pub fn cached_bytes(&self) -> (r: usize)
        ensures
            r == self.counted_bytes(),
    {
        self.cached_bytes
    }

    /// The ids of the values held, each once, in the map's order, with the
    /// number of handles that share its value.
    pub fn holder_counts(&self) -> (r: Vec<(u64, usize)>)
        ensures
            lists_ids(self.entries(), r@),
    {
        proof {
            lemma_ids_ordered();
        }
        let mut out: Vec<(u64, usize)> = Vec::new();
        for k in it: self.cache.keys()
            invariant
                it.seq() == vstd::std_specs::btree::spec_keys_iter(&self.cache).remaining(),
                out@.len() == it.index(),
                it.index() <= it.seq().len(),
                it.seq().len() == self.cache@.dom().len(),
                forall|j: int| 0 <= j < out@.len() ==> out@[j].0 == *it.seq()[j],
                forall|j: int| 0 <= j < out@.len() ==> self.cache@.contains_key(#[trigger] out@[j].0),
                forall|i: int, j: int| 0 <= i < j < out@.len() ==> out@[i].0 != out@[j].0,
        {
            proof {
                vstd::std_specs::btree::axiom_spec_keys_iter(&self.cache);
                assert forall|j: int| 0 <= j < out@.len() implies out@[j].0 != *k by {
                    assert(it.seq()[j] != it.seq()[it.index() as int]);
                }
            }
            match self.cache.get(k) {
                Some(entry) => {
                    out.push((*k, holders(&entry.1)));
                },
                None => {
                    out.push((*k, 0));
                },
            }
        }
        out
    }

    /// Drops, taking the ids of `counts` in turn, the values whose count is
    /// one, except the one for `keep`, until `total` less what was dropped is
    /// below `target`.
    fn drop_counted(
        &mut self,
        counts: &Vec<(u64, usize)>,
        keep: Option<u64>,
        total0: usize,
        target: usize,
    )
        ensures
            (final(self).entries(), final(self).counted_bytes()) == evicted(
                old(self).entries(),
                old(self).counted_bytes(),
                total0,
                target,
                keep,
                counts@,
            ),
            final(self).budget() == old(self).budget(),
    {
        proof {
            lemma_ids_ordered();
        }
        let mut total = total0;
        let mut i: usize = 0;
        proof {
            assert(counts@.skip(0) =~= counts@);
        }
        while i < counts.len()
            invariant
                i <= counts@.len(),
                self.max_bytes == old(self).max_bytes,
                evicted(
                    old(self).cache@,
                    old(self).cached_bytes,
                    total0,
                    target,
                    keep,
                    counts@,
                ) == evicted(self.cache@, self.cached_bytes, total, target, keep, counts@.skip(i as int)),
            decreases counts@.len() - i,
        {
            let (k, c) = counts[i];
            proof {
                assert(counts@.skip(i as int).drop_first() =~= counts@.skip(i + 1));
                assert(counts@.skip(i as int)[0] == counts@[i as int]);
            }
            let ghost before = self.cache@;
            if c == 1 && keep != Some(k) {
                match self.cache.remove(&k) {
                    Some(entry) => {
                        let size = entry.0;
                        self.cached_bytes = self.cached_bytes.wrapping_sub(size);
                        total = total.wrapping_sub(size);
                        if total < target {
                            return ;
                        }
                    },
                    None => {
                        assert(self.cache@ =~= before);
                    },
                }
            }
            i = i + 1;
        }
        proof {
            assert(counts@.skip(counts@.len() as int) =~= Seq::<(u64, usize)>::empty());
        }
    }

    /// Drops, taking the ids of `counts` in turn, every value whose count is
    /// one, its size coming off the bytes counted.
    pub fn drop_unheld(&mut self, counts: &Vec<(u64, usize)>)
        ensures
            (final(self).entries(), final(self).counted_bytes()) == evicted(
                old(self).entries(),
                old(self).counted_bytes(),
                0,
                0,
                None,
                counts@,
            ),
            final(self).budget() == old(self).budget(),
    {
        self.drop_counted(counts, None, 0, 0);
    }

    /// The value for `id`: the one held, or else the one `f` makes, which is
    /// kept and counted. When the bytes counted before it passed the budget,
    /// the values that nobody else holds, other than the one for `id`, are
    /// dropped in the order of their ids until the bytes counted are below
    /// half of the budget.
    pub fn get_or_insert<F: FnOnce() -> (usize, Arc<V>)>(&mut self, id: u64, f: F) -> (r: Arc<V>)
        requires
            call_requires(f, ()),
        ensures
            answered(old(self).entries(), final(self).entries(), id, r),
            old(self).entries().contains_key(id) ==> *final(self) == *old(self),
            !old(self).entries().contains_key(id) ==> {
                let made = final(self).entries()[id];
                let m = old(self).entries().insert(id, made);
                let prev = old(self).counted_bytes();
                let b = wrapping_add(prev, made.0);
                &&& call_ensures(f, (), made)
                &&& made.1 == r
                &&& prev <= old(self).budget() ==> final(self).entries() == m
                    && final(self).counted_bytes() == b
                &&& prev > old(self).budget() ==> exists|counts: Seq<(u64, usize)>|
                    #![trigger lists_ids(old(self).entries().insert(id, final(self).entries()[id]), counts)]
                    lists_ids(old(self).entries().insert(id, final(self).entries()[id]), counts) && (
                    final(self).entries(),
                    final(self).counted_bytes(),
                ) == evicted(
                    old(self).entries().insert(id, final(self).entries()[id]),
                    wrapping_add(old(self).counted_bytes(), final(self).entries()[id].0),
                    wrapping_add(old(self).counted_bytes(), final(self).entries()[id].0),
                    old(self).budget() / 2,
                    Some(id),
                    counts,
                )
            },
            final(self).budget() == old(self).budget(),
    {
        proof {
            lemma_ids_ordered();
        }
        match self.cache.get(&id) {
            Some(prev) => {
                return share(&prev.1);
            },
            None => {},
        }
        let (added_bytes, value) = f();
        let ghost made = (added_bytes, value);
        proof {
            lemma_ids_ordered();
        }
        let handed_out = share(&value);
        self.cache.insert(id, (added_bytes, value));
        assert(self.cache@ == old(self).cache@.insert(id, made));
        let cached_bytes = self.cached_bytes;
        self.cached_bytes = cached_bytes.wrapping_add(added_bytes);
        if cached_bytes > self.max_bytes {
            let counts = self.holder_counts();
            let total_size = self.cached_bytes;
            let target_size = self.max_bytes / 2;
            let ghost before = self.cache@;
            self.drop_counted(&counts, Some(id), total_size, target_size);
            proof {
                lemma_evicted_submap(before, total_size, total_size, target_size, Some(id), counts@);
                let e = evicted(before, total_size, total_size, target_size, Some(id), counts@).0;
                assert(before.contains_key(id));
                assert(e.contains_key(id));
                assert(e[id] == before[id]);
                assert(self.cache@ == e);
                assert(lists_ids(old(self).cache@.insert(id, made), counts@));
            }
        }
        proof {
            assert(self.cache@.contains_key(id) && self.cache@[id] == made);
        }
        handed_out
    }

    /// Drops every value that nobody else holds, its size coming off the
    /// bytes counted.
    pub fn evict_all_possible(&mut self)
        ensures
            exists|counts: Seq<(u64, usize)>|
                lists_ids(old(self).entries(), counts) && (
                final(self).entries(),
                final(self).counted_bytes(),
            ) == evicted(old(self).entries(), old(self).counted_bytes(), 0, 0, None, counts),
            final(self).budget() == old(self).budget(),
    {
        let counts = self.holder_counts();
        self.drop_unheld(&counts);
    }
}

/// What asking the cache for `id` answered `r` means, the entries being
/// `before` and then `after`: `after` holds `r` for `id`, and where `before`
/// held a value for `id` it was `r` and nothing changed.
pub open spec fn answered<V>(
    before: Map<u64, (usize, Arc<V>)>,
    after: Map<u64, (usize, Arc<V>)>,
    id: u64,
    r: Arc<V>,
) -> bool {
    &&& after.contains_key(id)
    &&& after[id].1 == r
    &&& before.contains_key(id) ==> r == before[id].1 && after == before
}

/// Asking the cache for an id twice in a row gives the same value, and the
/// second time changes nothing.
pub proof fn lemma_asked_twice<V>(
    m0: Map<u64, (usize, Arc<V>)>,
    m1: Map<u64, (usize, Arc<V>)>,
    m2: Map<u64, (usize, Arc<V>)>,
    id: u64,
    first: Arc<V>,
    second: Arc<V>,
)
    requires
        answered(m0, m1, id, first),
        answered(m1, m2, id, second),
    ensures
        second == first,
        m2 == m1,
{
}

/// Dropping unheld values never adds or changes an entry: what is left is
/// part of what was there.
pub proof fn lemma_dropping_keeps_the_rest<V>(
    m: Map<u64, (usize, Arc<V>)>,
    bytes: usize,
    counts: Seq<(u64, usize)>,
)
    ensures
        evicted(m, bytes, 0, 0, None, counts).0.submap_of(m),
{
    lemma_evicted_submap(m, bytes, 0, 0, None, counts);
}

} // verus!
