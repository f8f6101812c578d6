use vstd::prelude::*;

use crate::compressor::literals::literal_value::{literal_of, str_eq, LiteralValue};
use crate::compressor::literals::{Literal, LiteralKey};
use crate::compressor::osm_tags::{has_pair, Tags};

pub mod node;
pub mod relation;

verus! {

/// The tags of an element: those folded into a compact form, and the rest as
/// literals.
#[derive(Debug)]
pub struct InlinedTags<InlineObjType> {
    pub inline: InlineObjType,
    pub other: Vec<Literal>,
}

/// Whether `list` holds, in order, a key and value literal for each tag of
/// `s`: the key as a string, the value as a stored value.
pub open spec fn literals_of_tags(list: Seq<Literal>, s: Seq<(Seq<char>, Seq<char>)>) -> bool {
    &&& list.len() == s.len()
    &&& forall|i: int|
        0 <= i < s.len() ==> (#[trigger] list[i] matches Literal::KeyVar(LiteralKey::Str(k), v)
            && k@ == s[i].0 && v@ == literal_of(s[i].1))
}

/// Whether every pair of `pairs` is among the tags `s`.
pub open spec fn has_all(s: Seq<(Seq<char>, Seq<char>)>, pairs: Seq<(&str, &str)>) -> bool {
    forall|j: int| 0 <= j < pairs.len() ==> has_pair(s, #[trigger] pairs[j].0@, pairs[j].1@)
}

/// A collection of tags that can be matched against and listed as literals.
pub trait TagCollection {
    /// The tags, in order.
    spec fn tag_pairs(&self) -> Seq<(Seq<char>, Seq<char>)>;

    /// The tags as key and value literals; the tags stay.
    fn drain_to_literal_list(&mut self) -> (r: Vec<Literal>)
        ensures
            final(self).tag_pairs() == old(self).tag_pairs(),
            literals_of_tags(r@, old(self).tag_pairs()),
    ;

    /// Whether the tags are exactly as many as `tags` and hold each of them.
    fn has_exactly(&self, tags: &[(&str, &str)]) -> (r: bool)
        ensures
            r == (tags@.len() == self.tag_pairs().len() && has_all(self.tag_pairs(), tags@)),
    ;

    /// Whether the tags hold each of `tags`.
    fn has_subset(&self, tags: &[(&str, &str)]) -> (r: bool)
        ensures
            r == has_all(self.tag_pairs(), tags@),
    ;
}

impl TagCollection for Tags {
    open spec fn tag_pairs(&self) -> Seq<(Seq<char>, Seq<char>)> {
        self.view_pairs()
    }

    fn has_exactly(&self, tags: &[(&str, &str)]) -> (r: bool) {
        if tags.len() != self.len() {
            return false;
        }
        self.has_subset(tags)
    }

    fn drain_to_literal_list(&mut self) -> (r: Vec<Literal>) {
        let mut list: Vec<Literal> = Vec::new();
        let n = self.len();
        let mut i: usize = 0;
        while i < n
            invariant
                n == self.view_pairs().len(),
                i <= n,
                literals_of_tags(list@, self.view_pairs().take(i as int)),
            decreases n - i,
        {
            let (k, v) = self.get(i);
            let k_packed = LiteralKey::from(k);
            let v_packed = LiteralValue::from(v);
            list.push(Literal::KeyVar(k_packed, v_packed));
            i = i + 1;
            proof {
                let t = self.view_pairs().take(i as int);
                assert forall|j: int| 0 <= j < t.len() implies (#[trigger] list@[j] matches Literal::KeyVar(
                    LiteralKey::Str(k),
                    v,
                ) && k@ == t[j].0 && v@ == literal_of(t[j].1)) by {
                    if j < i - 1 {
                        assert(self.view_pairs().take(i - 1)[j] == t[j]);
                    }
                }
            }
        }
        assert(self.view_pairs().take(n as int) =~= self.view_pairs());
        list
    }

    fn has_subset(&self, tags: &[(&str, &str)]) -> (r: bool) {
        let mut j: usize = 0;
        while j < tags.len()
            invariant
                j <= tags@.len(),
                forall|jj: int|
                    0 <= jj < j ==> has_pair(self.view_pairs(), #[trigger] tags@[jj].0@, tags@[jj].1@),
            decreases tags@.len() - j,
        {
            let (k, v) = tags[j];
            if !self.contains(k, v) {
                assert(tags@[j as int].0@ == k@);
                return false;
            }
            j = j + 1;
        }
        true
    }
}

} // verus!
