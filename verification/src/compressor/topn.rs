use vstd::prelude::*;

use std::collections::VecDeque;
use vstd::laws_eq::obeys_concrete_eq;

verus! {

/// Whether some entry of `s` has the item `item`.
pub open spec fn has_item<T, K>(s: Seq<(T, K)>, item: T) -> bool {
    exists|i: int| 0 <= i < s.len() && #[trigger] s[i].0 == item
}

/// The position of the entry with the item `item`, where there is one.
pub open spec fn item_index<T, K>(s: Seq<(T, K)>, item: T) -> int {
    choose|i: int| 0 <= i < s.len() && #[trigger] s[i].0 == item
}

/// The entries after `item` was touched: an entry that holds it moves to the
/// front and keeps its key; otherwise `(item, key)` goes to the front, and
/// the last entry leaves first when `size` entries are already held.
pub open spec fn touched<T, K>(s: Seq<(T, K)>, item: T, key: K, size: nat) -> Seq<(T, K)> {
    if has_item(s, item) {
        let i = item_index(s, item);
        seq![s[i]] + s.remove(i)
    } else if s.len() >= size && s.len() > 0 {
        seq![(item, key)] + s.drop_last()
    } else {
        seq![(item, key)] + s
    }
}

/// The most recently touched items, each with the key it was first given,
/// newest first, at most `SIZE` of them (one, when `SIZE` is zero).
pub struct TopNHeap<const SIZE: usize, T, K> {
    priorities: VecDeque<(T, K)>,
}

impl<const SIZE: usize, T: PartialEq + Clone, K> TopNHeap<SIZE, T, K> {
    /// The entries, newest first.
    pub closed spec fn entries(&self) -> Seq<(T, K)> {
        self.priorities@
    }

    /// No item occurs twice, and there are at most `SIZE` entries (one, for
    /// a `SIZE` of zero).
    pub open spec fn wf(&self) -> bool {
        &&& forall|i: int, j: int|
            0 <= i < j < self.entries().len() ==> #[trigger] self.entries()[i].0
                != #[trigger] self.entries()[j].0
        &&& self.entries().len() <= if SIZE == 0 { 1 } else { SIZE as int }
    }

    pub fn new() -> (r: Self)
        ensures
            r.wf(),
            r.entries() == Seq::<(T, K)>::empty(),
    {
        TopNHeap { priorities: VecDeque::with_capacity(SIZE) }
    }

    /// The key of `item`, where it is held.
    pub fn get(&self, item: &T) -> (r: Option<&K>)
        requires
            self.wf(),
            obeys_concrete_eq::<T>(),
        ensures
            match r {
                Some(k) => has_item(self.entries(), *item) && *k == self.entries()[item_index(
                    self.entries(),
                    *item,
                )].1,
                None => !has_item(self.entries(), *item),
            },
    {
        proof {
            reveal(obeys_concrete_eq);
        }
        match self.position(item) {
            Some(i) => {
                proof {
                    lemma_unique_index(self.entries(), *item, i as int);
                }
                Some(&self.priorities[i].1)
            },
            None => None,
        }
    }

    /// The first position that holds `item`.
    fn position(&self, item: &T) -> (r: Option<usize>)
        requires
            obeys_concrete_eq::<T>(),
        ensures
            match r {
                Some(i) => i < self.entries().len() && self.entries()[i as int].0 == *item
                    && forall|j: int| 0 <= j < i ==> self.entries()[j].0 != *item,
                None => !has_item(self.entries(), *item),
            },
    {
        proof {
            reveal(obeys_concrete_eq);
        }
        let mut i: usize = 0;
        while i < self.priorities.len()
            invariant
                obeys_concrete_eq::<T>(),
                i <= self.entries().len(),
                forall|j: int| 0 <= j < i ==> self.entries()[j].0 != *item,
            decreases self.entries().len() - i,
        {
            proof {
                reveal(obeys_concrete_eq);
            }
            if self.priorities[i].0 == *item {
                return Some(i);
            }
            i = i + 1;
        }
        None
    }

    /// Touches `item`: it moves to the front, with `key` if it was not held,
    /// and the oldest entry leaves when the heap is full.
    pub fn insert_and_increase(&mut self, item: T, key: K)
        requires
            old(self).wf(),
            obeys_concrete_eq::<T>(),
        ensures
            final(self).wf(),
            final(self).entries() == touched(old(self).entries(), item, key, SIZE as nat),
    {
        let ghost s = self.entries();
        match self.position(&item) {
            Some(i) => {
                proof {
                    lemma_unique_index(s, item, i as int);
                }
                let itm = self.priorities.remove(i).unwrap();
                self.priorities.push_front(itm);
                proof {
                    let t = self.entries();
                    assert(t == seq![s[i as int]] + s.remove(i as int));
                    assert forall|a: int, b: int|
                        0 <= a < b < t.len() implies #[trigger] t[a].0 != #[trigger] t[b].0 by {
                        if a == 0 {
                            assert(t[b] == s[if b - 1 < i { b - 1 } else { b }]);
                        } else {
                            assert(t[a] == s[if a - 1 < i { a - 1 } else { a }]);
                            assert(t[b] == s[if b - 1 < i { b - 1 } else { b }]);
                        }
                    }
                }
            },
            None => {
                if self.priorities.len() >= SIZE {
                    self.priorities.pop_back();
                }
                self.priorities.push_front((item, key));
                proof {
                    let t = self.entries();
                    assert forall|a: int, b: int|
                        0 <= a < b < t.len() implies #[trigger] t[a].0 != #[trigger] t[b].0 by {
                        if a == 0 {
                            assert(t[b] == s[b - 1]);
                        } else {
                            assert(t[a] == s[a - 1]);
                            assert(t[b] == s[b - 1]);
                        }
                    }
                }
            },
        }
    }
}

/// Where items are unique, the position found is the one that `item_index` names.
proof fn lemma_unique_index<T, K>(s: Seq<(T, K)>, item: T, i: int)
    requires
        0 <= i < s.len(),
        s[i].0 == item,
        forall|a: int, b: int| 0 <= a < b < s.len() ==> #[trigger] s[a].0 != #[trigger] s[b].0,
    ensures
        has_item(s, item),
        item_index(s, item) == i,
{
    assert(has_item(s, item));
    let j = item_index(s, item);
    if j < i {
        assert(s[j].0 != s[i].0);
    } else if i < j {
        assert(s[i].0 != s[j].0);
    }
}

/// Whether no item occurs twice among the entries.
pub open spec fn unique_items<T, K>(s: Seq<(T, K)>) -> bool {
    forall|a: int, b: int| 0 <= a < b < s.len() ==> #[trigger] s[a].0 != #[trigger] s[b].0
}

/// A touched item is held afterwards as the newest entry: with the key it
/// had where it was held already, else with the key it was touched with.
/// No item occurs twice afterwards.
pub proof fn lemma_touched_item_is_newest<T, K>(s: Seq<(T, K)>, item: T, key: K, size: nat)
    requires
        unique_items(s),
    ensures
        unique_items(touched(s, item, key, size)),
        has_item(touched(s, item, key, size), item),
        item_index(touched(s, item, key, size), item) == 0,
        touched(s, item, key, size)[0] == (item, if has_item(s, item) {
            s[item_index(s, item)].1
        } else {
            key
        }),
{
    let t = touched(s, item, key, size);
    if has_item(s, item) {
        let i = item_index(s, item);
        assert(t == seq![s[i]] + s.remove(i));
        assert forall|a: int, b: int| 0 <= a < b < t.len() implies #[trigger] t[a].0 != #[trigger] t[b].0 by {
            if a == 0 {
                assert(t[b] == s[if b - 1 < i { b - 1 } else { b }]);
            } else {
                assert(t[a] == s[if a - 1 < i { a - 1 } else { a }]);
                assert(t[b] == s[if b - 1 < i { b - 1 } else { b }]);
            }
        }
    } else {
        assert forall|a: int, b: int| 0 <= a < b < t.len() implies #[trigger] t[a].0 != #[trigger] t[b].0 by {
            if a == 0 {
                assert(t[b] == s[b - 1]);
            } else {
                assert(t[a] == s[a - 1]);
                assert(t[b] == s[b - 1]);
            }
        }
    }
    lemma_unique_index(t, item, 0);
}

impl<const SIZE: usize, T: PartialEq + Clone, K> Default for TopNHeap<SIZE, T, K> {
    fn default() -> (r: Self)
        ensures
            r.wf(),
            r.entries() == Seq::<(T, K)>::empty(),
    {
        Self::new()
    }
}

} // verus!
