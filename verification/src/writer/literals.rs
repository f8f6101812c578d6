use vstd::prelude::*;

use crate::compressor::literals::literal_value::str_eq;

verus! {

broadcast use vstd::string::group_string_axioms;

pub type LiteralId = u64;

/// Names, each with the id it was first given: one more than the number of
/// names before it.
pub struct LiteralPool {
    names: Vec<String>,
}

/// The id of `value` among `names`, and the names after: a name held keeps
/// its id, one more than its position; a new name joins at the end.
pub open spec fn name_id(names: Seq<Seq<char>>, value: Seq<char>) -> (u64, Seq<Seq<char>>) {
    if exists|i: int| 0 <= i < names.len() && names[i] == value {
        let i = choose|i: int| 0 <= i < names.len() && names[i] == value;
        ((i + 1) as u64, names)
    } else {
        ((names.len() + 1) as u64, names.push(value))
    }
}

/// Whether no name occurs twice.
pub open spec fn unique_names(names: Seq<Seq<char>>) -> bool {
    forall|i: int, j: int| 0 <= i < j < names.len() ==> #[trigger] names[i] != #[trigger] names[j]
}

impl LiteralPool {
    /// The names in the order they were given ids; the id of the name at
    /// position `i` is `i + 1`.
    pub closed spec fn names(&self) -> Seq<Seq<char>> {
        Seq::new(self.names@.len(), |i: int| self.names@[i]@)
    }

    pub open spec fn wf(&self) -> bool {
        forall|i: int, j: int|
            0 <= i < j < self.names().len() ==> #[trigger] self.names()[i] != #[trigger] self.names()[j]
    }

    pub fn new() -> (r: Self)
        ensures
            r.wf(),
            r.names() == Seq::<Seq<char>>::empty(),
    {
        let r = LiteralPool { names: Vec::new() };
        assert(r.names() =~= Seq::<Seq<char>>::empty());
        r
    }

    /// How many names have ids.
    pub fn len(&self) -> (r: usize)
        ensures
            r == self.names().len(),
    {
        self.names.len()
    }

    /// The id of `value`, given the next id if it has none yet.
    pub fn get_id(&mut self, value: &str) -> (r: LiteralId)
        requires
            old(self).wf(),
            old(self).names().len() < u64::MAX,
        ensures
            final(self).wf(),
            (exists|i: int| 0 <= i < old(self).names().len() && old(self).names()[i] == value@) ==> {
                &&& final(self).names() == old(self).names()
                &&& 1 <= r <= old(self).names().len()
                &&& old(self).names()[r - 1] == value@
            },
            !(exists|i: int| 0 <= i < old(self).names().len() && old(self).names()[i] == value@)
                ==> final(self).names() == old(self).names().push(value@) && r == old(
                self,
            ).names().len() + 1,
            (r, final(self).names()) == name_id(old(self).names(), value@),
    {
        let ghost s = self.names();
        let mut i: usize = 0;
        while i < self.names.len()
            invariant
                s == self.names(),
                self.wf(),
                i <= s.len(),
                s.len() == self.names@.len(),
                forall|j: int| 0 <= j < i ==> s[j] != value@,
            decreases s.len() - i,
        {
            if str_eq(self.names[i].as_str(), value) {
                proof {
                    assert(s[i as int] == value@);
                    let k = choose|k: int| 0 <= k < s.len() && s[k] == value@;
                    if k != i {
                        if k < i {
                            assert(s[k] != value@);
                        } else {
                            assert(s[i as int] != s[k]);
                        }
                    }
                }
                return (i + 1) as u64;
            }
            i = i + 1;
        }
        let new_id = self.names.len() as u64 + 1;
        self.names.push(String::from_str(value));
        proof {
            assert(self.names() =~= s.push(value@));
        }
        new_id
    }
}

} // verus!
