//! Walks over slices: marking the last item, pairing items, mapping until a
//! final item, flattening results, and cutting into padded chunks.
use vstd::prelude::*;

use vstd::laws_eq::obeys_concrete_eq;

verus! {

/// Walks over the items of a slice.
pub trait IterIsFinal<T> {
    /// The items, each with whether it is the last one.
    fn is_final<'a>(&'a self) -> IsFinal<'a, T>;

    /// The items two at a time.
    fn pair_chunk<'a>(&'a self) -> PairChunk<'a, T>;
}

/// The items of a slice, each with whether it is the last one.
pub struct IsFinal<'a, T> {
    rest: &'a [T],
}

/// The items of a slice two at a time; an odd one out is dropped.
pub struct PairChunk<'a, T> {
    rest: &'a [T],
}

impl<T: Copy> IterIsFinal<T> for [T] {
    fn is_final<'a>(&'a self) -> (r: IsFinal<'a, T>)
        ensures
            r.rest() == self@,
    {
        IsFinal { rest: self }
    }

    fn pair_chunk<'a>(&'a self) -> (r: PairChunk<'a, T>)
        ensures
            r.rest() == self@,
    {
        PairChunk { rest: self }
    }
}

impl<'a, T: Copy> IsFinal<'a, T> {
    /// The items still to come.
    pub closed spec fn rest(&self) -> Seq<T> {
        self.rest@
    }

    /// The next item, with whether it is the last one.
    pub fn next(&mut self) -> (r: Option<(bool, T)>)
        ensures
            old(self).rest().len() == 0 ==> r is None && final(self).rest() == old(self).rest(),
            old(self).rest().len() > 0 ==> r == Some((old(self).rest().len() == 1, old(self).rest()[0]))
                && final(self).rest() == old(self).rest().drop_first(),
    {
        if self.rest.len() == 0 {
            return None;
        }
        let item = self.rest[0];
        let (_, tail) = self.rest.split_at(1);
        self.rest = tail;
        Some((tail.len() == 0, item))
    }
}

impl<'a, T: Copy> PairChunk<'a, T> {
    /// The items still to come.
    pub closed spec fn rest(&self) -> Seq<T> {
        self.rest@
    }

    /// The next two items; `None` when fewer than two are left, which are
    /// then taken.
    pub fn next(&mut self) -> (r: Option<(T, T)>)
        ensures
            old(self).rest().len() >= 2 ==> r == Some((old(self).rest()[0], old(self).rest()[1]))
                && final(self).rest() == old(self).rest().skip(2),
            old(self).rest().len() < 2 ==> r is None && final(self).rest() == Seq::<T>::empty(),
    {
        if self.rest.len() < 2 {
            let (_, tail) = self.rest.split_at(self.rest.len());
            self.rest = tail;
            return None;
        }
        let a = self.rest[0];
        let b = self.rest[1];
        let (_, tail) = self.rest.split_at(2);
        self.rest = tail;
        Some((a, b))
    }
}

/// A mapped item, and whether mapping should stop after it.
#[derive(Debug, Clone, Copy)]
pub enum Finished<R> {
    NonFinal(R),
    Final(R),
}

/// Maps the items of a slice with `func` until it answers a final value.
#[verifier::reject_recursive_types(R)]
#[verifier::reject_recursive_types(T)]
pub struct MapUntil<'a, R, T, F: Fn(T) -> Finished<R>> {
    rest: &'a [T],
    func: F,
    done: bool,
}

/// Maps the items of `items` with `func` until it answers a final value.
pub fn map_until_finished<'a, R, T: Copy, F: Fn(T) -> Finished<R>>(items: &'a [T], func: F) -> (r:
    MapUntil<'a, R, T, F>)
    ensures
        r.rest() == items@,
        !r.done(),
        r.func() == func,
{
    MapUntil { rest: items, func, done: false }
}

impl<'a, R, T: Copy, F: Fn(T) -> Finished<R>> MapUntil<'a, R, T, F> {
    pub closed spec fn rest(&self) -> Seq<T> {
        self.rest@
    }

    /// Whether a final value was answered.
    pub closed spec fn done(&self) -> bool {
        self.done
    }

    pub closed spec fn func(&self) -> F {
        self.func
    }

    /// The next mapped item; `None` once a final value was answered or the
    /// items ran out.
    pub fn next(&mut self) -> (r: Option<R>)
        requires
            old(self).rest().len() > 0 ==> call_requires(old(self).func(), (old(self).rest()[0],)),
        ensures
            final(self).func() == old(self).func(),
            old(self).done() || old(self).rest().len() == 0 ==> r is None && final(self).rest()
                == old(self).rest() && final(self).done() == old(self).done(),
            !old(self).done() && old(self).rest().len() > 0 ==> {
                &&& final(self).rest() == old(self).rest().drop_first()
                &&& exists|out: Finished<R>|
                    call_ensures(old(self).func(), (old(self).rest()[0],), out) && match out {
                        Finished::NonFinal(v) => r == Some(v) && !final(self).done(),
                        Finished::Final(v) => r == Some(v) && final(self).done(),
                    }
            },
    {
        if self.done || self.rest.len() == 0 {
            return None;
        }
        let item = self.rest[0];
        let (_, tail) = self.rest.split_at(1);
        self.rest = tail;
        let new_val = (self.func)(item);
        match new_val {
            Finished::NonFinal(v) => Some(v),
            Finished::Final(v) => {
                self.done = true;
                Some(v)
            },
        }
    }
}

/// The items that results stand for: the items of each `Ok`, and each error.
pub open spec fn flattened<T, E>(outer: Seq<Result<Vec<T>, E>>) -> Seq<Result<T, E>>
    decreases outer.len(),
{
    if outer.len() == 0 {
        Seq::empty()
    } else {
        let head: Seq<Result<T, E>> = match outer[0] {
            Ok(v) => Seq::new(v@.len(), |i: int| Ok(v@[i])),
            Err(e) => seq![Err(e)],
        };
        head + flattened(outer.drop_first())
    }
}

/// Flattens a run of results.
pub trait IterTryFlatten<T, E> {
    fn try_flatten<'a>(&'a self) -> TryFlatten<'a, T, E>;
}

impl<T: Copy, E: Copy> IterTryFlatten<T, E> for [Result<Vec<T>, E>] {
    /// The items of each `Ok` in turn, and each error.
    fn try_flatten<'a>(&'a self) -> (r: TryFlatten<'a, T, E>)
        ensures
            r.pending() == flattened(self@),
    {
        try_flatten(self)
    }
}

/// The items of a run of results, with the errors among them.
pub struct TryFlatten<'a, T, E> {
    current: Option<Result<&'a [T], E>>,
    rest: &'a [Result<Vec<T>, E>],
}

/// Flattens `items`: the items of each `Ok` in turn, and each error.
pub fn try_flatten<'a, T: Copy, E: Copy>(items: &'a [Result<Vec<T>, E>]) -> (r: TryFlatten<'a, T, E>)
    ensures
        r.pending() == flattened(items@),
{
    let r = TryFlatten { current: None, rest: items };
    assert(r.pending() =~= flattened(items@));
    r
}

impl<'a, T: Copy, E: Copy> TryFlatten<'a, T, E> {
    /// The items still to come.
    pub closed spec fn pending(&self) -> Seq<Result<T, E>> {
        let head: Seq<Result<T, E>> = match self.current {
            Some(Ok(s)) => Seq::new(s@.len(), |i: int| Ok(s@[i])),
            Some(Err(e)) => seq![Err(e)],
            None => Seq::empty(),
        };
        head + flattened(self.rest@)
    }

    /// The next item or error.
    pub fn next(&mut self) -> (r: Option<Result<T, E>>)
        ensures
            old(self).pending().len() == 0 ==> r is None && final(self).pending() == old(self).pending(),
            old(self).pending().len() > 0 ==> r == Some(old(self).pending()[0])
                && final(self).pending() == old(self).pending().drop_first(),
    {
        let ghost start = self.pending();
        loop
            invariant
                self.pending() == start,
                start == old(self).pending(),
            decreases self.rest@.len(), match self.current {
                Some(Ok(s)) => s@.len() + 1,
                Some(Err(_)) => 1,
                None => 0,
            },
        {
            let cur = self.current;
            match cur {
                Some(Err(e)) => {
                    self.current = None;
                    assert(start =~= seq![Err(e)] + flattened(self.rest@));
                    assert(self.pending() =~= start.drop_first());
                    return Some(Err(e));
                },
                Some(Ok(s)) => {
                    if s.len() > 0 {
                        let item = s[0];
                        let (_, tail) = s.split_at(1);
                        self.current = Some(Ok(tail));
                        assert(start[0] == Ok::<T, E>(item));
                        assert(self.pending() =~= start.drop_first());
                        return Some(Ok(item));
                    }
                    self.current = None;
                    assert(self.pending() =~= start);
                },
                None => {
                    if self.rest.len() == 0 {
                        assert(start =~= Seq::<Result<T, E>>::empty());
                        return None;
                    }
                    let first = &self.rest[0];
                    let (_, tail) = self.rest.split_at(1);
                    self.current = match first {
                        Ok(v) => Some(Ok(v.as_slice())),
                        Err(e) => Some(Err(*e)),
                    };
                    self.rest = tail;
                    assert(self.pending() =~= start);
                },
            }
        }
    }
}

/// Cuts a slice into chunks of a fixed length.
pub trait IterChunksPadded<T> {
    fn chunks_padded<'a>(&'a self, num: usize) -> ChunksPadded<'a, T>;
}

impl<T: Copy + Default> IterChunksPadded<T> for [T] {
    /// Chunks of `num` items; the last one padded with the default value.
    fn chunks_padded<'a>(&'a self, num: usize) -> (r: ChunksPadded<'a, T>)
        ensures
            r.rest() == self@,
            r.num() == num,
    {
        ChunksPadded { slice: self, num }
    }
}

/// The chunks of a slice, each `num` items long; the last one is padded.
pub struct ChunksPadded<'a, T> {
    slice: &'a [T],
    num: usize,
}

/// A chunk of a slice, padded to `len` items with a default value.
#[derive(Debug)]
pub struct PaddedChunk<'a, T> {
    slice: &'a [T],
    len: usize,
    def: T,
}

impl<'a, T: Copy> PaddedChunk<'a, T> {
    /// The items of the chunk: those taken from the slice, then the padding.
    pub closed spec fn items(&self) -> Seq<T> {
        self.slice@ + Seq::new((self.len - self.slice@.len()) as nat, |i: int| self.def)
    }

    pub closed spec fn wf(&self) -> bool {
        self.slice@.len() <= self.len
    }

    /// The value the chunk is padded with.
    pub closed spec fn padding(&self) -> T {
        self.def
    }

    pub fn len(&self) -> (r: usize)
        requires
            self.wf(),
        ensures
            r == self.items().len(),
    {
        self.len
    }

    /// The items of the chunk.
    pub fn iter(&self) -> (r: Vec<T>)
        requires
            self.wf(),
        ensures
            r@ == self.items(),
    {
        let mut out: Vec<T> = Vec::new();
        let mut i: usize = 0;
        while i < self.len
            invariant
                self.wf(),
                i <= self.len,
                out@ == self.items().take(i as int),
            decreases self.len - i,
        {
            out.push(*self.index(i));
            i = i + 1;
            assert(out@ =~= self.items().take(i as int));
        }
        assert(out@ =~= self.items());
        out
    }

    /// The item at `index`: from the slice, else the padding value.
    pub fn index(&self, index: usize) -> (r: &T)
        requires
            self.wf(),
        ensures
            index < self.items().len() ==> *r == self.items()[index as int],
            index >= self.items().len() ==> *r == self.padding(),
    {
        if index < self.slice.len() {
            &self.slice[index]
        } else {
            &self.def
        }
    }

    /// Whether the chunk holds exactly the items of `other`.
    pub fn eq_slice(&self, other: &[T]) -> (r: bool)
        where T: PartialEq,
        requires
            self.wf(),
            obeys_concrete_eq::<T>(),
        ensures
            r == (self.items() == other@),
    {
        proof {
            reveal(obeys_concrete_eq);
        }
        if self.len != other.len() {
            return false;
        }
        let mut i: usize = 0;
        while i < other.len()
            invariant
                self.wf(),
                obeys_concrete_eq::<T>(),
                other@.len() == self.items().len(),
                i <= other@.len(),
                forall|j: int| 0 <= j < i ==> other@[j] == self.items()[j],
            decreases other@.len() - i,
        {
            proof {
                reveal(obeys_concrete_eq);
            }
            if other[i] != *self.index(i) {
                return false;
            }
            i = i + 1;
        }
        assert(self.items() =~= other@);
        true
    }

    /// Whether two chunks hold the same items.
    pub fn eq_chunk(&self, other: &Self) -> (r: bool)
        where T: PartialEq,
        requires
            self.wf(),
            other.wf(),
            obeys_concrete_eq::<T>(),
        ensures
            r == (self.items() == other.items()),
    {
        let v = other.iter();
        self.eq_slice(v.as_slice())
    }
}

impl<'a, T: Copy + Default> ChunksPadded<'a, T> {
    /// The items still to cut.
    pub closed spec fn rest(&self) -> Seq<T> {
        self.slice@
    }

    /// The length of the chunks.
    pub closed spec fn num(&self) -> nat {
        self.num as nat
    }

    /// The next chunk: the next `num` items, padded with `T::default()` when
    /// fewer are left; `None` when none are left.
    pub fn next(&mut self) -> (r: Option<PaddedChunk<'a, T>>)
        ensures
            final(self).num() == old(self).num(),
            old(self).rest().len() == 0 ==> r is None && final(self).rest() == old(self).rest(),
            old(self).rest().len() > 0 ==> ({
                let k = if old(self).rest().len() < old(self).num() {
                    old(self).rest().len()
                } else {
                    old(self).num()
                };
                &&& r matches Some(c) && c.wf() && c.items().len() == old(self).num() && c.items().take(
                    k as int,
                ) == old(self).rest().take(k as int) && (forall|i: int|
                    k <= i < c.items().len() ==> #[trigger] c.items()[i] == c.padding())
                    && call_ensures(T::default, (), c.padding())
                &&& final(self).rest() == old(self).rest().skip(k as int)
            }),
    {
        if self.slice.len() == 0 {
            return None;
        }
        let k = if self.slice.len() < self.num {
            self.slice.len()
        } else {
            self.num
        };
        let (head, tail) = self.slice.split_at(k);
        self.slice = tail;
        let c = PaddedChunk { slice: head, len: self.num, def: T::default() };
        assert(c.items().take(k as int) =~= head@);
        Some(c)
    }
}

/// The chunks of `items`, each `num` long.
pub fn chunks_padded<'a, T: Copy + Default>(items: &'a [T], num: usize) -> (r: ChunksPadded<'a, T>)
    ensures
        r.rest() == items@,
        r.num() == num,
{
    items.chunks_padded(num)
}

} // verus!
