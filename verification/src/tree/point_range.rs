use vstd::prelude::*;

use core::marker::PhantomData;

use crate::serialize_min::{DecodeError, DeserializeFromMinimal, SerializeMinimal};

verus! {

/// A value that carries a type it does not store, which reading it ignores.
pub struct DisregardWhenDeserializing<Disregard, T>(pub T, pub PhantomData<Disregard>);

impl<Disregard, T> DisregardWhenDeserializing<Disregard, T> {
    pub fn into_inner(self) -> (r: T)
        ensures
            r == self.0,
    {
        self.0
    }

    pub fn inner(&self) -> (r: &T)
        ensures
            *r == self.0,
    {
        &self.0
    }
}

impl<Disregard, T> From<T> for DisregardWhenDeserializing<Disregard, T> {
    fn from(value: T) -> (r: Self) {
        DisregardWhenDeserializing(value, PhantomData)
    }
}

impl<Disregard, T> vstd::std_specs::convert::FromSpecImpl<T> for DisregardWhenDeserializing<Disregard, T> {
    open spec fn obeys_from_spec() -> bool {
        true
    }

    open spec fn from_spec(v: T) -> Self {
        DisregardWhenDeserializing(v, PhantomData)
    }
}

impl<Disregard, T: SerializeMinimal> SerializeMinimal for DisregardWhenDeserializing<Disregard, T> {
    type ExternalData = T::ExternalData;

    open spec fn serializable(&self, external_data: T::ExternalData) -> bool {
        self.0.serializable(external_data)
    }

    /// Written as the value it wraps.
    open spec fn serialized(&self, external_data: T::ExternalData) -> Seq<u8> {
        self.0.serialized(external_data)
    }

    fn minimally_serialize(&self, write_to: &mut Vec<u8>, external_data: T::ExternalData) {
        self.0.minimally_serialize(write_to, external_data)
    }
}

impl<Disregard, T: DeserializeFromMinimal<ExternalData = ()>> DeserializeFromMinimal for DisregardWhenDeserializing<
    Disregard,
    T,
> {
    /// The data handed in is disregarded.
    type ExternalData = Disregard;

    open spec fn deserializable(bytes: Seq<u8>, external_data: Disregard) -> bool {
        T::deserializable(bytes, ())
    }

    /// Read as the value it wraps.
    open spec fn deserialized(bytes: Seq<u8>, external_data: Disregard) -> (Result<Self, DecodeError>, nat) {
        match T::deserialized(bytes, ()) {
            (Ok(v), n) => (Ok(DisregardWhenDeserializing(v, PhantomData)), n),
            (Err(e), n) => (Err(e), n),
        }
    }

    fn deserialize_minimal(from: &mut &[u8], external_data: Disregard) -> (r: Result<Self, DecodeError>) {
        match T::deserialize_minimal(from, ()) {
            Ok(v) => Ok(DisregardWhenDeserializing(v, PhantomData)),
            Err(e) => Err(e),
        }
    }
}

/// Coordinates on a line: ordered, with a midpoint, a zero, and differences.
pub trait OneDimensionalCoord: Copy {
    /// The position on the line.
    spec fn coord(self) -> int;

    /// The midpoint, as the sum of the halves of the two.
    fn average(a: Self, b: Self) -> (r: Self)
        ensures
            r.coord() == a.coord() / 2 + b.coord() / 2,
    ;

    fn zero() -> (r: Self)
        ensures
            r.coord() == 0,
    ;

    fn le(&self, other: &Self) -> (r: bool)
        ensures
            r == (self.coord() <= other.coord()),
    ;

    fn plus(self, other: Self) -> (r: Self)
        requires
            Self::fits(self.coord() + other.coord()),
        ensures
            r.coord() == self.coord() + other.coord(),
    ;

    fn minus(self, other: Self) -> (r: Self)
        requires
            Self::fits(self.coord() - other.coord()),
        ensures
            r.coord() == self.coord() - other.coord(),
    ;

    /// Whether a position is a value of the type.
    spec fn fits(v: int) -> bool;
}

impl OneDimensionalCoord for u64 {
    open spec fn coord(self) -> int {
        self as int
    }

    fn average(a: u64, b: u64) -> (r: u64) {
        a / 2 + b / 2
    }

    fn zero() -> (r: u64) {
        0
    }

    fn le(&self, other: &u64) -> (r: bool) {
        *self <= *other
    }

    fn plus(self, other: u64) -> (r: u64) {
        self + other
    }

    fn minus(self, other: u64) -> (r: u64) {
        self - other
    }

    open spec fn fits(v: int) -> bool {
        0 <= v <= u64::MAX
    }
}

/// A closed range of coordinates `0..=1`.
#[derive(Copy, Clone)]
pub struct PointRange<T: OneDimensionalCoord>(pub T, pub T);

/// A single coordinate.
#[derive(Copy, Clone)]
pub struct Point<T: OneDimensionalCoord>(pub T);

impl<T: OneDimensionalCoord> PointRange<T> {
    /// Whether `child` lies within this range.
    pub fn contains(&self, child: &Self) -> (r: bool)
        ensures
            r == (self.0.coord() <= child.0.coord() && child.1.coord() <= self.1.coord()),
    {
        self.0.le(&child.0) && child.1.le(&self.1)
    }

    /// Splits the range at the average of its ends.
    pub fn split_evenly_on_dimension(&self, _dimension: &()) -> (r: (Self, Self))
        ensures
            r.0.0 == self.0,
            r.1.1 == self.1,
            r.0.1 == r.1.0,
            r.0.1.coord() == self.0.coord() / 2 + self.1.coord() / 2,
    {
        let middle = T::average(self.0, self.1);
        (PointRange(self.0, middle), PointRange(middle, self.1))
    }
}

impl<T: OneDimensionalCoord> Point<T> {
    /// Whether the point lies within `parent`.
    pub fn is_contained_in(&self, parent: &PointRange<T>) -> (r: bool)
        ensures
            r == (parent.0.coord() <= self.0.coord() && self.0.coord() <= parent.1.coord()),
    {
        parent.0.le(&self.0) && self.0.le(&parent.1)
    }

    /// The distance of the point from the start of `parent`.
    pub fn delta_from_parent(&self, parent: &PointRange<T>) -> (r: T)
        requires
            T::fits(self.0.coord() - parent.0.coord()),
        ensures
            r.coord() == self.0.coord() - parent.0.coord(),
    {
        self.0.minus(parent.0)
    }

    /// The point at distance `delta` from the start of `parent`.
    pub fn apply_delta_from_parent(delta: &T, parent: &PointRange<T>) -> (r: Self)
        requires
            T::fits(delta.coord() + parent.0.coord()),
        ensures
            r.0.coord() == delta.coord() + parent.0.coord(),
    {
        Point(delta.plus(parent.0))
    }

    /// The step from distance `initil` to distance `finl`.
    pub fn delta_from_self(finl: &T, initil: &T) -> (r: T)
        requires
            T::fits(finl.coord() - initil.coord()),
        ensures
            r.coord() == finl.coord() - initil.coord(),
    {
        finl.minus(*initil)
    }

    /// The distance a step `delta` past `initial`.
    pub fn apply_delta_from_self(delta: &T, initial: &T) -> (r: T)
        requires
            T::fits(initial.coord() + delta.coord()),
        ensures
            r.coord() == initial.coord() + delta.coord(),
    {
        initial.plus(*delta)
    }
}

/// A point stored as its distance from the start of a range, and read back
/// by applying that distance to the same range, is the point again; the same
/// holds of a step between two distances.
pub proof fn lemma_delta_roundtrip<T: OneDimensionalCoord>(
    point: Point<T>,
    parent: PointRange<T>,
    delta: T,
    back: Point<T>,
)
    requires
        delta.coord() == point.0.coord() - parent.0.coord(),
        back.0.coord() == delta.coord() + parent.0.coord(),
    ensures
        back.0.coord() == point.0.coord(),
{
}

} // verus!
