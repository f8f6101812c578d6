use vstd::prelude::*;

verus! {

/// Values that append a compact encoding of themselves to a byte buffer,
/// helped by data that the caller passes along.
pub trait SerializeMinimal {
    type ExternalData;

    /// Whether the value can be written with this data.
    spec fn serializable(&self, external_data: Self::ExternalData) -> bool;

    /// The bytes that the value is written as.
    spec fn serialized(&self, external_data: Self::ExternalData) -> Seq<u8>;

    /// Appends the encoding of the value to `write_to`.
    fn minimally_serialize(&self, write_to: &mut Vec<u8>, external_data: Self::ExternalData)
        requires
            self.serializable(external_data),
        ensures
            final(write_to)@ == old(write_to)@ + self.serialized(external_data),
    ;
}

/// Values that read themselves back from the front of a byte slice.
pub trait DeserializeFromMinimal: Sized {
    type ExternalData;

    /// Whether reading from `bytes` with this data is defined.
    spec fn deserializable(bytes: Seq<u8>, external_data: Self::ExternalData) -> bool;

    /// What reading from `bytes` gives, and how many bytes it takes.
    spec fn deserialized(bytes: Seq<u8>, external_data: Self::ExternalData) -> (
        Result<Self, DecodeError>,
        nat,
    );

    /// Reads one value from the front of `from` and moves `from` past it.
    fn deserialize_minimal(from: &mut &[u8], external_data: Self::ExternalData) -> (r: Result<
        Self,
        DecodeError,
    >)
        requires
            Self::deserializable(old(from)@, external_data),
        ensures
            r == Self::deserialized(old(from)@, external_data).0,
            Self::deserialized(old(from)@, external_data).1 <= old(from)@.len(),
            final(from)@ == old(from)@.skip(Self::deserialized(old(from)@, external_data).1 as int),
    ;

    /// Moves `from` past one value, which is read and dropped.
    fn read_past(from: &mut &[u8], external_data: Self::ExternalData) -> (r: Result<(), DecodeError>)
        requires
            Self::deserializable(old(from)@, external_data),
        ensures
            r is Ok <==> Self::deserialized(old(from)@, external_data).0 is Ok,
            r matches Err(e) ==> Self::deserialized(old(from)@, external_data).0 == Err::<
                Self,
                DecodeError,
            >(e),
            final(from)@ == old(from)@.skip(Self::deserialized(old(from)@, external_data).1 as int),
    {
        match Self::deserialize_minimal(from, external_data) {
            Ok(_) => Ok(()),
            Err(e) => Err(e),
        }
    }
}

/// Values kept in storage that may hold other stored values, which are
/// written out with them.
pub trait StorageReachable: SerializeMinimal {
    /// Writes out the stored values this one holds; none by default.
    fn flush_children(&mut self, serialize_data: Self::ExternalData) -> (r: Result<(), DecodeError>)
        default_ensures
            r == Ok::<(), DecodeError>(()),
    {
        Ok(())
    }
}

/// Values that can be skipped without being built.
pub trait MinimalSerializedSeek: DeserializeFromMinimal {
    /// Moves `from` past one value, as reading it would.
    fn seek_past(from: &mut &[u8]) -> (r: Result<(), DecodeError>)
        ensures
            r is Ok ==> exists|d: Self::ExternalData|
                #![trigger Self::deserialized(old(from)@, d)]
                Self::deserialized(old(from)@, d).0 is Ok && final(from)@ == old(from)@.skip(
                    Self::deserialized(old(from)@, d).1 as int,
                ),
    ;
}

/// Why reading a minimally serialized value failed.
#[derive(Debug, Clone, Copy, PartialEq, Eq, Structural)]
pub enum DecodeError {
    /// The input ended before the value did.
    UnexpectedEof,
    /// The input holds bytes that no value serializes to.
    InvalidData,
}

/// A source of bytes that is read from the front, one byte at a time.
pub trait ReadExtReadOne {
    /// The bytes that are still to be read.
    spec fn remaining(&self) -> Seq<u8>;

    /// Reads the next byte, or fails with `UnexpectedEof` when none is left.
    fn read_one(&mut self) -> (r: Result<u8, DecodeError>)
        ensures
            old(self).remaining().len() == 0 ==> r == Err::<u8, DecodeError>(
                DecodeError::UnexpectedEof,
            ) && final(self).remaining() == old(self).remaining(),
            old(self).remaining().len() > 0 ==> r == Ok::<u8, DecodeError>(old(self).remaining()[0])
                && final(self).remaining() == old(self).remaining().drop_first(),
    ;
}

impl<'a> ReadExtReadOne for &'a [u8] {
    open spec fn remaining(&self) -> Seq<u8> {
        self@
    }

    fn read_one(&mut self) -> (r: Result<u8, DecodeError>) {
        if self.len() == 0 {
            return Err(DecodeError::UnexpectedEof);
        }
        let b = self[0];
        let (_, rest) = self.split_at(1);
        *self = rest;
        Ok(b)
    }
}

/// The bytes of a source, handed out one at a time until it runs dry.
pub struct ReadingIterator<'a, R: ReadExtReadOne + ?Sized>(pub &'a mut R);

impl<'a, R: ReadExtReadOne + ?Sized> ReadingIterator<'a, R> {
    /// The bytes still to come.
    pub open spec fn rest(&self) -> Seq<u8> {
        self.0.remaining()
    }

    /// The next byte, or `None` once the source is exhausted.
    pub fn next(&mut self) -> (r: Option<Result<u8, DecodeError>>)
        ensures
            old(self).rest().len() == 0 ==> r is None && final(self).rest() == old(self).rest(),
            old(self).rest().len() > 0 ==> r == Some(Ok::<u8, DecodeError>(old(self).rest()[0]))
                && final(self).rest() == old(self).rest().drop_first(),
    {
        match self.0.read_one() {
            Ok(b) => Some(Ok(b)),
            Err(_) => None,
        }
    }
}

/// An iterator over the bytes of `source`.
pub fn reading_iterator<'a, R: ReadExtReadOne + ?Sized>(source: &'a mut R) -> (r: ReadingIterator<'a, R>)
    ensures
        r.rest() == old(source).remaining(),
        final(source).remaining() == final(r.0).remaining(),
{
    ReadingIterator(source)
}

/// Takes the first `n` bytes off the front of `bytes`.
pub fn read_exact<'a>(bytes: &mut &'a [u8], n: usize) -> (r: Result<&'a [u8], DecodeError>)
    ensures
        old(bytes)@.len() < n ==> r == Err::<&'a [u8], DecodeError>(DecodeError::UnexpectedEof)
            && final(bytes)@ == Seq::<u8>::empty(),
        n <= old(bytes)@.len() ==> (r matches Ok(taken) && taken@ == old(bytes)@.take(n as int)
            && final(bytes)@ == old(bytes)@.skip(n as int)),
{
    if bytes.len() < n {
        let (_, rest) = bytes.split_at(bytes.len());
        *bytes = rest;
        return Err(DecodeError::UnexpectedEof);
    }
    let (head, rest) = bytes.split_at(n);
    *bytes = rest;
    Ok(head)
}

} // verus!
