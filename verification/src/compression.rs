//! Values stored as a zstd frame of their minimal serialization.
use vstd::prelude::*;

use crate::serialize_min::{
    DecodeError, DeserializeFromMinimal, MinimalSerializedSeek, SerializeMinimal,
};

verus! {

/// What `zstd::encode_all` gives for `data` at the default level: a frame, or
/// `None` where it reports an error.
pub uninterp spec fn zstd_encoded(data: Seq<u8>) -> Option<Seq<u8>>;

/// What `zstd::decode_all` gives for `data`: the bytes of the frames it holds,
/// or `None` where it reports an error.
pub uninterp spec fn zstd_decoded(data: Seq<u8>) -> Option<Seq<u8>>;

/// `zstd::encode_all` on `data` at level 0 (zstd's default level): the zstd
/// frame of the bytes, or `None` where zstd reports an error. The frame is
/// named, not stated.
#[verifier::external_body]
fn zstd_encode(data: &[u8]) -> (r: Option<Vec<u8>>)
    ensures
        match r {
            Some(v) => zstd_encoded(data@) == Some(v@),
            None => zstd_encoded(data@) is None,
        },
{
    match zstd::encode_all(data, 0) {
        Ok(v) => Some(v),
        Err(_) => None,
    }
}

/// `zstd::decode_all` on `data`: the bytes of the frames it holds, or `None`
/// where zstd reports an error (bytes that are not zstd frames among them).
#[verifier::external_body]
fn zstd_decode(data: &[u8]) -> (r: Option<Vec<u8>>)
    ensures
        match r {
            Some(v) => zstd_decoded(data@) == Some(v@),
            None => zstd_decoded(data@) is None,
        },
{
    match zstd::decode_all(data) {
        Ok(v) => Some(v),
        Err(_) => None,
    }
}

/// A value that is stored compressed.
pub struct Compressed<T>(pub T);

/// What reading a compressed `T` from `bytes` gives: the bytes are one or
/// more frames that take the whole input, and the value is read from what
/// they hold.
pub open spec fn compressed_read<T: DeserializeFromMinimal>(
    bytes: Seq<u8>,
    external_data: T::ExternalData,
) -> (Result<Compressed<T>, DecodeError>, nat) {
    match zstd_decoded(bytes) {
        Some(inner) => match T::deserialized(inner, external_data).0 {
            Ok(v) => (Ok(Compressed(v)), bytes.len()),
            Err(e) => (Err(e), bytes.len()),
        },
        None => (Err(DecodeError::InvalidData), bytes.len()),
    }
}

impl<T: SerializeMinimal> Compressed<T> {
    /// Writes the frame of the inner value's serialization to `write_to`.
    /// `None`, with nothing written, where zstd reports an error.
    pub fn minimally_serialize(&self, write_to: &mut Vec<u8>, external_data: T::ExternalData) -> (r:
        Option<()>)
        requires
            self.0.serializable(external_data),
        ensures
            match zstd_encoded(self.0.serialized(external_data)) {
                Some(frame) => r is Some && final(write_to)@ == old(write_to)@ + frame,
                None => r is None && final(write_to)@ == old(write_to)@,
            },
    {
        let mut inner = Vec::new();
        self.0.minimally_serialize(&mut inner, external_data);
        assert(inner@ =~= self.0.serialized(external_data));
        match zstd_encode(inner.as_slice()) {
            Some(mut frame) => {
                write_to.append(&mut frame);
                Some(())
            },
            None => None,
        }
    }
}

impl<T: DeserializeFromMinimal> DeserializeFromMinimal for Compressed<T> {
    type ExternalData = T::ExternalData;

    /// The frames hold bytes from which the inner value can be read.
    open spec fn deserializable(bytes: Seq<u8>, external_data: T::ExternalData) -> bool {
        zstd_decoded(bytes) matches Some(inner) ==> T::deserializable(inner, external_data)
    }

    /// The frames take the whole input.
    open spec fn deserialized(bytes: Seq<u8>, external_data: T::ExternalData) -> (Result<Self, DecodeError>, nat) {
        compressed_read::<T>(bytes, external_data)
    }

    /// Reads a compressed value from `from`; the frames take all of it.
    fn deserialize_minimal(from: &mut &[u8], external_data: T::ExternalData) -> (r: Result<
        Compressed<T>,
        DecodeError,
    >) {
        let inner = zstd_decode(*from);
        let (_, rest) = from.split_at(from.len());
        *from = rest;
        proof {
            assert(old(from)@.skip(old(from)@.len() as int) =~= Seq::<u8>::empty());
        }
        match inner {
            Some(bytes) => {
                let mut view = bytes.as_slice();
                match T::deserialize_minimal(&mut view, external_data) {
                    Ok(v) => Ok(Compressed(v)),
                    Err(e) => Err(e),
                }
            },
            None => Err(DecodeError::InvalidData),
        }
    }
}

/// Whether `bytes` are frames that hold a value of `T` that can be read,
/// for some external data.
pub open spec fn frames_hold_a_value<T: DeserializeFromMinimal>(bytes: Seq<u8>) -> bool {
    match zstd_decoded(bytes) {
        Some(inner) => exists|d: T::ExternalData| #[trigger] T::deserialized(inner, d).0 is Ok,
        None => false,
    }
}

impl<T: MinimalSerializedSeek> MinimalSerializedSeek for Compressed<T> {
    /// Moves `from` past a compressed value without keeping it: all of it.
    /// Succeeds only where the input is frames that hold a readable value;
    /// input that is not frames is refused as invalid.
    fn seek_past(from: &mut &[u8]) -> (r: Result<(), DecodeError>)
        ensures
            final(from)@ == Seq::<u8>::empty(),
            zstd_decoded(old(from)@) is None ==> r == Err::<(), DecodeError>(
                DecodeError::InvalidData,
            ),
            r is Ok ==> frames_hold_a_value::<T>(old(from)@),
    {
        let inner = zstd_decode(*from);
        let (_, rest) = from.split_at(from.len());
        *from = rest;
        match inner {
            Some(bytes) => {
                let mut view = bytes.as_slice();
                assert(view@ == bytes@);
                let r = T::seek_past(&mut view);
                proof {
                    if r is Ok {
                        let d = choose|d: T::ExternalData|
                            #![trigger T::deserialized(bytes@, d)]
                            T::deserialized(bytes@, d).0 is Ok;
                        assert(T::deserialized(bytes@, d).0 is Ok);
                        assert(zstd_decoded(old(from)@) == Some(bytes@));
                        assert(compressed_read::<T>(old(from)@, d).0 is Ok);
                        assert(Self::deserialized(old(from)@, d).0 is Ok);
                        assert(final(from)@ == old(from)@.skip(Self::deserialized(old(from)@, d).1 as int));
                        assert(old(from)@.skip(old(from)@.len() as int) =~= Seq::<u8>::empty());
                    }
                }
                r
            },
            None => Err(DecodeError::InvalidData),
        }
    }
}

/// Where zstd gives back what it framed, reading back a written compressed
/// value gives what reading the inner value's serialization gives.
pub proof fn lemma_compressed_roundtrip<T: SerializeMinimal + DeserializeFromMinimal>(
    value: T,
    frame: Seq<u8>,
    s: <T as SerializeMinimal>::ExternalData,
    d: <T as DeserializeFromMinimal>::ExternalData,
)
    requires
        zstd_encoded(value.serialized(s)) == Some(frame),
        zstd_decoded(frame) == Some(value.serialized(s)),
        T::deserialized(value.serialized(s), d).0 == Ok::<T, DecodeError>(value),
    ensures
        compressed_read::<T>(frame, d).0 == Ok::<Compressed<T>, DecodeError>(Compressed(value)),
{
}

} // verus!
