use vstd::prelude::*;

use crate::serialize_min::{DecodeError, DeserializeFromMinimal, SerializeMinimal};
use crate::varint::{
    from_varint, lemma_to_from_varint, varint_decode, varint_encoding, FromVarint, ToVarint,
    VarintRoundtrip,
};

verus! {

/// What reading a variable-length integer of type `T` from `bytes` gives.
pub open spec fn varint_read<T: FromVarint>(bytes: Seq<u8>) -> (Result<T, DecodeError>, nat) {
    match varint_decode(bytes, T::varint_modulus()) {
        Some((u, n)) => (Ok(T::from_varint_value(u)), n),
        None => (Err(DecodeError::UnexpectedEof), bytes.len()),
    }
}

impl<T: ToVarint> SerializeMinimal for T {
    type ExternalData = ();

    open spec fn serializable(&self, external_data: ()) -> bool {
        true
    }

    open spec fn serialized(&self, external_data: ()) -> Seq<u8> {
        varint_encoding(self.varint_value())
    }

    fn minimally_serialize(&self, write_to: &mut Vec<u8>, external_data: ()) {
        self.write_varint(write_to);
    }
}

impl<T: FromVarint> DeserializeFromMinimal for T {
    type ExternalData = ();

    open spec fn deserializable(bytes: Seq<u8>, external_data: ()) -> bool {
        true
    }

    open spec fn deserialized(bytes: Seq<u8>, external_data: ()) -> (Result<T, DecodeError>, nat) {
        varint_read::<T>(bytes)
    }

    fn deserialize_minimal(from: &mut &[u8], external_data: ()) -> (r: Result<T, DecodeError>) {
        proof {
            T::lemma_modulus_positive();
            crate::varint::lemma_decode_bound(old(from)@, T::varint_modulus());
        }
        from_varint(from)
    }
}

/// Reading back what an integer was written as gives the integer, and takes
/// exactly the bytes it was written as: whatever follows, or, for an integer
/// written as zero, where nothing follows.
pub proof fn lemma_integer_roundtrip<T: VarintRoundtrip>(x: T, rest: Seq<u8>)
    requires
        x.varint_value() > 0 || rest.len() == 0,
    ensures
        varint_read::<T>(SerializeMinimal::serialized(&x, ()) + rest) == (
            Ok::<T, DecodeError>(x),
            SerializeMinimal::serialized(&x, ()).len(),
        ),
{
    lemma_to_from_varint(x, rest);
}

/// The byte a flag is written as: one for `true`, zero for `false`, as a
/// variable-length integer.
pub open spec fn bool_bytes(b: bool) -> Seq<u8> {
    varint_encoding(if b { 1 } else { 0 })
}

impl SerializeMinimal for bool {
    type ExternalData = ();

    open spec fn serializable(&self, external_data: ()) -> bool {
        true
    }

    open spec fn serialized(&self, external_data: ()) -> Seq<u8> {
        bool_bytes(*self)
    }

    fn minimally_serialize(&self, write_to: &mut Vec<u8>, external_data: ()) {
        let v: u8 = if *self { 1 } else { 0 };
        v.write_varint(write_to);
    }
}

impl DeserializeFromMinimal for bool {
    type ExternalData = ();

    open spec fn deserializable(bytes: Seq<u8>, external_data: ()) -> bool {
        true
    }

    /// A flag is read as a byte, and is set when the byte is not zero.
    open spec fn deserialized(bytes: Seq<u8>, external_data: ()) -> (Result<bool, DecodeError>, nat) {
        match varint_read::<u8>(bytes) {
            (Ok(v), n) => (Ok(v != 0), n),
            (Err(e), n) => (Err(e), n),
        }
    }

    fn deserialize_minimal(from: &mut &[u8], external_data: ()) -> (r: Result<bool, DecodeError>) {
        proof {
            crate::varint::lemma_decode_bound(old(from)@, 256);
        }
        match from_varint::<u8>(from) {
            Ok(v) => Ok(v != 0),
            Err(e) => Err(e),
        }
    }
}

/// Reading back a written flag gives the flag: `true` whatever follows it,
/// `false` (written as zero) where nothing follows it.
pub proof fn lemma_bool_roundtrip(b: bool, rest: Seq<u8>)
    requires
        b || rest.len() == 0,
    ensures
        <bool as DeserializeFromMinimal>::deserialized(bool_bytes(b) + rest, ()) == (
            Ok::<bool, DecodeError>(b),
            bool_bytes(b).len(),
        ),
{
    let v: u8 = if b { 1 } else { 0 };
    lemma_to_from_varint(v, rest);
}

impl SerializeMinimal for () {
    type ExternalData = ();

    open spec fn serializable(&self, external_data: ()) -> bool {
        true
    }

    open spec fn serialized(&self, external_data: ()) -> Seq<u8> {
        Seq::empty()
    }

    fn minimally_serialize(&self, write_to: &mut Vec<u8>, external_data: ()) {
        assert(write_to@ =~= write_to@ + Seq::<u8>::empty());
    }
}

impl DeserializeFromMinimal for () {
    type ExternalData = ();

    open spec fn deserializable(bytes: Seq<u8>, external_data: ()) -> bool {
        true
    }

    open spec fn deserialized(bytes: Seq<u8>, external_data: ()) -> (Result<(), DecodeError>, nat) {
        (Ok(()), 0)
    }

    fn deserialize_minimal(from: &mut &[u8], external_data: ()) -> (r: Result<(), DecodeError>) {
        assert(from@.skip(0) =~= from@);
        Ok(())
    }
}

} // verus!
