use vstd::prelude::*;

use crate::compressor::literals::literal_value::{serializable, LiteralValue};
use crate::compressor::literals::{value_insert, LiteralPool, PoolModel};
use crate::serialize_min::DecodeError;
use crate::varint::{varint_decode, FromVarint, ToVarint};

pub mod address;
pub mod public_transit;
pub mod shop_amenity;

verus! {

/// Whether an optional value can be written.
pub open spec fn opt_serializable(o: Option<LiteralValue>) -> bool {
    o matches Some(v) ==> serializable(v@)
}

/// One optional field of a structured literal: a present value is stored,
/// its id appended, and bit `bit` of the header byte set; an absent one
/// changes nothing.
pub open spec fn field_step(st: (PoolModel, Seq<u8>, u8), o: Option<LiteralValue>, bit: u8) -> (
    PoolModel,
    Seq<u8>,
    u8,
) {
    match o {
        Some(v) => {
            let (m, id) = value_insert(st.0, v@);
            (m, st.1 + id, st.2 | (1u8 << bit))
        },
        None => st,
    }
}

/// Stores `value` if present, appends its id to `extra_storage` and sets
/// bit `byte_index` of `byte`.
pub fn insert_with_byte(
    value: &Option<LiteralValue>,
    pool: &mut LiteralPool<LiteralValue>,
    extra_storage: &mut Vec<u8>,
    byte: &mut u8,
    byte_index: u8,
)
    requires
        byte_index < 8,
        opt_serializable(*value),
        old(pool).wf(),
        old(pool).model().value_count < usize::MAX,
    ensures
        final(pool).wf(),
        (final(pool).model(), final(extra_storage)@, *final(byte)) == field_step(
            (old(pool).model(), old(extra_storage)@, *old(byte)),
            *value,
            byte_index,
        ),
        final(pool).model().value_count <= old(pool).model().value_count + 1,
        final(extra_storage)@.len() >= old(extra_storage)@.len(),
{
    match value {
        Some(t) => {
            *byte = *byte | (1u8 << byte_index);
            let id = pool.insert(t);
            id.write_varint(extra_storage);
        },
        None => {},
    }
}

/// Reads the id of a field whose bit `byte_index` of `byte` is set; `None`
/// when the bit is clear, and nothing is read then.
pub fn read_if_bit_set(from: &mut &[u8], byte: &u8, byte_index: u8) -> (r: Result<
    Option<u64>,
    DecodeError,
>)
    requires
        byte_index < 8,
    ensures
        *byte & (1u8 << byte_index) == 0 ==> r == Ok::<Option<u64>, DecodeError>(None) && final(from)@
            == old(from)@,
        *byte & (1u8 << byte_index) != 0 ==> match varint_decode(
            old(from)@,
            <u64 as FromVarint>::varint_modulus(),
        ) {
            Some((u, n)) => r == Ok::<Option<u64>, DecodeError>(Some(u as u64)) && final(from)@
                == old(from)@.skip(n as int),
            None => r == Err::<Option<u64>, DecodeError>(DecodeError::UnexpectedEof)
                && final(from)@ == Seq::<u8>::empty(),
        },
{
    let bit = *byte & (1u8 << byte_index) != 0;
    if !bit {
        return Ok(None);
    }
    match u64::from_varint(from) {
        Ok(v) => Ok(Some(v)),
        Err(e) => Err(e),
    }
}

} // verus!
