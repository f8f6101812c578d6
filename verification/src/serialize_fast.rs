use vstd::prelude::*;

use crate::serialize_min::{read_exact, DecodeError, DeserializeFromMinimal, SerializeMinimal};

verus! {

/// The number of values that `n` bytes can hold.
pub open spec fn byte_limit(n: nat) -> nat
    decreases n,
{
    if n == 0 {
        1
    } else {
        256 * byte_limit((n - 1) as nat)
    }
}

/// The `n` bytes of `v`, most significant first, dropping what does not fit.
pub open spec fn be_bytes(v: nat, n: nat) -> Seq<u8>
    decreases n,
{
    if n == 0 {
        Seq::empty()
    } else {
        be_bytes(v / 256, (n - 1) as nat).push((v % 256) as u8)
    }
}

/// The number that big-endian bytes stand for.
pub open spec fn be_value(bytes: Seq<u8>) -> nat
    decreases bytes.len(),
{
    if bytes.len() == 0 {
        0
    } else {
        be_value(bytes.drop_last()) * 256 + bytes.last() as nat
    }
}

/// The number that a signed value is stored as in `n` bytes: itself when
/// non-negative, else itself plus the number of values the bytes can hold.
pub open spec fn twos_complement(x: int, n: nat) -> nat {
    if x >= 0 {
        x as nat
    } else {
        (x + byte_limit(n)) as nat
    }
}

pub proof fn lemma_be_bytes_len(v: nat, n: nat)
    ensures
        be_bytes(v, n).len() == n,
    decreases n,
{
    if n > 0 {
        lemma_be_bytes_len(v / 256, (n - 1) as nat);
    }
}

/// The bytes of a value that fits read back as the value.
pub proof fn lemma_be_roundtrip(v: nat, n: nat)
    requires
        v < byte_limit(n),
    ensures
        be_bytes(v, n).len() == n,
        be_value(be_bytes(v, n)) == v,
    decreases n,
{
    lemma_be_bytes_len(v, n);
    if n > 0 {
        assert(v / 256 < byte_limit((n - 1) as nat));
        lemma_be_roundtrip(v / 256, (n - 1) as nat);
        assert(be_bytes(v, n).drop_last() =~= be_bytes(v / 256, (n - 1) as nat));
    }
}

pub proof fn lemma_be_value_bound(bytes: Seq<u8>)
    ensures
        be_value(bytes) < byte_limit(bytes.len()),
    decreases bytes.len(),
{
    if bytes.len() > 0 {
        lemma_be_value_bound(bytes.drop_last());
    }
}

/// Appends the `n` low bytes of `v`, most significant first.
pub fn write_be(v: u64, n: usize, out: &mut Vec<u8>)
    requires
        n <= 8,
    ensures
        final(out)@ == old(out)@ + be_bytes(v as nat, n as nat),
    decreases n,
{
    if n == 0 {
        assert(out@ =~= out@ + Seq::<u8>::empty());
        return;
    }
    write_be(v / 256, n - 1, out);
    out.push((v % 256) as u8);
    assert(out@ =~= old(out)@ + be_bytes(v as nat, n as nat));
}

/// What reading `n` big-endian bytes from the front of `bytes` gives.
pub open spec fn be_read(bytes: Seq<u8>, n: nat) -> (Result<nat, DecodeError>, nat) {
    if bytes.len() < n {
        (Err(DecodeError::UnexpectedEof), bytes.len())
    } else {
        (Ok(be_value(bytes.take(n as int))), n)
    }
}

/// Reads `n` big-endian bytes from the front of `from` as a number.
pub fn read_be(from: &mut &[u8], n: usize) -> (r: Result<u64, DecodeError>)
    requires
        n <= 8,
    ensures
        match be_read(old(from)@, n as nat).0 {
            Ok(v) => r == Ok::<u64, DecodeError>(v as u64) && v < byte_limit(n as nat),
            Err(e) => r == Err::<u64, DecodeError>(e),
        },
        be_read(old(from)@, n as nat).1 <= old(from)@.len(),
        final(from)@ == old(from)@.skip(be_read(old(from)@, n as nat).1 as int),
{
    let bytes = match read_exact(from, n) {
        Ok(b) => b,
        Err(e) => {
            assert(old(from)@.skip(old(from)@.len() as int) =~= Seq::<u8>::empty());
            return Err(e);
        },
    };
    let mut acc: u64 = 0;
    let mut i: usize = 0;
    assert(byte_limit(8) == 0x1_0000_0000_0000_0000) by {
        reveal_with_fuel(byte_limit, 9);
    }
    while i < n
        invariant
            n <= 8,
            bytes@.len() == n,
            i <= n,
            acc == be_value(bytes@.take(i as int)),
            acc < byte_limit(i as nat),
            byte_limit(8) == 0x1_0000_0000_0000_0000,
        decreases n - i,
    {
        proof {
            assert(bytes@.take(i + 1).drop_last() =~= bytes@.take(i as int));
            lemma_limit_mono(i as nat + 1, 8);
        }
        acc = acc * 256 + bytes[i] as u64;
        i = i + 1;
    }
    assert(bytes@.take(n as int) =~= bytes@);
    Ok(acc)
}

proof fn lemma_limit_mono(a: nat, b: nat)
    requires
        a <= b,
    ensures
        byte_limit(a) <= byte_limit(b),
    decreases b,
{
    if a < b {
        lemma_limit_mono(a, (b - 1) as nat);
    }
}

/// Values with a fixed-size encoding that is quicker to write and read than
/// the minimal one.
pub trait MinimalSerdeFast: SerializeMinimal + DeserializeFromMinimal {
    /// The bytes that the value is written as.
    spec fn fast_serialized(&self) -> Seq<u8>;

    /// What reading from `bytes` gives, and how many bytes it takes.
    spec fn fast_deserialized(bytes: Seq<u8>) -> (Result<Self, DecodeError>, nat);

    fn fast_minimally_serialize(
        &self,
        write_to: &mut Vec<u8>,
        external_data: <Self as SerializeMinimal>::ExternalData,
    )
        ensures
            final(write_to)@ == old(write_to)@ + self.fast_serialized(),
    ;

    fn fast_deserialize_minimal(
        from: &mut &[u8],
        external_data: <Self as DeserializeFromMinimal>::ExternalData,
    ) -> (r: Result<Self, DecodeError>)
        ensures
            r == Self::fast_deserialized(old(from)@).0,
            Self::fast_deserialized(old(from)@).1 <= old(from)@.len(),
            final(from)@ == old(from)@.skip(Self::fast_deserialized(old(from)@).1 as int),
    ;

    /// Reading back what a value was written as gives the value, and takes
    /// exactly the bytes it was written as, whatever follows.
    proof fn lemma_fast_roundtrip(x: Self, rest: Seq<u8>)
        ensures
            Self::fast_deserialized(x.fast_serialized() + rest) == (
                Ok::<Self, DecodeError>(x),
                x.fast_serialized().len(),
            ),
    ;
}

/// A value that is written and read with its fixed-size encoding.
#[derive(Copy, Clone, Debug)]
pub struct FastMinSerde<T: MinimalSerdeFast>(pub T);

impl<T: MinimalSerdeFast> SerializeMinimal for FastMinSerde<T> {
    type ExternalData = <T as SerializeMinimal>::ExternalData;

    open spec fn serializable(&self, external_data: Self::ExternalData) -> bool {
        true
    }

    open spec fn serialized(&self, external_data: Self::ExternalData) -> Seq<u8> {
        self.0.fast_serialized()
    }

    fn minimally_serialize(&self, write_to: &mut Vec<u8>, external_data: Self::ExternalData) {
        self.0.fast_minimally_serialize(write_to, external_data)
    }
}

impl<T: MinimalSerdeFast> DeserializeFromMinimal for FastMinSerde<T> {
    type ExternalData = <T as DeserializeFromMinimal>::ExternalData;

    open spec fn deserializable(bytes: Seq<u8>, external_data: Self::ExternalData) -> bool {
        true
    }

    open spec fn deserialized(bytes: Seq<u8>, external_data: Self::ExternalData) -> (
        Result<Self, DecodeError>,
        nat,
    ) {
        match T::fast_deserialized(bytes) {
            (Ok(v), n) => (Ok(FastMinSerde(v)), n),
            (Err(e), n) => (Err(e), n),
        }
    }

    fn deserialize_minimal(from: &mut &[u8], external_data: Self::ExternalData) -> (r: Result<
        Self,
        DecodeError,
    >) {
        match T::fast_deserialize_minimal(from, external_data) {
            Ok(v) => Ok(FastMinSerde(v)),
            Err(e) => Err(e),
        }
    }
}

impl<T: MinimalSerdeFast> From<T> for FastMinSerde<T> {
    fn from(value: T) -> (r: Self) {
        FastMinSerde(value)
    }
}

impl<T: MinimalSerdeFast> vstd::std_specs::convert::FromSpecImpl<T> for FastMinSerde<T> {
    open spec fn obeys_from_spec() -> bool {
        true
    }

    open spec fn from_spec(v: T) -> Self {
        FastMinSerde(v)
    }
}

/// What reading an `n`-byte unsigned value gives, as the number it stands for.
pub open spec fn fast_read_unsigned(bytes: Seq<u8>, n: nat) -> (Result<nat, DecodeError>, nat) {
    be_read(bytes, n)
}

/// The value that `n` stored bytes hold as a signed number.
pub open spec fn from_twos_complement(u: nat, n: nat) -> int {
    if u * 2 >= byte_limit(n) {
        u - byte_limit(n)
    } else {
        u as int
    }
}

impl MinimalSerdeFast for u8 {
    open spec fn fast_serialized(&self) -> Seq<u8> {
        be_bytes(*self as nat, 1)
    }

    open spec fn fast_deserialized(bytes: Seq<u8>) -> (Result<u8, DecodeError>, nat) {
        match be_read(bytes, 1) {
            (Ok(v), k) => (Ok(v as u8), k),
            (Err(e), k) => (Err(e), k),
        }
    }

    fn fast_minimally_serialize(&self, write_to: &mut Vec<u8>, external_data: ()) {
        write_be(*self as u64, 1, write_to);
    }

    fn fast_deserialize_minimal(from: &mut &[u8], external_data: ()) -> (r: Result<u8, DecodeError>) {
        assert(byte_limit(1) == u8::MAX as nat + 1) by {
            reveal_with_fuel(byte_limit, 2);
        }
        match read_be(from, 1) {
            Ok(v) => Ok(v as u8),
            Err(e) => Err(e),
        }
    }

    proof fn lemma_fast_roundtrip(x: u8, rest: Seq<u8>) {
        assert(byte_limit(1) == u8::MAX as nat + 1) by {
            reveal_with_fuel(byte_limit, 2);
        }
        lemma_be_roundtrip(x as nat, 1);
        let e = be_bytes(x as nat, 1);
        assert((e + rest).take(1) =~= e);
    }
}

impl MinimalSerdeFast for u16 {
    open spec fn fast_serialized(&self) -> Seq<u8> {
        be_bytes(*self as nat, 2)
    }

    open spec fn fast_deserialized(bytes: Seq<u8>) -> (Result<u16, DecodeError>, nat) {
        match be_read(bytes, 2) {
            (Ok(v), k) => (Ok(v as u16), k),
            (Err(e), k) => (Err(e), k),
        }
    }

    fn fast_minimally_serialize(&self, write_to: &mut Vec<u8>, external_data: ()) {
        write_be(*self as u64, 2, write_to);
    }

    fn fast_deserialize_minimal(from: &mut &[u8], external_data: ()) -> (r: Result<u16, DecodeError>) {
        assert(byte_limit(2) == u16::MAX as nat + 1) by {
            reveal_with_fuel(byte_limit, 3);
        }
        match read_be(from, 2) {
            Ok(v) => Ok(v as u16),
            Err(e) => Err(e),
        }
    }

    proof fn lemma_fast_roundtrip(x: u16, rest: Seq<u8>) {
        assert(byte_limit(2) == u16::MAX as nat + 1) by {
            reveal_with_fuel(byte_limit, 3);
        }
        lemma_be_roundtrip(x as nat, 2);
        let e = be_bytes(x as nat, 2);
        assert((e + rest).take(2) =~= e);
    }
}

impl MinimalSerdeFast for u32 {
    open spec fn fast_serialized(&self) -> Seq<u8> {
        be_bytes(*self as nat, 4)
    }

    open spec fn fast_deserialized(bytes: Seq<u8>) -> (Result<u32, DecodeError>, nat) {
        match be_read(bytes, 4) {
            (Ok(v), k) => (Ok(v as u32), k),
            (Err(e), k) => (Err(e), k),
        }
    }

    fn fast_minimally_serialize(&self, write_to: &mut Vec<u8>, external_data: ()) {
        write_be(*self as u64, 4, write_to);
    }

    fn fast_deserialize_minimal(from: &mut &[u8], external_data: ()) -> (r: Result<u32, DecodeError>) {
        assert(byte_limit(4) == u32::MAX as nat + 1) by {
            reveal_with_fuel(byte_limit, 5);
        }
        match read_be(from, 4) {
            Ok(v) => Ok(v as u32),
            Err(e) => Err(e),
        }
    }

    proof fn lemma_fast_roundtrip(x: u32, rest: Seq<u8>) {
        assert(byte_limit(4) == u32::MAX as nat + 1) by {
            reveal_with_fuel(byte_limit, 5);
        }
        lemma_be_roundtrip(x as nat, 4);
        let e = be_bytes(x as nat, 4);
        assert((e + rest).take(4) =~= e);
    }
}

impl MinimalSerdeFast for u64 {
    open spec fn fast_serialized(&self) -> Seq<u8> {
        be_bytes(*self as nat, 8)
    }

    open spec fn fast_deserialized(bytes: Seq<u8>) -> (Result<u64, DecodeError>, nat) {
        match be_read(bytes, 8) {
            (Ok(v), k) => (Ok(v as u64), k),
            (Err(e), k) => (Err(e), k),
        }
    }

    fn fast_minimally_serialize(&self, write_to: &mut Vec<u8>, external_data: ()) {
        write_be(*self as u64, 8, write_to);
    }

    fn fast_deserialize_minimal(from: &mut &[u8], external_data: ()) -> (r: Result<u64, DecodeError>) {
        let ghost b = from@;
        let r = read_be(from, 8);
        assert(<u64 as MinimalSerdeFast>::fast_deserialized(b).1 == be_read(b, 8).1);
        r
    }

    proof fn lemma_fast_roundtrip(x: u64, rest: Seq<u8>) {
        assert(byte_limit(8) == u64::MAX as nat + 1) by {
            reveal_with_fuel(byte_limit, 9);
        }
        lemma_be_roundtrip(x as nat, 8);
        let e = be_bytes(x as nat, 8);
        assert((e + rest).take(8) =~= e);
    }
}

impl MinimalSerdeFast for i8 {
    open spec fn fast_serialized(&self) -> Seq<u8> {
        be_bytes(twos_complement(*self as int, 1), 1)
    }

    open spec fn fast_deserialized(bytes: Seq<u8>) -> (Result<i8, DecodeError>, nat) {
        match be_read(bytes, 1) {
            (Ok(v), k) => (Ok(from_twos_complement(v, 1) as i8), k),
            (Err(e), k) => (Err(e), k),
        }
    }

    fn fast_minimally_serialize(&self, write_to: &mut Vec<u8>, external_data: ()) {
        assert(byte_limit(1) == 256) by {
            reveal_with_fuel(byte_limit, 2);
        }
        let u: u64 = if *self >= 0 {
            *self as u64
        } else {
            (*self as i128 + 256i128) as u64
        };
        write_be(u, 1, write_to);
    }

    fn fast_deserialize_minimal(from: &mut &[u8], external_data: ()) -> (r: Result<i8, DecodeError>) {
        assert(byte_limit(1) == 256) by {
            reveal_with_fuel(byte_limit, 2);
        }
        match read_be(from, 1) {
            Ok(v) => {
                let w: i128 = if v as i128 * 2 >= 256i128 {
                    v as i128 - 256i128
                } else {
                    v as i128
                };
                Ok(w as i8)
            },
            Err(e) => Err(e),
        }
    }

    proof fn lemma_fast_roundtrip(x: i8, rest: Seq<u8>) {
        assert(byte_limit(1) == 256) by {
            reveal_with_fuel(byte_limit, 2);
        }
        lemma_be_roundtrip(twos_complement(x as int, 1), 1);
        let e = be_bytes(twos_complement(x as int, 1), 1);
        assert((e + rest).take(1) =~= e);
    }
}

impl MinimalSerdeFast for i16 {
    open spec fn fast_serialized(&self) -> Seq<u8> {
        be_bytes(twos_complement(*self as int, 2), 2)
    }

    open spec fn fast_deserialized(bytes: Seq<u8>) -> (Result<i16, DecodeError>, nat) {
        match be_read(bytes, 2) {
            (Ok(v), k) => (Ok(from_twos_complement(v, 2) as i16), k),
            (Err(e), k) => (Err(e), k),
        }
    }

    fn fast_minimally_serialize(&self, write_to: &mut Vec<u8>, external_data: ()) {
        assert(byte_limit(2) == 65536) by {
            reveal_with_fuel(byte_limit, 3);
        }
        let u: u64 = if *self >= 0 {
            *self as u64
        } else {
            (*self as i128 + 65536i128) as u64
        };
        write_be(u, 2, write_to);
    }

    fn fast_deserialize_minimal(from: &mut &[u8], external_data: ()) -> (r: Result<i16, DecodeError>) {
        assert(byte_limit(2) == 65536) by {
            reveal_with_fuel(byte_limit, 3);
        }
        match read_be(from, 2) {
            Ok(v) => {
                let w: i128 = if v as i128 * 2 >= 65536i128 {
                    v as i128 - 65536i128
                } else {
                    v as i128
                };
                Ok(w as i16)
            },
            Err(e) => Err(e),
        }
    }

    proof fn lemma_fast_roundtrip(x: i16, rest: Seq<u8>) {
        assert(byte_limit(2) == 65536) by {
            reveal_with_fuel(byte_limit, 3);
        }
        lemma_be_roundtrip(twos_complement(x as int, 2), 2);
        let e = be_bytes(twos_complement(x as int, 2), 2);
        assert((e + rest).take(2) =~= e);
    }
}

impl MinimalSerdeFast for i32 {
    open spec fn fast_serialized(&self) -> Seq<u8> {
        be_bytes(twos_complement(*self as int, 4), 4)
    }

    open spec fn fast_deserialized(bytes: Seq<u8>) -> (Result<i32, DecodeError>, nat) {
        match be_read(bytes, 4) {
            (Ok(v), k) => (Ok(from_twos_complement(v, 4) as i32), k),
            (Err(e), k) => (Err(e), k),
        }
    }

    fn fast_minimally_serialize(&self, write_to: &mut Vec<u8>, external_data: ()) {
        assert(byte_limit(4) == 4294967296) by {
            reveal_with_fuel(byte_limit, 5);
        }
        let u: u64 = if *self >= 0 {
            *self as u64
        } else {
            (*self as i128 + 4294967296i128) as u64
        };
        write_be(u, 4, write_to);
    }

    fn fast_deserialize_minimal(from: &mut &[u8], external_data: ()) -> (r: Result<i32, DecodeError>) {
        assert(byte_limit(4) == 4294967296) by {
            reveal_with_fuel(byte_limit, 5);
        }
        match read_be(from, 4) {
            Ok(v) => {
                let w: i128 = if v as i128 * 2 >= 4294967296i128 {
                    v as i128 - 4294967296i128
                } else {
                    v as i128
                };
                Ok(w as i32)
            },
            Err(e) => Err(e),
        }
    }

    proof fn lemma_fast_roundtrip(x: i32, rest: Seq<u8>) {
        assert(byte_limit(4) == 4294967296) by {
            reveal_with_fuel(byte_limit, 5);
        }
        lemma_be_roundtrip(twos_complement(x as int, 4), 4);
        let e = be_bytes(twos_complement(x as int, 4), 4);
        assert((e + rest).take(4) =~= e);
    }
}

impl MinimalSerdeFast for i64 {
    open spec fn fast_serialized(&self) -> Seq<u8> {
        be_bytes(twos_complement(*self as int, 8), 8)
    }

    open spec fn fast_deserialized(bytes: Seq<u8>) -> (Result<i64, DecodeError>, nat) {
        match be_read(bytes, 8) {
            (Ok(v), k) => (Ok(from_twos_complement(v, 8) as i64), k),
            (Err(e), k) => (Err(e), k),
        }
    }

    fn fast_minimally_serialize(&self, write_to: &mut Vec<u8>, external_data: ()) {
        assert(byte_limit(8) == 18446744073709551616) by {
            reveal_with_fuel(byte_limit, 9);
        }
        let u: u64 = if *self >= 0 {
            *self as u64
        } else {
            (*self as i128 + 18446744073709551616i128) as u64
        };
        write_be(u, 8, write_to);
    }

    fn fast_deserialize_minimal(from: &mut &[u8], external_data: ()) -> (r: Result<i64, DecodeError>) {
        assert(byte_limit(8) == 18446744073709551616) by {
            reveal_with_fuel(byte_limit, 9);
        }
        match read_be(from, 8) {
            Ok(v) => {
                let w: i128 = if v as i128 * 2 >= 18446744073709551616i128 {
                    v as i128 - 18446744073709551616i128
                } else {
                    v as i128
                };
                Ok(w as i64)
            },
            Err(e) => Err(e),
        }
    }

    proof fn lemma_fast_roundtrip(x: i64, rest: Seq<u8>) {
        assert(byte_limit(8) == 18446744073709551616) by {
            reveal_with_fuel(byte_limit, 9);
        }
        lemma_be_roundtrip(twos_complement(x as int, 8), 8);
        let e = be_bytes(twos_complement(x as int, 8), 8);
        assert((e + rest).take(8) =~= e);
    }
}

} // verus!
