use vstd::prelude::*;

use crate::serialize_min::{DecodeError, ReadExtReadOne};

verus! {

/// One byte of an encoding: the seven low bits of `v`, with the flag bit `0x80`
/// set when another byte follows.
pub open spec fn group_byte(v: nat, more: bool) -> u8 {
    if more {
        ((v % 128) + 128) as u8
    } else {
        (v % 128) as u8
    }
}

/// The base-128 groups of `v`, most significant first. Every byte but the last
/// carries the flag bit; the last one carries it too unless `last` holds.
pub open spec fn groups(v: nat, last: bool) -> Seq<u8>
    decreases v,
{
    if v < 128 {
        seq![group_byte(v, !last)]
    } else {
        groups(v / 128, false).push(group_byte(v, !last))
    }
}

/// The most significant base-128 group of `v`.
pub open spec fn top_group(v: nat) -> nat
    decreases v,
{
    if v < 128 {
        v
    } else {
        top_group(v / 128)
    }
}

/// The variable-length encoding of an unsigned value: zero is the single byte
/// `0x80`; any other value is its base-128 groups from the group that holds
/// bit `7 * k` on, `7 * k` being its bit length rounded down to a multiple of
/// seven. So a value whose bit length is a multiple of seven starts with an
/// empty group, `0x80`.
pub open spec fn varint_encoding(v: nat) -> Seq<u8> {
    if v == 0 {
        seq![0x80u8]
    } else if top_group(v) >= 64 {
        seq![0x80u8] + groups(v, true)
    } else {
        groups(v, true)
    }
}

/// Moves the byte count of a decoding result on by `k`.
pub open spec fn offset(r: Option<(nat, nat)>, k: nat) -> Option<(nat, nat)> {
    match r {
        Some((v, n)) => Some((v, n + k)),
        None => None,
    }
}

/// Reads groups from the front of `bytes` into `acc`, keeping the value below
/// `modulus`, until a byte without the flag bit ends the value. `None` when the
/// bytes run out first.
pub open spec fn decode_groups(bytes: Seq<u8>, acc: nat, modulus: nat) -> Option<(nat, nat)>
    decreases bytes.len(),
{
    if bytes.len() == 0 {
        None
    } else {
        let b = bytes[0];
        let a = (acc * 128 + (b % 128) as nat) % modulus;
        if b < 128 {
            Some((a, 1nat))
        } else {
            offset(decode_groups(bytes.drop_first(), a, modulus), 1)
        }
    }
}

/// What decoding reads from the front of `bytes` for an integer type with
/// `modulus` values: the value and the number of bytes it took, or `None` when
/// the input ends before the value does. A lone `0x80` that ends the input is
/// zero.
pub open spec fn varint_decode(bytes: Seq<u8>, modulus: nat) -> Option<(nat, nat)> {
    if bytes.len() == 1 && bytes[0] == 0x80u8 {
        Some((0nat, 1nat))
    } else {
        decode_groups(bytes, 0, modulus)
    }
}

proof fn lemma_decode_groups_bound(bytes: Seq<u8>, acc: nat, modulus: nat)
    requires
        modulus > 0,
    ensures
        decode_groups(bytes, acc, modulus) matches Some((v, n)) ==> 1 <= n <= bytes.len(),
    decreases bytes.len(),
{
    if bytes.len() > 0 {
        let b = bytes[0];
        let a = (acc * 128 + (b % 128) as nat) % modulus;
        lemma_decode_groups_bound(bytes.drop_first(), a, modulus);
        if b >= 128 {
            match decode_groups(bytes.drop_first(), a, modulus) {
                Some((v, n)) => {
                    assert(decode_groups(bytes, acc, modulus) == Some((v, n + 1)));
                },
                None => {
                    assert(decode_groups(bytes, acc, modulus) is None);
                },
            }
        }
    }
}

/// A decoded value takes at least one byte and no more than there are.
pub proof fn lemma_decode_bound(bytes: Seq<u8>, modulus: nat)
    requires
        modulus > 0,
    ensures
        varint_decode(bytes, modulus) matches Some((v, n)) ==> 1 <= n <= bytes.len(),
{
    lemma_decode_groups_bound(bytes, 0, modulus);
}

proof fn lemma_decode_groups_value(bytes: Seq<u8>, acc: nat, modulus: nat)
    requires
        modulus > 0,
    ensures
        decode_groups(bytes, acc, modulus) matches Some((v, n)) ==> v < modulus,
    decreases bytes.len(),
{
    if bytes.len() > 0 {
        let b = bytes[0];
        let a = (acc * 128 + (b % 128) as nat) % modulus;
        lemma_decode_groups_value(bytes.drop_first(), a, modulus);
    }
}

/// A decoded value is below the modulus.
pub proof fn lemma_decode_value_bound(bytes: Seq<u8>, modulus: nat)
    requires
        modulus > 0,
    ensures
        varint_decode(bytes, modulus) matches Some((v, n)) ==> v < modulus,
{
    lemma_decode_groups_value(bytes, 0, modulus);
}

proof fn lemma_mod_step(x: nat, r: nat, m: nat)
    requires
        m > 0,
    ensures
        ((x % m) * 128 + r) % m == (x * 128 + r) % m,
{
    vstd::arithmetic::div_mod::lemma_mul_mod_noop_left(x as int, 128, m as int);
    vstd::arithmetic::div_mod::lemma_add_mod_noop(((x % m) * 128) as int, r as int, m as int);
    vstd::arithmetic::div_mod::lemma_add_mod_noop((x * 128) as int, r as int, m as int);
}

proof fn lemma_groups_len(v: nat, last: bool)
    ensures
        groups(v, last).len() >= 1,
    decreases v,
{
    if v >= 128 {
        lemma_groups_len(v / 128, false);
    }
}

proof fn lemma_first_byte(v: nat)
    requires
        v > 0,
    ensures
        groups(v, true)[0] != 0x80u8,
    decreases v,
{
    if v >= 128 {
        lemma_first_nonzero(v / 128);
        assert(groups(v, true)[0] == groups(v / 128, false)[0]);
    }
}

proof fn lemma_first_nonzero(q: nat)
    requires
        q > 0,
    ensures
        groups(q, false)[0] != 0x80u8,
    decreases q,
{
    if q >= 128 {
        lemma_first_nonzero(q / 128);
        assert(groups(q, false)[0] == groups(q / 128, false)[0]);
    }
}

proof fn lemma_decode_continued(q: nat, tail: Seq<u8>, m: nat)
    requires
        m > 0,
    ensures
        decode_groups(groups(q, false) + tail, 0, m) == offset(
            decode_groups(tail, q % m, m),
            groups(q, false).len(),
        ),
    decreases q,
{
    let b = group_byte(q, true);
    if q < 128 {
        let s = groups(q, false) + tail;
        assert(s[0] == b);
        assert(s.drop_first() =~= tail);
        assert((0 * 128 + (b % 128) as nat) % m == q % m);
    } else {
        let head = groups(q / 128, false);
        let t2 = seq![b] + tail;
        assert(groups(q, false) + tail =~= head + t2);
        lemma_decode_continued(q / 128, t2, m);
        assert(t2[0] == b);
        assert(t2.drop_first() =~= tail);
        lemma_mod_step(q / 128, q % 128, m);
        assert((q / 128) * 128 + q % 128 == q);
        match decode_groups(tail, q % m, m) {
            Some((v, n)) => {},
            None => {},
        }
    }
}

proof fn lemma_decode_groups_last(v: nat, tail: Seq<u8>, m: nat)
    requires
        m > 0,
    ensures
        decode_groups(groups(v, true) + tail, 0, m) == Some((v % m, groups(v, true).len())),
    decreases v,
{
    let b = group_byte(v, false);
    if v < 128 {
        let s = groups(v, true) + tail;
        assert(s[0] == b);
    } else {
        let head = groups(v / 128, false);
        let t2 = seq![b] + tail;
        assert(groups(v, true) + tail =~= head + t2);
        lemma_decode_continued(v / 128, t2, m);
        assert(t2[0] == b);
        lemma_mod_step(v / 128, v % 128, m);
        assert((v / 128) * 128 + v % 128 == v);
    }
}

/// Decoding gives back what encoding wrote: for every value below the modulus of
/// the integer type, whatever bytes follow the encoding; zero, whose encoding
/// is the byte `0x80` alone, where nothing follows it.
pub proof fn lemma_varint_roundtrip(v: nat, rest: Seq<u8>, modulus: nat)
    requires
        v < modulus,
        v > 0 || rest.len() == 0,
    ensures
        varint_decode(varint_encoding(v) + rest, modulus) == Some((v, varint_encoding(v).len())),
{
    if v == 0 {
        assert(varint_encoding(v) + rest =~= seq![0x80u8]);
    } else {
        lemma_groups_len(v, true);
        lemma_first_byte(v);
        lemma_decode_groups_last(v, rest, modulus);
        vstd::arithmetic::div_mod::lemma_small_mod(v, modulus);
        if top_group(v) >= 64 {
            let e = varint_encoding(v) + rest;
            assert(e[0] == 0x80u8);
            assert(e.drop_first() =~= groups(v, true) + rest);
            assert((0x80u8 % 128) as nat == 0);
            vstd::arithmetic::div_mod::lemma_small_mod(0, modulus);
            assert(((0 * 128 + (0x80u8 % 128) as nat) % modulus) == 0);
            assert(e.len() > 1);
        } else {
            assert((varint_encoding(v) + rest)[0] == groups(v, true)[0]);
        }
    }
}

fn write_groups(v: u128, last: bool, out: &mut Vec<u8>)
    ensures
        final(out)@ == old(out)@ + groups(v as nat, last),
    decreases v,
{
    if v >= 128 {
        write_groups(v / 128, false, out);
    }
    let low = (v % 128) as u8;
    if last {
        out.push(low);
    } else {
        out.push(low + 128);
    }
}

/// Appends the encoding of `v` to `out`.
pub fn write_varint_u128(v: u128, out: &mut Vec<u8>)
    ensures
        final(out)@ == old(out)@ + varint_encoding(v as nat),
{
    if v == 0 {
        out.push(0x80);
    } else {
        let mut t = v;
        while t >= 128
            invariant
                top_group(t as nat) == top_group(v as nat),
            decreases t,
        {
            t = t / 128;
        }
        if t >= 64 {
            out.push(0x80);
        }
        let ghost mid = out@;
        write_groups(v, true, out);
        assert(t >= 64 ==> out@ =~= old(out)@ + (seq![0x80u8] + groups(v as nat, true)));
    }
}

proof fn lemma_step_value(acc: nat, lim: nat, r: nat)
    requires
        lim > 0,
        r < 128,
    ensures
        (acc % lim) * 128 + r == (acc * 128 + r) % (lim * 128),
        (acc % lim) * 128 + r < lim * 128,
{
    let q = acc / lim;
    let s = acc % lim;
    vstd::arithmetic::div_mod::lemma_fundamental_div_mod(acc as int, lim as int);
    assert(0 <= s < lim);
    assert(acc * 128 + r == q * (lim * 128) + (s * 128 + r)) by (nonlinear_arith)
        requires
            acc == lim * q + s,
    ;
    assert(s * 128 + r < lim * 128) by (nonlinear_arith)
        requires
            s < lim,
            r < 128,
    ;
    vstd::arithmetic::div_mod::lemma_fundamental_div_mod_converse_mod(
        (acc * 128 + r) as int,
        (lim * 128) as int,
        q as int,
        (s * 128 + r) as int,
    );
}

/// Reads one encoded value from the front of `bytes`, for an integer type with
/// `lim * 128` values; the result is the value and the number of bytes it took.
pub fn decode_varint_prefix(bytes: &[u8], lim: u128) -> (r: Result<(u128, usize), DecodeError>)
    requires
        lim >= 1,
        lim * 128 <= u128::MAX + 1,
    ensures
        match varint_decode(bytes@, (lim * 128) as nat) {
            Some((v, n)) => r == Ok::<(u128, usize), DecodeError>((v as u128, n as usize)) && v
                < lim * 128 && 1 <= n <= bytes@.len(),
            None => r == Err::<(u128, usize), DecodeError>(DecodeError::UnexpectedEof),
        },
{
    let ghost m: nat = (lim * 128) as nat;
    if bytes.len() == 1 && bytes[0] == 0x80 {
        return Ok((0, 1));
    }
    let mut i: usize = 0;
    let mut acc: u128 = 0;
    proof {
        assert(bytes@.subrange(0, bytes@.len() as int) =~= bytes@);
        match decode_groups(bytes@, 0, m) {
            Some((v, n)) => {},
            None => {},
        }
    }
    while i < bytes.len()
        invariant
            m == lim * 128,
            lim >= 1,
            m <= u128::MAX + 1,
            0 <= i <= bytes.len(),
            acc < m,
            !(bytes@.len() == 1 && bytes@[0] == 0x80u8),
            decode_groups(bytes@, 0, m) == offset(
                decode_groups(bytes@.subrange(i as int, bytes@.len() as int), acc as nat, m),
                i as nat,
            ),
            forall|j: int| 0 <= j < i ==> bytes@[j] >= 128,
        decreases bytes.len() - i,
    {
        let b = bytes[i];
        let low = b % 128;
        proof {
            lemma_step_value(acc as nat, lim as nat, low as nat);
        }
        let a: u128 = (acc % lim) * 128 + (low as u128);
        let ghost sub = bytes@.subrange(i as int, bytes@.len() as int);
        assert(sub[0] == b);
        assert(sub.drop_first() =~= bytes@.subrange(i + 1, bytes@.len() as int));
        if b < 128 {
            assert(varint_decode(bytes@, m) == Some((a as nat, (i + 1) as nat)));
            return Ok((a, i + 1));
        }
        acc = a;
        i = i + 1;
    }
    assert(bytes@.subrange(i as int, bytes@.len() as int) =~= Seq::<u8>::empty());
    Err(DecodeError::UnexpectedEof)
}

/// Reads one value from the front of `bytes` and moves `bytes` past it; at the
/// end of the input, every byte has been read.
pub fn read_varint_u128(bytes: &mut &[u8], lim: u128) -> (r: Result<u128, DecodeError>)
    requires
        lim >= 1,
        lim * 128 <= u128::MAX + 1,
    ensures
        match varint_decode(old(bytes)@, (lim * 128) as nat) {
            Some((v, n)) => r == Ok::<u128, DecodeError>(v as u128) && v < lim * 128
                && final(bytes)@ == old(bytes)@.skip(n as int),
            None => r == Err::<u128, DecodeError>(DecodeError::UnexpectedEof) && final(bytes)@
                == Seq::<u8>::empty(),
        },
{
    let cur: &[u8] = *bytes;
    let len = cur.len();
    match decode_varint_prefix(cur, lim) {
        Ok((v, n)) => {
            let (_, rest) = cur.split_at(n);
            assert(rest@ =~= cur@.skip(n as int));
            proof {
                let ghost d = varint_decode(cur@, (lim * 128) as nat);
                assert(d is Some);
                let (dv, dn) = d.unwrap();
                assert(dn <= cur@.len());
                assert(cur@.len() == len);
                assert(dn as usize == n);
                assert(dn == n as nat);
            }
            *bytes = rest;
            Ok(v)
        },
        Err(e) => {
            let (_, rest) = cur.split_at(cur.len());
            assert(rest@ =~= Seq::<u8>::empty());
            *bytes = rest;
            Err(e)
        },
    }
}


/// Integer types that write themselves as variable-length integers.
pub trait ToVarint {
    /// The unsigned number that the encoding of this value stands for.
    spec fn varint_value(&self) -> nat;

    /// Appends the encoding of this value to `to`.
    fn write_varint(&self, to: &mut Vec<u8>)
        ensures
            final(to)@ == old(to)@ + varint_encoding(self.varint_value()),
    ;

    /// The encoding of this value.
    fn to_varint(&self) -> (v: Vec<u8>)
        ensures
            v@ == varint_encoding(self.varint_value()),
    {
        let mut v = Vec::new();
        self.write_varint(&mut v);
        assert(v@ =~= varint_encoding(self.varint_value()));
        v
    }
}

/// Integer types that read themselves back from variable-length integers.
pub trait FromVarint: Sized {
    /// How many values the type has; decoded numbers wrap around at it.
    spec fn varint_modulus() -> nat;

    /// The value that a decoded number below the modulus stands for.
    spec fn from_varint_value(u: nat) -> Self;

    /// The type has at least one value.
    proof fn lemma_modulus_positive()
        ensures
            Self::varint_modulus() > 0,
    ;

    /// Reads one value from the front of `bytes` and moves `bytes` past it.
    fn from_varint(bytes: &mut &[u8]) -> (r: Result<Self, DecodeError>)
        ensures
            match varint_decode(old(bytes)@, Self::varint_modulus()) {
                Some((u, n)) => r == Ok::<Self, DecodeError>(Self::from_varint_value(u))
                    && final(bytes)@ == old(bytes)@.skip(n as int),
                None => r == Err::<Self, DecodeError>(DecodeError::UnexpectedEof) && final(bytes)@
                    == Seq::<u8>::empty(),
            },
    ;
}

/// Types whose encoding can be read back: the number a value stands for fits
/// below the modulus, and reading that number gives the value again.
pub trait VarintRoundtrip: ToVarint + FromVarint {
    proof fn lemma_value_inverse(x: Self)
        ensures
            x.varint_value() < Self::varint_modulus(),
            Self::from_varint_value(x.varint_value()) == x,
    ;
}

/// Reading back the encoding of `x` gives `x` and takes exactly the bytes of
/// the encoding: whatever bytes follow it, or, where `x` stands for zero,
/// where nothing follows it.
pub proof fn lemma_to_from_varint<T: VarintRoundtrip>(x: T, rest: Seq<u8>)
    requires
        x.varint_value() > 0 || rest.len() == 0,
    ensures
        varint_decode(varint_encoding(x.varint_value()) + rest, T::varint_modulus()) == Some(
            (x.varint_value(), varint_encoding(x.varint_value()).len()),
        ),
        T::from_varint_value(x.varint_value()) == x,
{
    T::lemma_value_inverse(x);
    lemma_varint_roundtrip(x.varint_value(), rest, T::varint_modulus());
}

/// The encoding of `value`.
pub fn to_varint<T: ToVarint>(value: T) -> (v: Vec<u8>)
    ensures
        v@ == varint_encoding(value.varint_value()),
{
    value.to_varint()
}

/// Reads one value of type `T` from the front of `bytes` and moves `bytes` past it.
pub fn from_varint<T: FromVarint>(bytes: &mut &[u8]) -> (r: Result<T, DecodeError>)
    ensures
        match varint_decode(old(bytes)@, T::varint_modulus()) {
            Some((u, n)) => r == Ok::<T, DecodeError>(T::from_varint_value(u)) && final(bytes)@
                == old(bytes)@.skip(n as int),
            None => r == Err::<T, DecodeError>(DecodeError::UnexpectedEof) && final(bytes)@
                == Seq::<u8>::empty(),
        },
{
    T::from_varint(bytes)
}

/// The number that a signed value of a type with `half * 2` values is written
/// as: twice a non-negative value, and one more than twice its distance from the
/// least value for a negative one.
pub open spec fn zigzag(x: int, half: nat) -> nat {
    if x >= 0 {
        (2 * x) as nat
    } else {
        (2 * (x + half) + 1) as nat
    }
}

/// The signed value that `zigzag` writes as `u`.
pub open spec fn unzigzag(u: nat, half: nat) -> int {
    if u % 2 == 0 {
        (u / 2) as int
    } else {
        u / 2 - half
    }
}

impl ToVarint for u8 {
    open spec fn varint_value(&self) -> nat {
        *self as nat
    }

    fn write_varint(&self, to: &mut Vec<u8>) {
        write_varint_u128(*self as u128, to);
    }
}

impl FromVarint for u8 {
    proof fn lemma_modulus_positive() {
        assert(<u8 as FromVarint>::varint_modulus() > 0);
    }

    open spec fn varint_modulus() -> nat {
        256
    }

    open spec fn from_varint_value(u: nat) -> u8 {
        u as u8
    }

    fn from_varint(bytes: &mut &[u8]) -> (r: Result<u8, DecodeError>) {
        match read_varint_u128(bytes, 2) {
            Ok(v) => Ok(v as u8),
            Err(e) => Err(e),
        }
    }
}

impl VarintRoundtrip for u8 {
    proof fn lemma_value_inverse(x: u8) {
    }
}

impl ToVarint for u16 {
    open spec fn varint_value(&self) -> nat {
        *self as nat
    }

    fn write_varint(&self, to: &mut Vec<u8>) {
        write_varint_u128(*self as u128, to);
    }
}

impl FromVarint for u16 {
    proof fn lemma_modulus_positive() {
        assert(<u16 as FromVarint>::varint_modulus() > 0);
    }

    open spec fn varint_modulus() -> nat {
        65536
    }

    open spec fn from_varint_value(u: nat) -> u16 {
        u as u16
    }

    fn from_varint(bytes: &mut &[u8]) -> (r: Result<u16, DecodeError>) {
        match read_varint_u128(bytes, 512) {
            Ok(v) => Ok(v as u16),
            Err(e) => Err(e),
        }
    }
}

impl VarintRoundtrip for u16 {
    proof fn lemma_value_inverse(x: u16) {
    }
}

impl ToVarint for u32 {
    open spec fn varint_value(&self) -> nat {
        *self as nat
    }

    fn write_varint(&self, to: &mut Vec<u8>) {
        write_varint_u128(*self as u128, to);
    }
}

impl FromVarint for u32 {
    proof fn lemma_modulus_positive() {
        assert(<u32 as FromVarint>::varint_modulus() > 0);
    }

    open spec fn varint_modulus() -> nat {
        0x1_0000_0000
    }

    open spec fn from_varint_value(u: nat) -> u32 {
        u as u32
    }

    fn from_varint(bytes: &mut &[u8]) -> (r: Result<u32, DecodeError>) {
        match read_varint_u128(bytes, 0x200_0000) {
            Ok(v) => Ok(v as u32),
            Err(e) => Err(e),
        }
    }
}

impl VarintRoundtrip for u32 {
    proof fn lemma_value_inverse(x: u32) {
    }
}

impl ToVarint for u64 {
    open spec fn varint_value(&self) -> nat {
        *self as nat
    }

    fn write_varint(&self, to: &mut Vec<u8>) {
        write_varint_u128(*self as u128, to);
    }
}

impl FromVarint for u64 {
    proof fn lemma_modulus_positive() {
        assert(<u64 as FromVarint>::varint_modulus() > 0);
    }

    open spec fn varint_modulus() -> nat {
        0x1_0000_0000_0000_0000
    }

    open spec fn from_varint_value(u: nat) -> u64 {
        u as u64
    }

    fn from_varint(bytes: &mut &[u8]) -> (r: Result<u64, DecodeError>) {
        match read_varint_u128(bytes, 0x200_0000_0000_0000) {
            Ok(v) => Ok(v as u64),
            Err(e) => Err(e),
        }
    }
}

impl VarintRoundtrip for u64 {
    proof fn lemma_value_inverse(x: u64) {
    }
}

impl ToVarint for u128 {
    open spec fn varint_value(&self) -> nat {
        *self as nat
    }

    fn write_varint(&self, to: &mut Vec<u8>) {
        write_varint_u128(*self as u128, to);
    }
}

impl FromVarint for u128 {
    proof fn lemma_modulus_positive() {
        assert(<u128 as FromVarint>::varint_modulus() > 0);
    }

    open spec fn varint_modulus() -> nat {
        (u128::MAX + 1) as nat
    }

    open spec fn from_varint_value(u: nat) -> u128 {
        u as u128
    }

    fn from_varint(bytes: &mut &[u8]) -> (r: Result<u128, DecodeError>) {
        match read_varint_u128(bytes, 0x200_0000_0000_0000_0000_0000_0000_0000) {
            Ok(v) => Ok(v as u128),
            Err(e) => Err(e),
        }
    }
}

impl VarintRoundtrip for u128 {
    proof fn lemma_value_inverse(x: u128) {
    }
}

/// Two to the power of the bits of `usize`: how many values a `usize` has.
pub open spec fn usize_modulus() -> nat {
    (usize::MAX + 1) as nat
}

fn usize_lim() -> (lim: u128)
    ensures
        lim >= 1,
        lim * 128 == usize_modulus(),
{
    if usize::MAX as u128 == 0xffff_ffff {
        0x200_0000
    } else {
        0x200_0000_0000_0000
    }
}

impl ToVarint for usize {
    open spec fn varint_value(&self) -> nat {
        *self as nat
    }

    fn write_varint(&self, to: &mut Vec<u8>) {
        write_varint_u128(*self as u128, to);
    }
}

impl FromVarint for usize {
    proof fn lemma_modulus_positive() {
        assert(<usize as FromVarint>::varint_modulus() > 0);
    }

    open spec fn varint_modulus() -> nat {
        usize_modulus()
    }

    open spec fn from_varint_value(u: nat) -> usize {
        u as usize
    }

    fn from_varint(bytes: &mut &[u8]) -> (r: Result<usize, DecodeError>) {
        match read_varint_u128(bytes, usize_lim()) {
            Ok(v) => Ok(v as usize),
            Err(e) => Err(e),
        }
    }
}

impl VarintRoundtrip for usize {
    proof fn lemma_value_inverse(x: usize) {
    }
}

impl ToVarint for i8 {
    open spec fn varint_value(&self) -> nat {
        zigzag(*self as int, 128)
    }

    fn write_varint(&self, to: &mut Vec<u8>) {
        let x = *self;
        let z: u128 = if x >= 0 {
            (x as u128) * 2
        } else {
            ((x as i128 + 128) as u128) * 2 + 1
        };
        write_varint_u128(z, to);
    }
}

impl FromVarint for i8 {
    proof fn lemma_modulus_positive() {
        assert(<i8 as FromVarint>::varint_modulus() > 0);
    }

    open spec fn varint_modulus() -> nat {
        2 * 128
    }

    open spec fn from_varint_value(u: nat) -> i8 {
        unzigzag(u, 128) as i8
    }

    fn from_varint(bytes: &mut &[u8]) -> (r: Result<i8, DecodeError>) {
        match read_varint_u128(bytes, 2) {
            Ok(v) => {
                if v % 2 == 0 {
                    Ok((v / 2) as i8)
                } else {
                    Ok(((v / 2) as i128 - 128) as i8)
                }
            },
            Err(e) => Err(e),
        }
    }
}

impl VarintRoundtrip for i8 {
    proof fn lemma_value_inverse(x: i8) {
    }
}

impl ToVarint for i16 {
    open spec fn varint_value(&self) -> nat {
        zigzag(*self as int, 32768)
    }

    fn write_varint(&self, to: &mut Vec<u8>) {
        let x = *self;
        let z: u128 = if x >= 0 {
            (x as u128) * 2
        } else {
            ((x as i128 + 32768) as u128) * 2 + 1
        };
        write_varint_u128(z, to);
    }
}

impl FromVarint for i16 {
    proof fn lemma_modulus_positive() {
        assert(<i16 as FromVarint>::varint_modulus() > 0);
    }

    open spec fn varint_modulus() -> nat {
        2 * 32768
    }

    open spec fn from_varint_value(u: nat) -> i16 {
        unzigzag(u, 32768) as i16
    }

    fn from_varint(bytes: &mut &[u8]) -> (r: Result<i16, DecodeError>) {
        match read_varint_u128(bytes, 512) {
            Ok(v) => {
                if v % 2 == 0 {
                    Ok((v / 2) as i16)
                } else {
                    Ok(((v / 2) as i128 - 32768) as i16)
                }
            },
            Err(e) => Err(e),
        }
    }
}

impl VarintRoundtrip for i16 {
    proof fn lemma_value_inverse(x: i16) {
    }
}

impl ToVarint for i32 {
    open spec fn varint_value(&self) -> nat {
        zigzag(*self as int, 0x8000_0000)
    }

    fn write_varint(&self, to: &mut Vec<u8>) {
        let x = *self;
        let z: u128 = if x >= 0 {
            (x as u128) * 2
        } else {
            ((x as i128 + 0x8000_0000) as u128) * 2 + 1
        };
        write_varint_u128(z, to);
    }
}

impl FromVarint for i32 {
    proof fn lemma_modulus_positive() {
        assert(<i32 as FromVarint>::varint_modulus() > 0);
    }

    open spec fn varint_modulus() -> nat {
        2 * 0x8000_0000
    }

    open spec fn from_varint_value(u: nat) -> i32 {
        unzigzag(u, 0x8000_0000) as i32
    }

    fn from_varint(bytes: &mut &[u8]) -> (r: Result<i32, DecodeError>) {
        match read_varint_u128(bytes, 0x200_0000) {
            Ok(v) => {
                if v % 2 == 0 {
                    Ok((v / 2) as i32)
                } else {
                    Ok(((v / 2) as i128 - 0x8000_0000) as i32)
                }
            },
            Err(e) => Err(e),
        }
    }
}

impl VarintRoundtrip for i32 {
    proof fn lemma_value_inverse(x: i32) {
    }
}

impl ToVarint for i64 {
    open spec fn varint_value(&self) -> nat {
        zigzag(*self as int, 0x8000_0000_0000_0000)
    }

    fn write_varint(&self, to: &mut Vec<u8>) {
        let x = *self;
        let z: u128 = if x >= 0 {
            (x as u128) * 2
        } else {
            ((x as i128 + 0x8000_0000_0000_0000) as u128) * 2 + 1
        };
        write_varint_u128(z, to);
    }
}

impl FromVarint for i64 {
    proof fn lemma_modulus_positive() {
        assert(<i64 as FromVarint>::varint_modulus() > 0);
    }

    open spec fn varint_modulus() -> nat {
        2 * 0x8000_0000_0000_0000
    }

    open spec fn from_varint_value(u: nat) -> i64 {
        unzigzag(u, 0x8000_0000_0000_0000) as i64
    }

    fn from_varint(bytes: &mut &[u8]) -> (r: Result<i64, DecodeError>) {
        match read_varint_u128(bytes, 0x200_0000_0000_0000) {
            Ok(v) => {
                if v % 2 == 0 {
                    Ok((v / 2) as i64)
                } else {
                    Ok(((v / 2) as i128 - 0x8000_0000_0000_0000) as i64)
                }
            },
            Err(e) => Err(e),
        }
    }
}

impl VarintRoundtrip for i64 {
    proof fn lemma_value_inverse(x: i64) {
    }
}

impl ToVarint for i128 {
    open spec fn varint_value(&self) -> nat {
        zigzag(*self as int, 0x8000_0000_0000_0000_0000_0000_0000_0000)
    }

    fn write_varint(&self, to: &mut Vec<u8>) {
        let x = *self;
        let z: u128 = if x >= 0 {
            (x as u128) * 2
        } else {
            ((x + i128::MAX + 1) as u128) * 2 + 1
        };
        write_varint_u128(z, to);
    }
}

impl FromVarint for i128 {
    proof fn lemma_modulus_positive() {
        assert(<i128 as FromVarint>::varint_modulus() > 0);
    }

    open spec fn varint_modulus() -> nat {
        (u128::MAX + 1) as nat
    }

    open spec fn from_varint_value(u: nat) -> i128 {
        unzigzag(u, 0x8000_0000_0000_0000_0000_0000_0000_0000) as i128
    }

    fn from_varint(bytes: &mut &[u8]) -> (r: Result<i128, DecodeError>) {
        match read_varint_u128(bytes, 0x200_0000_0000_0000_0000_0000_0000_0000) {
            Ok(v) => {
                if v % 2 == 0 {
                    Ok((v / 2) as i128)
                } else {
                    Ok((v / 2) as i128 - i128::MAX - 1)
                }
            },
            Err(e) => Err(e),
        }
    }
}

impl VarintRoundtrip for i128 {
    proof fn lemma_value_inverse(x: i128) {
    }
}

/// Half the number of values an `isize` has.
pub open spec fn isize_half() -> nat {
    (isize::MAX + 1) as nat
}

impl ToVarint for isize {
    open spec fn varint_value(&self) -> nat {
        zigzag(*self as int, isize_half())
    }

    fn write_varint(&self, to: &mut Vec<u8>) {
        let x = *self;
        let z: u128 = if x >= 0 {
            (x as u128) * 2
        } else {
            ((x as i128 + isize::MAX as i128 + 1) as u128) * 2 + 1
        };
        write_varint_u128(z, to);
    }
}

impl FromVarint for isize {
    proof fn lemma_modulus_positive() {
        assert(<isize as FromVarint>::varint_modulus() > 0);
    }

    open spec fn varint_modulus() -> nat {
        usize_modulus()
    }

    open spec fn from_varint_value(u: nat) -> isize {
        unzigzag(u, isize_half()) as isize
    }

    fn from_varint(bytes: &mut &[u8]) -> (r: Result<isize, DecodeError>) {
        match read_varint_u128(bytes, usize_lim()) {
            Ok(v) => {
                if v % 2 == 0 {
                    Ok((v / 2) as isize)
                } else {
                    Ok(((v / 2) as i128 - isize::MAX as i128 - 1) as isize)
                }
            },
            Err(e) => Err(e),
        }
    }
}

impl VarintRoundtrip for isize {
    proof fn lemma_value_inverse(x: isize) {
    }
}

} // verus!
