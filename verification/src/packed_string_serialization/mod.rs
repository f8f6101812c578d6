//! Serialized strings: a header byte, then the bytes of one of several encodings.
//!
//! Header byte `XXXN....`: the bits `XXX` belong to the caller. `N` set selects
//! the five-bit charset, `XXX1VVVV`, with `VVVV` its header nibble. Otherwise
//! `XXX01EEE` is an encoding without remainder bits, `EEE` selecting it;
//! `XXX00111` is ASCII, the last character carrying the high bit; and
//! `XXX00000` is UTF-8, its byte length as a varint and then its bytes.
use vstd::prelude::*;

use crate::bit_sections::{BitSection, Byte};
use crate::serialize_min::{DecodeError, ReadExtReadOne};
use crate::text::{push_char, string_from_utf8};
use vstd::utf8::{decode_utf8, valid_utf8};
use crate::varint::{varint_decode, varint_encoding, FromVarint, ToVarint};
use vstd::string::StringSliceAdditionalSpecFns;

pub mod latin_lowercase_fivebit;
pub mod fourbits;
pub mod non_remainder_encodings;

use latin_lowercase_fivebit::{
    ascii_bytes,
    byte_chars,
    encodable,
    lemma_fivebit_roundtrip,
    fits_charset,
    fivebit_bytes,
    fivebit_decode,
    header_nibble,
    in_charset,
    latin_lowercase_fivebit_to_string,
    to_charset,
    valid_header,
    decode_triples,
};
use fourbits::{fourbit_decode, FourbitCharset};
use non_remainder_encodings::{
    nibble_charset,
    lemma_non_remainder_roundtrip,
    non_remainder_decode,
    non_remainder_encode,
    read_some_non_remainder_encoding,
    try_into_some_non_remainder_encoding,
};

verus! {

broadcast use vstd::string::group_string_axioms;

/// Whether every character of `s` is in the five-bit charset.
pub open spec fn fits_fivebit(s: Seq<char>) -> bool {
    forall|i: int| 0 <= i < s.len() ==> in_charset(#[trigger] s[i])
}

/// The bytes with the high bit set on the last one.
pub open spec fn mark_last(bs: Seq<u8>) -> Seq<u8> {
    if bs.len() == 0 {
        bs
    } else {
        bs.update(bs.len() - 1, bs.last() | 0x80u8)
    }
}

/// The serialization of `s`, the high three bits of `extra` in its header.
pub open spec fn encode_str(s: &str, extra: u8) -> Seq<u8> {
    let hdr = extra & 0xe0u8;
    match non_remainder_encode(s) {
        Some((n, e)) => seq![(hdr | 0x08u8) | n] + e,
        None => if fits_fivebit(s@) {
            let bs = ascii_bytes(s@);
            seq![(hdr | 0x10u8) | header_nibble(bs)] + fivebit_bytes(bs)
        } else if vstd::string::is_ascii(s) {
            seq![hdr | 0x07u8] + mark_last(s.spec_bytes())
        } else {
            seq![hdr] + varint_encoding(s.spec_bytes().len()) + s.spec_bytes()
        },
    }
}

proof fn lemma_triples_bound(bytes: Seq<u8>)
    ensures
        decode_triples(bytes).1 <= bytes.len(),
    decreases bytes.len(),
{
    if bytes.len() >= 2 {
        lemma_triples_bound(bytes.skip(2));
    }
}

proof fn lemma_fourbit_bound(cs: FourbitCharset, bytes: Seq<u8>)
    ensures
        fourbit_decode(cs, bytes).1 <= bytes.len(),
    decreases bytes.len(),
{
    if bytes.len() > 0 {
        lemma_fourbit_bound(cs, bytes.skip(1));
    }
}

proof fn lemma_ascii_bound(bytes: Seq<u8>)
    ensures
        decode_ascii(bytes).1 <= bytes.len(),
    decreases bytes.len(),
{
    if bytes.len() > 0 {
        lemma_ascii_bound(bytes.drop_first());
    }
}

/// Reading a string after its header takes no more bytes than there are.
pub proof fn lemma_decode_after_header_bound(h: u8, bytes: Seq<u8>)
    ensures
        decode_after_header(h, bytes).1 <= bytes.len(),
{
    lemma_triples_bound(bytes);
    lemma_ascii_bound(bytes);
    crate::varint::lemma_decode_bound(bytes, <usize as FromVarint>::varint_modulus());
    if let Some(cs) = nibble_charset(h & 7u8) {
        lemma_fourbit_bound(cs, bytes);
    }
}

/// The serialization of the string with characters `cs`: that of any `&str`
/// with these characters, which all serialize alike.
pub open spec fn encode_chars(cs: Seq<char>, extra: u8) -> Seq<u8> {
    encode_str(choose|t: &str| t@ == cs, extra)
}

/// A string serializes as its characters do.
pub proof fn lemma_encode_chars(t: &str, extra: u8)
    ensures
        encode_chars(t@, extra) == encode_str(t, extra),
{
    let c = choose|c: &str| c@ == t@;
    assert(c@ == t@);
    assert(c.spec_bytes() == t.spec_bytes());
    assert(vstd::string::is_ascii(c) == vstd::string::is_ascii(t));
    assert(non_remainder_encode(c) == non_remainder_encode(t));
}

/// Reads ASCII characters until one carries the high bit: the characters or
/// the error, and the number of bytes taken.
pub open spec fn decode_ascii(bytes: Seq<u8>) -> (Result<Seq<char>, DecodeError>, nat)
    decreases bytes.len(),
{
    if bytes.len() == 0 {
        (Err(DecodeError::UnexpectedEof), 0)
    } else if bytes[0] & 0x80u8 == 0 {
        let (r, n) = decode_ascii(bytes.drop_first());
        (
            match r {
                Ok(t) => Ok(seq![bytes[0] as char] + t),
                Err(e) => Err(e),
            },
            n + 1,
        )
    } else {
        (Ok(seq![(bytes[0] & 0x7fu8) as char]), 1)
    }
}

/// What reading a string after header `h` from the front of `bytes` gives: the
/// characters or the error, and the number of bytes taken after the header.
pub open spec fn decode_after_header(h: u8, bytes: Seq<u8>) -> (Result<Seq<char>, DecodeError>, nat) {
    if (h >> 4u8) & 1u8 == 1u8 {
        fivebit_decode(h & 15u8, bytes)
    } else if (h >> 3u8) & 1u8 == 1u8 {
        non_remainder_decode(h & 7u8, bytes)
    } else if h & 7u8 == 7u8 {
        decode_ascii(bytes)
    } else {
        match varint_decode(bytes, <usize as FromVarint>::varint_modulus()) {
            Some((len, n)) => if n + len <= bytes.len() {
                let data = bytes.subrange(n as int, (n + len) as int);
                if valid_utf8(data) {
                    (Ok(decode_utf8(data)), n + len)
                } else {
                    (Err(DecodeError::InvalidData), n + len)
                }
            } else {
                (Err(DecodeError::UnexpectedEof), bytes.len())
            },
            None => (Err(DecodeError::UnexpectedEof), bytes.len()),
        }
    }
}

/// The inputs on which reading after header `h` does not fail an assertion: a
/// five-bit header nibble the decoder knows.
pub open spec fn readable_after_header(h: u8, bytes: Seq<u8>) -> bool {
    (h >> 4u8) & 1u8 == 1u8 ==> valid_header(h & 15u8)
}

/// Serializes `value`, with the three high bits of `extra_info_nibble` in the
/// header byte, to the end of `write_to`.
pub fn str_minimally_serialize(
    value: &str,
    write_to: &mut Vec<u8>,
    extra_info_nibble: BitSection<0, 3, u8>,
)
    ensures
        final(write_to)@ == old(write_to)@ + encode_str(value, extra_info_nibble.0),
{
    let extra = extra_info_nibble.into_inner_masked();
    assert(crate::bit_sections::two_pow(8) == 256 && crate::bit_sections::two_pow(5) == 32)
        by {
        reveal_with_fuel(crate::bit_sections::two_pow, 9);
    }
    let mut header: Byte = Byte::from(0u8 | extra);
    assert(0u8 | extra == extra) by (bit_vector);
    if let Some((nibble, bytes)) = try_into_some_non_remainder_encoding(value) {
        header.set_bit(4, true);
        let h = header.into_inner() | nibble;
        assert(1u8 << 3u8 == 0x08u8) by (bit_vector);
        write_to.push(h);
        let ghost before = write_to@;
        write_all(write_to, &bytes);
        assert(write_to@ =~= old(write_to)@ + encode_str(value, extra_info_nibble.0));
        return ;
    }
    if fits_charset(value) {
        let (nibble, bytes) = to_charset(value);
        header.set_bit(3, true);
        let h = header.into_inner() | nibble.into_inner();
        assert(1u8 << 4u8 == 0x10u8) by (bit_vector);
        write_to.push(h);
        write_all(write_to, &bytes);
        assert(write_to@ =~= old(write_to)@ + encode_str(value, extra_info_nibble.0));
        return ;
    }
    if value.is_ascii() {
        let h = header.into_inner() | 7;
        write_to.push(h);
        let bytes = value.as_bytes();
        let len = bytes.len();
        let ghost start = write_to@;
        let mut i: usize = 0;
        while i < len
            invariant
                len == bytes@.len(),
                i <= len,
                write_to@ == start + mark_last(bytes@).take(i as int),
            decreases len - i,
        {
            let b = if i + 1 == len {
                bytes[i] | 0x80
            } else {
                bytes[i]
            };
            write_to.push(b);
            i = i + 1;
            assert(mark_last(bytes@).take(i as int) =~= mark_last(bytes@).take(i - 1).push(b));
        }
        assert(mark_last(bytes@).take(len as int) =~= mark_last(bytes@));
        assert(write_to@ =~= old(write_to)@ + encode_str(value, extra_info_nibble.0));
        return ;
    }
    write_to.push(header.into_inner());
    let bytes = value.as_bytes();
    bytes.len().write_varint(write_to);
    write_all(write_to, bytes);
    assert(write_to@ =~= old(write_to)@ + encode_str(value, extra_info_nibble.0));
}

/// Appends all of `bytes` to `out`.
pub fn write_all(out: &mut Vec<u8>, bytes: &[u8])
    ensures
        final(out)@ == old(out)@ + bytes@,
{
    let mut i: usize = 0;
    while i < bytes.len()
        invariant
            i <= bytes@.len(),
            out@ == old(out)@ + bytes@.take(i as int),
        decreases bytes.len() - i,
    {
        out.push(bytes[i]);
        i = i + 1;
        assert(bytes@.take(i as int) =~= bytes@.take(i - 1).push(bytes@[i - 1]));
    }
    assert(bytes@.take(bytes@.len() as int) =~= bytes@);
}

fn read_ascii(from: &mut &[u8]) -> (r: Result<String, DecodeError>)
    ensures
        ({
            let (res, n) = decode_ascii(old(from)@);
            &&& final(from)@ == old(from)@.skip(n as int)
            &&& match res {
                Ok(cs) => r matches Ok(s) && s@ == cs,
                Err(e) => r == Err::<String, DecodeError>(e),
            }
        }),
{
    let cur: &[u8] = *from;
    let len = cur.len();
    let mut s = String::new();
    let mut i: usize = 0;
    let ghost full = decode_ascii(cur@);
    assert(cur@.skip(0) =~= cur@);
    while i < len
        invariant
            len == cur@.len(),
            i <= len,
            full == decode_ascii(cur@),
            cur@ == old(from)@,
            ({
                let (res, n) = decode_ascii(cur@.skip(i as int));
                full == (
                    match res {
                        Ok(t) => Ok(s@ + t),
                        Err(e) => Err(e),
                    },
                    (n + i) as nat,
                )
            }),
        decreases len - i,
    {
        let f = cur[i];
        let ghost rest = cur@.skip(i as int);
        assert(rest[0] == f);
        assert(rest.drop_first() =~= cur@.skip(i + 1));
        i = i + 1;
        if f & 0x80 == 0 {
            let ghost old_s = s@;
            push_char(&mut s, f as char);
            proof {
                let (res, n) = decode_ascii(cur@.skip(i as int));
                match res {
                    Ok(t) => {
                        assert(old_s + (seq![f as char] + t) =~= s@ + t);
                    },
                    Err(e) => {},
                }
            }
        } else {
            let ghost old_s = s@;
            push_char(&mut s, (f & 0x7f) as char);
            assert(s@ =~= old_s + seq![(f & 0x7fu8) as char]);
            assert(f & 0x80u8 != 0);
            assert(decode_ascii(rest) == (
                Ok::<Seq<char>, DecodeError>(seq![(f & 0x7fu8) as char]),
                1nat,
            ));
            assert(full == (Ok::<Seq<char>, DecodeError>(s@), i as nat));
            let (_, rest) = cur.split_at(i);
            assert(rest@ =~= cur@.skip(i as int));
            *from = rest;
            return Ok(s);
        }
    }
    assert(cur@.skip(i as int) =~= seq![]);
    let (_, rest) = cur.split_at(i);
    assert(rest@ =~= cur@.skip(i as int));
    *from = rest;
    Err(DecodeError::UnexpectedEof)
}

/// Reads a serialized string from the front of `from` and moves `from` past
/// it. The header byte is `external_data` when given, else read first.
pub fn string_deserialize_minimal(from: &mut &[u8], external_data: Option<u8>) -> (r: Result<
    String,
    DecodeError,
>)
    requires
        match external_data {
            Some(h) => readable_after_header(h, old(from)@),
            None => old(from)@.len() > 0 ==> readable_after_header(
                old(from)@[0],
                old(from)@.drop_first(),
            ),
        },
    ensures
        match external_data {
            Some(h) => {
                let (res, n) = decode_after_header(h, old(from)@);
                &&& final(from)@ == old(from)@.skip(n as int)
                &&& match res {
                    Ok(cs) => r matches Ok(s) && s@ == cs,
                    Err(e) => r == Err::<String, DecodeError>(e),
                }
            },
            None => if old(from)@.len() == 0 {
                r == Err::<String, DecodeError>(DecodeError::UnexpectedEof) && final(from)@
                    == old(from)@
            } else {
                let (res, n) = decode_after_header(old(from)@[0], old(from)@.drop_first());
                &&& final(from)@ == old(from)@.drop_first().skip(n as int)
                &&& match res {
                    Ok(cs) => r matches Ok(s) && s@ == cs,
                    Err(e) => r == Err::<String, DecodeError>(e),
                }
            },
        },
{
    let ghost start = *from;
    let header = match external_data {
        Some(b) => b,
        None => {
            let b = match from.read_one() {
                Ok(b) => b,
                Err(e) => return Err(e),
            };
            b
        },
    };
    let ghost after = *from;
    let r = if (header >> 4) & 1 == 1 {
        let fivebit_nibble = header & 0b1111;
        latin_lowercase_fivebit_to_string(fivebit_nibble, from)
    } else if (header >> 3) & 1 == 1 {
        let non_remainder_nibble = header & 0b111;
        read_some_non_remainder_encoding(non_remainder_nibble, from)
    } else if header & 0b111 == 0b111 {
        read_ascii(from)
    } else {
        let ghost cur = *from;
        proof {
            crate::varint::lemma_decode_bound(cur@, <usize as FromVarint>::varint_modulus());
            crate::varint::lemma_decode_value_bound(cur@, <usize as FromVarint>::varint_modulus());
        }
        match usize::from_varint(from) {
            Ok(len) => {
                let ghost rest = *from;
                proof {
                    let (u, n) = varint_decode(cur@, <usize as FromVarint>::varint_modulus())->0;
                    assert(len == u);
                    assert(rest@ == cur@.skip(n as int));
                    assert(cur@.len() - rest@.len() == n);
                }
                match crate::serialize_min::read_exact(from, len) {
                    Ok(data) => {
                        proof {
                            assert(data@ =~= cur@.subrange(
                                (cur@.len() - rest@.len()) as int,
                                (cur@.len() - rest@.len()) + len,
                            ));
                            assert(from@ =~= cur@.skip((cur@.len() - rest@.len()) + len));
                        }
                        match string_from_utf8(data) {
                            Some(s) => Ok(s),
                            None => Err(DecodeError::InvalidData),
                        }
                    },
                    Err(e) => {
                        proof {
                            assert(from@ =~= cur@.skip(cur@.len() as int));
                        }
                        Err(e)
                    },
                }
            },
            Err(e) => Err(e),
        }
    };
    proof {
        if external_data is None {
            assert(after@ =~= start@.drop_first());
        }
    }
    r
}

/// The strings whose serialization reads back as the string: every string
/// that is not ASCII (written as UTF-8, its byte length fitting a `usize`),
/// and the ASCII strings for which the chosen encoding is not one of those
/// that lose characters (a four-bit charset on an even length or with a zero
/// character).
pub open spec fn str_roundtrips(s: &str) -> bool {
    &&& !vstd::string::is_ascii(s) ==> s.spec_bytes().len() < <usize as FromVarint>::varint_modulus()
    &&& vstd::string::is_ascii(s) ==> (non_remainder_encode(s) is Some ==> s@.len() % 2 == 1
        && forall|i: int| 0 <= i < s@.len() ==> #[trigger] s@[i] != '\0')
}

/// A four-bit encoding exists only of bytes below 128.
proof fn lemma_fourbit_only_ascii(cs: FourbitCharset, bs: Seq<u8>)
    ensures
        fourbits::fourbit_encode(cs, bs) is Some ==> forall|i: int| 0 <= i < bs.len() ==> #[trigger] bs[i] < 128,
    decreases bs.len(),
{
    if bs.len() >= 2 {
        lemma_fourbit_only_ascii(cs, bs.skip(2));
        if fourbits::fourbit_encode(cs, bs) is Some {
            assert forall|i: int| 0 <= i < bs.len() implies #[trigger] bs[i] < 128 by {
                if i >= 2 {
                    assert(bs.skip(2)[i - 2] == bs[i]);
                }
            }
        }
    }
}

/// The UTF-8 bytes of characters that are not all ASCII hold a byte of 128
/// or more.
proof fn lemma_non_ascii_bytes(chars: Seq<char>)
    requires
        !vstd::utf8::is_ascii_chars(chars),
    ensures
        exists|i: int| 0 <= i < vstd::utf8::encode_utf8(chars).len() && #[trigger] vstd::utf8::encode_utf8(chars)[i] >= 128,
    decreases chars.len(),
{
    let c = chars[0];
    let v = c as u32;
    assert(v == c as u32);
    assert(c as u32 as int == c as int) by {
        vstd::utf8::char_u32_cast(c, v);
    }
    let head = vstd::utf8::encode_scalar(v);
    let tail = chars.drop_first();
    let e = vstd::utf8::encode_utf8(chars);
    assert(e == head + vstd::utf8::encode_utf8(tail));
    if '\0' <= c <= '\u{7f}' {
        assert(!vstd::utf8::is_ascii_chars(tail)) by {
            if vstd::utf8::is_ascii_chars(tail) {
                assert forall|i: int| 0 <= i < chars.len() implies '\0' <= #[trigger] chars[i] <= '\u{7f}' by {
                    if i > 0 {
                        assert(chars[i] == tail[i - 1]);
                    }
                }
            }
        }
        lemma_non_ascii_bytes(tail);
        let j = choose|j: int| 0 <= j < vstd::utf8::encode_utf8(tail).len() && #[trigger] vstd::utf8::encode_utf8(tail)[j] >= 128;
        assert(e[head.len() + j] == vstd::utf8::encode_utf8(tail)[j]);
    } else {
        assert(v > 0x7f);
        let last = vstd::utf8::last_continuation_byte(v);
        assert(last >= 128) by (bit_vector)
            requires
                last == 0x80u8 | (v & 0x3Fu32) as u8,
        ;
        assert(head[head.len() - 1] == last);
        assert(e[head.len() - 1] == last);
    }
}

proof fn lemma_ascii_roundtrip(bs: Seq<u8>, rest: Seq<u8>)
    requires
        bs.len() > 0,
        forall|i: int| 0 <= i < bs.len() ==> #[trigger] bs[i] < 128,
    ensures
        decode_ascii(mark_last(bs) + rest) == (Ok::<Seq<char>, DecodeError>(byte_chars(bs)), bs.len()),
    decreases bs.len(),
{
    let e = mark_last(bs) + rest;
    let b = bs[0];
    if bs.len() == 1 {
        assert(e[0] == b | 0x80u8);
        assert((b | 0x80u8) & 0x80u8 != 0 && ((b | 0x80u8) & 0x7fu8) == b) by (bit_vector)
            requires
                b < 128,
        ;
        assert(seq![b as char] =~= byte_chars(bs));
    } else {
        let tail = bs.drop_first();
        assert(e[0] == b);
        assert(b & 0x80u8 == 0) by (bit_vector)
            requires
                b < 128,
        ;
        assert forall|i: int| 0 <= i < tail.len() implies #[trigger] tail[i] < 128 by {
            assert(tail[i] == bs[i + 1]);
        }
        lemma_ascii_roundtrip(tail, rest);
        assert(e.drop_first() =~= mark_last(tail) + rest);
        assert(seq![b as char] + byte_chars(tail) =~= byte_chars(bs));
    }
}

proof fn lemma_ascii_str_roundtrip(s: &str, extra: u8, rest: Seq<u8>)
    requires
        vstd::string::is_ascii(s),
        str_roundtrips(s),
    ensures
        ({
            let e = encode_str(s, extra);
            &&& e.len() >= 1
            &&& readable_after_header(e[0], (e + rest).drop_first())
            &&& decode_after_header(e[0], (e + rest).drop_first()) == (
                Ok::<Seq<char>, DecodeError>(s@),
                (e.len() - 1) as nat,
            )
        }),
{
    vstd::string::is_ascii_spec_bytes(s);
    let bs = s.spec_bytes();
    assert(bs =~= ascii_bytes(s@));
    assert(byte_chars(bs) =~= s@) by {
        assert forall|i: int| 0 <= i < s@.len() implies byte_chars(bs)[i] == s@[i] by {
            assert('\0' <= s@[i] <= '\u{7f}');
        }
    }
    let hdr = extra & 0xe0u8;
    let e = encode_str(s, extra);
    match non_remainder_encode(s) {
        Some((n, enc)) => {
            let h = (hdr | 0x08u8) | n;
            assert(n <= 7);
            assert((h >> 4u8) & 1u8 != 1u8 && (h >> 3u8) & 1u8 == 1u8 && h & 7u8 == n) by (
            bit_vector)
                requires
                    hdr == extra & 0xe0u8,
                    h == (hdr | 0x08u8) | n,
                    n <= 7,
            ;
            assert((e + rest).drop_first() =~= enc + rest);
            lemma_non_remainder_roundtrip(s, rest);
        },
        None => {
            if fits_fivebit(s@) {
                let hn = header_nibble(bs);
                let h = (hdr | 0x10u8) | hn;
                assert forall|i: int| 0 <= i < s@.len() implies encodable(#[trigger] s@[i]) by {
                    assert(in_charset(s@[i]));
                }
                lemma_fivebit_roundtrip(s@, rest);
                if bs.len() % 3 == 2 {
                    let x = latin_lowercase_fivebit::byte_index(bs[bs.len() - 2]);
                    assert(in_charset(s@[bs.len() - 2]));
                    assert(x < 32);
                    assert(hn == 12u8 | (x >> 3u8) || hn == 8u8 | (x >> 3u8));
                    assert((12u8 | (x >> 3u8)) <= 15 && (8u8 | (x >> 3u8)) <= 15) by (bit_vector)
                        requires
                            x < 32,
                    ;
                }
                assert(hn <= 15);
                assert((h >> 4u8) & 1u8 == 1u8 && h & 15u8 == hn) by (bit_vector)
                    requires
                        hdr == extra & 0xe0u8,
                        h == (hdr | 0x10u8) | hn,
                        hn <= 15,
                ;
                assert((e + rest).drop_first() =~= fivebit_bytes(bs) + rest);
            } else {
                let h = hdr | 0x07u8;
                assert((h >> 4u8) & 1u8 != 1u8 && (h >> 3u8) & 1u8 != 1u8 && h & 7u8 == 7u8) by (
                bit_vector)
                    requires
                        hdr == extra & 0xe0u8,
                        h == hdr | 0x07u8,
                ;
                assert(bs.len() > 0) by {
                    if bs.len() == 0 {
                        assert(fourbits::fourbit_encode(fourbits::FourbitCharset::MostlyNumeric, bs)
                            is Some);
                    }
                }
                assert forall|i: int| 0 <= i < bs.len() implies #[trigger] bs[i] < 128 by {
                    assert('\0' <= s@[i] <= '\u{7f}');
                }
                lemma_ascii_roundtrip(bs, rest);
                assert((e + rest).drop_first() =~= mark_last(bs) + rest);
            }
        },
    }
}

/// Reading back the serialization of a string, whatever the caller's bits in
/// the header and whatever bytes follow, gives the string and takes exactly the
/// bytes after the header, for the strings of `str_roundtrips`.
pub proof fn lemma_str_roundtrip(s: &str, extra: u8, rest: Seq<u8>)
    requires
        str_roundtrips(s),
    ensures
        ({
            let e = encode_str(s, extra);
            &&& e.len() >= 1
            &&& readable_after_header(e[0], (e + rest).drop_first())
            &&& decode_after_header(e[0], (e + rest).drop_first()) == (
                Ok::<Seq<char>, DecodeError>(s@),
                (e.len() - 1) as nat,
            )
        }),
{
    if vstd::string::is_ascii(s) {
        lemma_ascii_str_roundtrip(s, extra, rest);
    } else {
        lemma_utf8_str_roundtrip(s, extra, rest);
    }
}

proof fn lemma_utf8_str_roundtrip(s: &str, extra: u8, rest: Seq<u8>)
    requires
        !vstd::string::is_ascii(s),
        s.spec_bytes().len() < <usize as FromVarint>::varint_modulus(),
    ensures
        ({
            let e = encode_str(s, extra);
            &&& e.len() >= 1
            &&& readable_after_header(e[0], (e + rest).drop_first())
            &&& decode_after_header(e[0], (e + rest).drop_first()) == (
                Ok::<Seq<char>, DecodeError>(s@),
                (e.len() - 1) as nat,
            )
        }),
{
    broadcast use vstd::utf8::encode_utf8_valid_utf8, vstd::utf8::encode_utf8_decode_utf8;

    let bs = s.spec_bytes();
    assert(bs == vstd::utf8::encode_utf8(s@));
    lemma_non_ascii_bytes(s@);
    let j = choose|j: int| 0 <= j < bs.len() && #[trigger] bs[j] >= 128;
    lemma_fourbit_only_ascii(FourbitCharset::MostlyNumeric, bs);
    lemma_fourbit_only_ascii(FourbitCharset::PhoneNumber, bs);
    lemma_fourbit_only_ascii(FourbitCharset::NumericIdentifier, bs);
    assert(non_remainder_encode(s) is None);
    let k = choose|k: int| 0 <= k < s@.len() && !('\0' <= #[trigger] s@[k] <= '\u{7f}');
    assert(!in_charset(s@[k]));
    assert(!fits_fivebit(s@));
    let hdr = extra & 0xe0u8;
    let e = encode_str(s, extra);
    assert(e == seq![hdr] + varint_encoding(bs.len()) + bs);
    assert((hdr >> 4u8) & 1u8 != 1u8 && (hdr >> 3u8) & 1u8 != 1u8 && hdr & 7u8 != 7u8) by (bit_vector)
        requires
            hdr == extra & 0xe0u8,
    ;
    let after = (e + rest).drop_first();
    assert(after =~= varint_encoding(bs.len()) + (bs + rest));
    crate::varint::lemma_varint_roundtrip(bs.len(), bs + rest, <usize as FromVarint>::varint_modulus());
    let n = varint_encoding(bs.len()).len();
    assert(after.subrange(n as int, (n + bs.len()) as int) =~= bs);
}

} // verus!
