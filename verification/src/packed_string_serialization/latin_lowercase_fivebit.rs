//! The five-bit charset: lower-case latin letters and a few separators, three
//! characters to two bytes.
//!
//! Indices: 0-25 are `a`-`z`, 26 `:`, 27 `_`, 28 `-`, 29 `/`, 30 `.`, 31 a space.
use vstd::prelude::*;

use crate::bit_sections::LowNibble;
use crate::serialize_min::DecodeError;
use crate::text::push_char;

verus! {

broadcast use vstd::string::group_string_axioms;

/// The characters that `fits_charset` accepts.
pub open spec fn in_charset(c: char) -> bool {
    ('a' <= c && c <= 'z') || c == ':' || c == '_' || c == '-' || c == '/' || c == '.' || c == ' '
}

/// The characters that have an index in the charset: those it accepts.
pub open spec fn encodable(c: char) -> bool {
    in_charset(c)
}

/// The bytes of an ASCII string.
pub open spec fn ascii_bytes(s: Seq<char>) -> Seq<u8> {
    Seq::new(s.len(), |i: int| s[i] as u8)
}

/// The index of a byte of the charset.
pub open spec fn byte_index(b: u8) -> u8 {
    if b == 58 {
        26
    } else if b == 95 {
        27
    } else if b == 45 {
        28
    } else if b == 47 {
        29
    } else if b == 46 {
        30
    } else if b == 32 {
        31
    } else {
        (b - 97) as u8
    }
}

/// The byte that an index stands for; `97 + i` past the separators.
pub open spec fn index_byte(i: u8) -> int {
    if i == 26 {
        58
    } else if i == 27 {
        95
    } else if i == 28 {
        45
    } else if i == 29 {
        47
    } else if i == 30 {
        46
    } else if i == 31 {
        32
    } else {
        97 + i
    }
}

/// The character that an index below 32 stands for.
pub open spec fn index_char(i: u8) -> char {
    (index_byte(i) as u8) as char
}

/// The header nibble of the encoding: how many characters are left over after
/// the triples, whether there are no triples at all, and, for two left over,
/// the high bits of the first of them.
pub open spec fn header_nibble(bytes: Seq<u8>) -> u8 {
    let len = bytes.len();
    if len % 3 == 0 {
        if len == 0 {
            1
        } else {
            0
        }
    } else if len % 3 == 1 {
        if len == 1 {
            5
        } else {
            4
        }
    } else {
        (if len == 2 {
            12u8
        } else {
            8u8
        }) | (byte_index(bytes[len - 2]) >> 3u8)
    }
}

/// Three indices and the flag of the last triple, as sixteen bits.
pub open spec fn section(a: u8, b: u8, c: u8, last: bool) -> u16 {
    (((a & 31u8) as u16) << 11u16) | (((b & 31u8) as u16) << 6u16) | (((c & 31u8) as u16) << 1u16)
        | (if last {
        1u16
    } else {
        0u16
    })
}

/// The triples of `bytes`, two bytes each; the last one carries the flag bit.
pub open spec fn chunk_bytes(bytes: Seq<u8>) -> Seq<u8>
    decreases bytes.len(),
{
    if bytes.len() < 3 {
        seq![]
    } else {
        let s = section(
            byte_index(bytes[0]),
            byte_index(bytes[1]),
            byte_index(bytes[2]),
            bytes.len() < 6,
        );
        seq![(s >> 8u16) as u8, s as u8] + chunk_bytes(bytes.skip(3))
    }
}

/// What follows the triples: the last byte as it is when one character is left
/// over, the two indices packed in a byte when two are (the high bits of the
/// first also go into the header nibble).
pub open spec fn remainder_bytes(bytes: Seq<u8>) -> Seq<u8> {
    let len = bytes.len();
    if len % 3 == 1 {
        seq![bytes[len - 1]]
    } else if len % 3 == 2 {
        seq![(byte_index(bytes[len - 2]) << 5u8) | byte_index(bytes[len - 1])]
    } else {
        seq![]
    }
}

/// The bytes that follow the header nibble.
pub open spec fn fivebit_bytes(bytes: Seq<u8>) -> Seq<u8> {
    chunk_bytes(bytes) + remainder_bytes(bytes)
}

/// The characters of one triple of bytes.
pub open spec fn section_chars(s: u16) -> Seq<char> {
    seq![
        index_char((s >> 11u16) as u8),
        index_char(((s >> 6u16) & 31u16) as u8),
        index_char(((s >> 1u16) & 31u16) as u8),
    ]
}

/// Reads triples, two bytes each, until one carries the flag bit or fewer than
/// two bytes are left; the characters read and the bytes taken.
pub open spec fn decode_triples(bytes: Seq<u8>) -> (Seq<char>, nat)
    decreases bytes.len(),
{
    if bytes.len() < 2 {
        (seq![], bytes.len())
    } else {
        let s = ((bytes[0] as u16) << 8u16) | (bytes[1] as u16);
        if s & 1u16 == 1u16 {
            (section_chars(s), 2nat)
        } else {
            let r = decode_triples(bytes.skip(2));
            (section_chars(s) + r.0, r.1 + 2)
        }
    }
}

/// The header nibbles that the decoder accepts: nothing, one or two
/// characters left over after the triples, each with or without triples; for
/// two left over the low bits carry the high bits of the first of them.
pub open spec fn valid_header(h: u8) -> bool {
    h == 0 || h == 1 || h == 4 || h == 5 || (h & 12u8) == 8u8 || (h & 12u8) == 12u8
}

/// What decoding reads for header nibble `h` from the front of `bytes`: the
/// characters or the error, and the number of bytes taken.
pub open spec fn fivebit_decode(h: u8, bytes: Seq<u8>) -> (Result<Seq<char>, DecodeError>, nat) {
    if h == 1 {
        (Ok(seq![]), 0)
    } else if h == 5 {
        if bytes.len() == 0 {
            (Err(DecodeError::UnexpectedEof), 0)
        } else {
            (Ok(seq![bytes[0] as char]), 1)
        }
    } else if h & 12u8 == 12u8 {
        if bytes.len() == 0 {
            (Err(DecodeError::UnexpectedEof), 0)
        } else {
            let a = bytes[0];
            (Ok(seq![index_char(((h & 3u8) << 3u8) | (a >> 5u8)), index_char(a & 31u8)]), 1)
        }
    } else {
        let (t, n) = decode_triples(bytes);
        let rest = bytes.skip(n as int);
        if h == 0 {
            (Ok(t), n)
        } else if rest.len() == 0 {
            (Err(DecodeError::UnexpectedEof), n)
        } else if h == 4 {
            (Ok(t.push(rest[0] as char)), n + 1)
        } else {
            let a = rest[0];
            (Ok(t.push(index_char(((h & 3u8) << 3u8) | (a >> 5u8))).push(index_char(a & 31u8))), n + 1)
        }
    }
}

/// Whether every character of `str` is in the charset.
pub fn fits_charset(str: &str) -> (r: bool)
    ensures
        r == forall|i: int| 0 <= i < str@.len() ==> in_charset(#[trigger] str@[i]),
{
    if !str.is_ascii() {
        proof {
            let i = choose|i: int| 0 <= i < str@.len() && !('\0' <= #[trigger] str@[i] <= '\u{7f}');
            assert(!in_charset(str@[i]));
        }
        return false;
    }
    let bytes = str.as_bytes();
    proof {
        vstd::string::is_ascii_spec_bytes(str);
    }
    let mut i: usize = 0;
    while i < bytes.len()
        invariant
            bytes@ == ascii_bytes(str@),
            i <= bytes@.len() == str@.len(),
            vstd::string::is_ascii(str),
            forall|j: int| 0 <= j < i ==> in_charset(#[trigger] str@[j]),
        decreases bytes.len() - i,
    {
        if !is_in_charset(bytes[i]) {
            assert(!in_charset(str@[i as int]));
            return false;
        }
        i = i + 1;
    }
    true
}

fn is_in_charset(b: u8) -> (r: bool)
    ensures
        b < 128 ==> r == in_charset(b as char),
{
    (b >= 97 && b <= 122) || b == 58 || b == 95 || b == 45 || b == 47 || b == 46 || b == 32
}

fn char_to_latin_lowercase(b: u8) -> (r: u8)
    requires
        b >= 97 || b == 58 || b == 95 || b == 45 || b == 47 || b == 46 || b == 32,
    ensures
        r == byte_index(b),
{
    match b {
        58 => 26,
        95 => 27,
        45 => 28,
        47 => 29,
        46 => 30,
        32 => 31,
        b => b - 97,
    }
}

fn char_from_latin_lowercase(b: u8) -> (r: u8)
    requires
        b <= 158,
    ensures
        r == index_byte(b),
{
    match b {
        26 => 58,
        27 => 95,
        28 => 45,
        29 => 47,
        30 => 46,
        31 => 32,
        b => 97 + b,
    }
}

proof fn lemma_encodable_ascii(s: Seq<char>)
    requires
        forall|i: int| 0 <= i < s.len() ==> encodable(#[trigger] s[i]),
    ensures
        vstd::utf8::is_ascii_chars(s),
{
    assert forall|i: int| 0 <= i < s.len() implies '\0' <= #[trigger] s[i] <= '\u{7f}' by {
        assert(encodable(s[i]));
    }
}

/// Encodes `str` in the charset: the header nibble and the bytes that follow it.
pub fn to_charset(str: &str) -> (r: (LowNibble, Vec<u8>))
    requires
        forall|i: int| 0 <= i < str@.len() ==> encodable(#[trigger] str@[i]),
    ensures
        r.0.0 == header_nibble(ascii_bytes(str@)),
        r.1@ == fivebit_bytes(ascii_bytes(str@)),
{
    let bytes = str.as_bytes();
    let ghost bs = ascii_bytes(str@);
    proof {
        lemma_encodable_ascii(str@);
        vstd::string::is_ascii_spec_bytes(str);
        assert(bytes@ =~= bs);
        assert forall|i: int| 0 <= i < bs.len() implies (#[trigger] bs[i] >= 97 || bs[i] == 58
            || bs[i] == 95 || bs[i] == 45 || bs[i] == 47 || bs[i] == 46 || bs[i] == 32) by {
            assert(encodable(str@[i]));
        }
    }
    let len = bytes.len();
    let len_rem = len % 3;
    let mut header: u8 = if len_rem == 0 {
        if len == 0 {
            1
        } else {
            0
        }
    } else if len_rem == 1 {
        if len == 1 {
            5
        } else {
            4
        }
    } else if len == 2 {
        12
    } else {
        8
    };
    let mut out: Vec<u8> = Vec::new();
    let n = len / 3;
    let mut k: usize = 0;
    assert(bs.skip(0) =~= bs);
    while k < n
        invariant
            bytes@ == bs,
            len == bs.len(),
            n == len / 3,
            k <= n,
            forall|i: int| 0 <= i < bs.len() ==> (#[trigger] bs[i] >= 97 || bs[i] == 58 || bs[i] == 95
                || bs[i] == 45 || bs[i] == 47 || bs[i] == 46 || bs[i] == 32),
            out@ + chunk_bytes(bs.skip(3 * k as int)) == chunk_bytes(bs),
        decreases n - k,
    {
        let ghost rest = bs.skip(3 * k as int);
        let a = char_to_latin_lowercase(bytes[3 * k]);
        let b = char_to_latin_lowercase(bytes[3 * k + 1]);
        let c = char_to_latin_lowercase(bytes[3 * k + 2]);
        let is_last = k + 1 == n;
        let sec: u16 = (((a & 31) as u16) << 11) | (((b & 31) as u16) << 6) | (((c & 31) as u16)
            << 1) | (if is_last {
            1
        } else {
            0
        });
        proof {
            assert(rest[0] == bs[3 * k as int]);
            assert(rest[1] == bs[3 * k + 1]);
            assert(rest[2] == bs[3 * k + 2]);
            assert(rest.skip(3) =~= bs.skip(3 * (k + 1) as int));
            assert((rest.len() < 6) == is_last);
            assert(sec == section(a, b, c, is_last));
        }
        let ghost old_out = out@;
        out.push((sec >> 8) as u8);
        out.push(sec as u8);
        proof {
            assert(out@ =~= old_out + seq![(sec >> 8u16) as u8, sec as u8]);
            assert(chunk_bytes(rest) == seq![(sec >> 8u16) as u8, sec as u8] + chunk_bytes(
                rest.skip(3),
            ));
            assert(out@ + chunk_bytes(bs.skip(3 * (k + 1) as int)) =~= old_out + chunk_bytes(
                rest,
            ));
        }
        k = k + 1;
    }
    assert(chunk_bytes(bs.skip(3 * k as int)) =~= seq![]);
    assert(out@ =~= chunk_bytes(bs));
    let ghost chunks = out@;
    if len_rem == 1 {
        out.push(bytes[len - 1]);
    } else if len_rem == 2 {
        let a = char_to_latin_lowercase(bytes[len - 2]);
        let b = char_to_latin_lowercase(bytes[len - 1]);
        proof {
            assert(a < 32);
            assert(a >> 3u8 <= 3) by (bit_vector)
                requires
                    a < 32,
            ;
        }
        let x = a >> 3;
        proof {
            assert(header == 12 || header == 8);
            assert(8 <= (header | x) <= 15) by (bit_vector)
                requires
                    header == 12u8 || header == 8u8,
                    x <= 3,
            ;
        }
        header = header | x;
        out.push((a << 5) | b);
    }
    assert(out@ =~= chunks + remainder_bytes(bs));
    proof {
        let hb = header;
        assert(hb & 15u8 == hb) by (bit_vector)
            requires
                hb == 0 || hb == 1 || hb == 4 || hb == 5 || (8 <= hb && hb <= 15),
        ;
    }
    (LowNibble::from(header), out)
}

/// Reads a string encoded in the charset, with header nibble `header_nibble`,
/// from the front of `bytes`, and moves `bytes` past what it read.
pub fn latin_lowercase_fivebit_to_string(header_nibble: u8, bytes: &mut &[u8]) -> (r: Result<
    String,
    DecodeError,
>)
    requires
        valid_header(header_nibble),
    ensures
        ({
            let (res, n) = fivebit_decode(header_nibble, old(bytes)@);
            &&& final(bytes)@ == old(bytes)@.skip(n as int)
            &&& match res {
                Ok(cs) => r matches Ok(s) && s@ == cs,
                Err(e) => r == Err::<String, DecodeError>(e),
            }
        }),
{
    let cur: &[u8] = *bytes;
    let len = cur.len();
    let h = header_nibble;
    let mut s = String::new();
    if h == 1 {
        assert(cur@.skip(0) =~= cur@);
        return Ok(s);
    }
    if h == 5 {
        if len == 0 {
            assert(cur@.skip(0) =~= cur@);
            return Err(DecodeError::UnexpectedEof);
        }
        let c = cur[0];
        let (_, rest) = cur.split_at(1);
        *bytes = rest;
        push_char(&mut s, c as char);
        return Ok(s);
    }
    if h & 12 == 12 {
        if len == 0 {
            assert(cur@.skip(0) =~= cur@);
            return Err(DecodeError::UnexpectedEof);
        }
        let a = cur[0];
        let a_char = ((h & 3) << 3) | (a >> 5);
        let b_char = a & 31;
        proof {
            assert(a_char <= 31 && b_char <= 31) by (bit_vector)
                requires
                    a_char == ((h & 3u8) << 3u8) | (a >> 5u8),
                    b_char == a & 31u8,
            ;
        }
        push_char(&mut s, char_from_latin_lowercase(a_char) as char);
        push_char(&mut s, char_from_latin_lowercase(b_char) as char);
        let (_, rest) = cur.split_at(1);
        *bytes = rest;
        return Ok(s);
    }
    let mut i: usize = 0;
    assert(cur@.skip(0) =~= cur@);
    loop
        invariant_except_break
            len == cur@.len(),
            i <= len,
            decode_triples(cur@) == (s@ + decode_triples(cur@.skip(i as int)).0, (i
                + decode_triples(cur@.skip(i as int)).1) as nat),
        ensures
            i <= len,
            decode_triples(cur@) == (s@, i as nat),
        decreases len - i,
    {
        let ghost rest = cur@.skip(i as int);
        if len - i < 2 {
            assert(s@ + seq![] =~= s@);
            i = len;
            break ;
        }
        let a = cur[i];
        let b = cur[i + 1];
        let sec: u16 = ((a as u16) << 8) | (b as u16);
        let x = (sec >> 11) as u8;
        let y = ((sec >> 6) & 31) as u8;
        let z = ((sec >> 1) & 31) as u8;
        proof {
            assert(x <= 31 && y <= 31 && z <= 31) by (bit_vector)
                requires
                    x == (sec >> 11u16) as u8,
                    y == ((sec >> 6u16) & 31u16) as u8,
                    z == ((sec >> 1u16) & 31u16) as u8,
            ;
            assert(rest[0] == a && rest[1] == b);
            assert(rest.skip(2) =~= cur@.skip(i + 2));
        }
        let ghost old_s = s@;
        push_char(&mut s, char_from_latin_lowercase(x) as char);
        push_char(&mut s, char_from_latin_lowercase(y) as char);
        push_char(&mut s, char_from_latin_lowercase(z) as char);
        assert(s@ =~= old_s + section_chars(sec));
        i = i + 2;
        if sec & 1 == 1 {
            break ;
        }
        assert(decode_triples(rest) == (section_chars(sec) + decode_triples(rest.skip(2)).0,
            (decode_triples(rest.skip(2)).1 + 2) as nat));
        assert(old_s + (section_chars(sec) + decode_triples(rest.skip(2)).0) =~= s@
            + decode_triples(rest.skip(2)).0);
    }
    let (_, rest) = cur.split_at(i);
    assert(rest@ =~= cur@.skip(i as int));
    *bytes = rest;
    if h == 0 {
        return Ok(s);
    }
    if rest.len() == 0 {
        return Err(DecodeError::UnexpectedEof);
    }
    let a = rest[0];
    let (_, rest2) = rest.split_at(1);
    assert(rest2@ =~= cur@.skip(i + 1));
    *bytes = rest2;
    if h == 4 {
        push_char(&mut s, a as char);
        return Ok(s);
    }
    let a_char = ((h & 3) << 3) | (a >> 5);
    let b_char = a & 31;
    proof {
        assert(a_char <= 31 && b_char <= 31) by (bit_vector)
            requires
                a_char == ((h & 3u8) << 3u8) | (a >> 5u8),
                b_char == a & 31u8,
        ;
    }
    push_char(&mut s, char_from_latin_lowercase(a_char) as char);
    push_char(&mut s, char_from_latin_lowercase(b_char) as char);
    Ok(s)
}

/// The bytes of the charset.
pub open spec fn charset_byte(b: u8) -> bool {
    (97 <= b && b <= 122) || b == 58 || b == 95 || b == 45 || b == 47 || b == 46 || b == 32
}

/// The characters of a sequence of ASCII bytes.
pub open spec fn byte_chars(bs: Seq<u8>) -> Seq<char> {
    Seq::new(bs.len(), |i: int| bs[i] as char)
}

proof fn lemma_section_bits(a: u8, b: u8, c: u8, last: bool)
    requires
        a < 32,
        b < 32,
        c < 32,
    ensures
        ({
            let sp = section(a, b, c, last);
            let s2 = ((((sp >> 8u16) as u8) as u16) << 8u16) | ((sp as u8) as u16);
            &&& s2 == sp
            &&& (sp >> 11u16) as u8 == a
            &&& ((sp >> 6u16) & 31u16) as u8 == b
            &&& ((sp >> 1u16) & 31u16) as u8 == c
            &&& (sp & 1u16 == 1u16) == last
        }),
{
    let l: u16 = if last {
        1
    } else {
        0
    };
    let sp = section(a, b, c, last);
    assert(sp == (((a & 31u8) as u16) << 11u16) | (((b & 31u8) as u16) << 6u16) | (((c & 31u8) as u16)
        << 1u16) | l);
    assert({
        let s2 = ((((sp >> 8u16) as u8) as u16) << 8u16) | ((sp as u8) as u16);
        &&& s2 == sp
        &&& (sp >> 11u16) as u8 == a
        &&& ((sp >> 6u16) & 31u16) as u8 == b
        &&& ((sp >> 1u16) & 31u16) as u8 == c
        &&& (sp & 1u16 == 1u16) == (l == 1u16)
    }) by (bit_vector)
        requires
            a < 32,
            b < 32,
            c < 32,
            l == 0u16 || l == 1u16,
            sp == (((a & 31u8) as u16) << 11u16) | (((b & 31u8) as u16) << 6u16) | (((c & 31u8)
                as u16) << 1u16) | l,
    ;
}

proof fn lemma_index_roundtrip(b: u8)
    requires
        charset_byte(b),
    ensures
        byte_index(b) < 32,
        index_char(byte_index(b)) == b as char,
{
}

proof fn lemma_decode_chunks(bs: Seq<u8>, tail: Seq<u8>)
    requires
        bs.len() >= 3,
        forall|i: int| 0 <= i < bs.len() ==> charset_byte(#[trigger] bs[i]),
    ensures
        chunk_bytes(bs).len() == 2 * (bs.len() / 3),
        decode_triples(chunk_bytes(bs) + tail) == (
            byte_chars(bs.take((3 * (bs.len() / 3)) as int)),
            2 * (bs.len() / 3),
        ),
    decreases bs.len(),
{
    let a = byte_index(bs[0]);
    let b = byte_index(bs[1]);
    let c = byte_index(bs[2]);
    let last = bs.len() < 6;
    lemma_index_roundtrip(bs[0]);
    lemma_index_roundtrip(bs[1]);
    lemma_index_roundtrip(bs[2]);
    lemma_section_bits(a, b, c, last);
    let sp = section(a, b, c, last);
    let e = chunk_bytes(bs) + tail;
    let next = bs.skip(3);
    assert(e[0] == (sp >> 8u16) as u8);
    assert(e[1] == sp as u8);
    assert(e.skip(2) =~= chunk_bytes(next) + tail);
    assert(section_chars(sp) =~= byte_chars(bs.take(3)));
    if bs.len() < 6 {
        assert(chunk_bytes(next) =~= seq![]);
        assert(bs.take((3 * (bs.len() / 3)) as int) =~= bs.take(3));
    } else {
        assert forall|i: int| 0 <= i < next.len() implies charset_byte(#[trigger] next[i]) by {
            assert(next[i] == bs[i + 3]);
        }
        lemma_decode_chunks(next, tail);
        assert(next.len() / 3 == bs.len() / 3 - 1);
        assert(byte_chars(bs.take(3)) + byte_chars(next.take((3 * (next.len() / 3)) as int)) =~= byte_chars(
            bs.take((3 * (bs.len() / 3)) as int),
        ));
    }
}

/// Decoding the encoding of a string of the charset gives the string back,
/// and takes exactly the bytes of the encoding, whatever follows.
pub proof fn lemma_fivebit_roundtrip(s: Seq<char>, rest: Seq<u8>)
    requires
        forall|i: int| 0 <= i < s.len() ==> encodable(#[trigger] s[i]),
    ensures
        valid_header(header_nibble(ascii_bytes(s))),
        fivebit_decode(header_nibble(ascii_bytes(s)), fivebit_bytes(ascii_bytes(s)) + rest) == (
            Ok::<Seq<char>, DecodeError>(s),
            fivebit_bytes(ascii_bytes(s)).len(),
        ),
{
    let bs = ascii_bytes(s);
    let len = bs.len();
    assert forall|i: int| 0 <= i < len implies charset_byte(#[trigger] bs[i]) by {
        assert(encodable(s[i]));
    }
    assert(byte_chars(bs) =~= s) by {
        assert forall|i: int| 0 <= i < len implies byte_chars(bs)[i] == s[i] by {
            assert(encodable(s[i]));
        }
    }
    let h = header_nibble(bs);
    let enc = fivebit_bytes(bs) + rest;
    if len == 1 {
        assert(chunk_bytes(bs) =~= seq![]);
        assert(enc[0] == bs[0]);
        assert(seq![bs[0] as char] =~= s);
        assert(fivebit_decode(h, enc) == (Ok::<Seq<char>, DecodeError>(s), fivebit_bytes(bs).len()));
    } else if len == 0 {
        assert(fivebit_bytes(bs) =~= seq![]);
        assert(s =~= seq![]);
        assert(fivebit_decode(h, enc) == (Ok::<Seq<char>, DecodeError>(s), fivebit_bytes(bs).len()));
    } else if len == 2 {
        let a = byte_index(bs[0]);
        let b = byte_index(bs[1]);
        lemma_index_roundtrip(bs[0]);
        lemma_index_roundtrip(bs[1]);
        assert(chunk_bytes(bs) =~= seq![]);
        let x = (a << 5u8) | b;
        assert(enc[0] == x);
        assert(h == 12u8 | (a >> 3u8));
        assert(((h & 12u8) == 12u8) && ((h & 3u8) << 3u8) | (x >> 5u8) == a && x & 31u8 == b
            && h != 1 && h != 5) by (bit_vector)
            requires
                a < 32,
                b < 32,
                h == 12u8 | (a >> 3u8),
                x == (a << 5u8) | b,
        ;
        assert(seq![index_char(a), index_char(b)] =~= s);
        assert(fivebit_decode(h, enc) == (Ok::<Seq<char>, DecodeError>(s), fivebit_bytes(bs).len()));
    } else {
        lemma_decode_chunks(bs, remainder_bytes(bs) + rest);
        assert(enc =~= chunk_bytes(bs) + (remainder_bytes(bs) + rest));
        let q = len / 3;
        assert(0u8 & 12u8 == 0u8) by (bit_vector);
        assert(4u8 & 12u8 == 4u8) by (bit_vector);
        let (t, n) = decode_triples(enc);
        assert(n == 2 * q);
        if len % 3 == 0 {
            assert(bs.take((3 * q) as int) =~= bs);
            assert(remainder_bytes(bs) =~= seq![]);
            assert(h == 0);
            assert(t == s);
            assert(fivebit_bytes(bs).len() == n);
            assert(fivebit_decode(h, enc) == (Ok::<Seq<char>, DecodeError>(s), fivebit_bytes(bs).len()));
        } else if len % 3 == 1 {
            assert(enc.skip(n as int) =~= remainder_bytes(bs) + rest);
            assert(h == 4);
            assert(t == byte_chars(bs.take((3 * q) as int)));
            assert(t.push(bs[len - 1] as char) =~= byte_chars(bs));
            assert(fivebit_bytes(bs).len() == n + 1);
            assert(fivebit_decode(h, enc) == (Ok::<Seq<char>, DecodeError>(s), fivebit_bytes(bs).len()));
        } else {
            let a = byte_index(bs[len - 2]);
            let b = byte_index(bs[len - 1]);
            lemma_index_roundtrip(bs[len - 2]);
            lemma_index_roundtrip(bs[len - 1]);
            let x = (a << 5u8) | b;
            assert(enc.skip(n as int) =~= remainder_bytes(bs) + rest);
            assert(enc.skip(n as int)[0] == x);
            assert(h == 8u8 | (a >> 3u8));
            assert(((h & 12u8) == 8u8) && ((h & 3u8) << 3u8) | (x >> 5u8) == a && x & 31u8 == b
                && h != 1 && h != 5 && h != 0 && h != 4) by (bit_vector)
                requires
                    a < 32,
                    b < 32,
                    h == 8u8 | (a >> 3u8),
                    x == (a << 5u8) | b,
            ;
            assert(t == byte_chars(bs.take((3 * q) as int)));
            assert(t.push(index_char(a)).push(index_char(b)) =~= byte_chars(bs));
            assert(fivebit_bytes(bs).len() == n + 1);
            assert(fivebit_decode(h, enc) == (Ok::<Seq<char>, DecodeError>(s), fivebit_bytes(bs).len()));
        }
    }
}

} // verus!
