//! Four-bit charsets for strings that are mostly digits: two characters to a
//! byte, the high nibble first; the nibble 15 ends the string.
use vstd::prelude::*;

use crate::serialize_min::DecodeError;
use vstd::string::StringSliceAdditionalSpecFns;
use crate::text::push_char;
use super::latin_lowercase_fivebit::{ascii_bytes, byte_chars};

verus! {

broadcast use vstd::string::group_string_axioms;

/// The three four-bit charsets. Each maps the digits to 0-9 and five more
/// characters to 10-14.
#[derive(Clone, Copy, Debug, PartialEq, Eq, Structural)]
pub enum FourbitCharset {
    /// Digits, `(`, `)`, `+`, a space and `-`.
    PhoneNumber,
    /// Digits, `,`, `-`, a space, `/` and `.`.
    MostlyNumeric,
    /// Digits, `Q`, `a`, `b`, a space and `.`.
    NumericIdentifier,
}

/// The code of a byte in charset `cs`, if it has one.
pub open spec fn char_code(cs: FourbitCharset, b: u8) -> Option<u8> {
    if 48 <= b && b <= 57 {
        Some((b - 48) as u8)
    } else {
        match cs {
            FourbitCharset::PhoneNumber => {
                if b == 40 {
                    Some(10u8)
                } else if b == 41 {
                    Some(11u8)
                } else if b == 43 {
                    Some(12u8)
                } else if b == 32 {
                    Some(13u8)
                } else if b == 45 {
                    Some(14u8)
                } else {
                    None
                }
            },
            FourbitCharset::MostlyNumeric => {
                if b == 44 {
                    Some(10u8)
                } else if b == 45 {
                    Some(11u8)
                } else if b == 32 {
                    Some(12u8)
                } else if b == 47 {
                    Some(13u8)
                } else if b == 46 {
                    Some(14u8)
                } else {
                    None
                }
            },
            FourbitCharset::NumericIdentifier => {
                if b == 81 {
                    Some(10u8)
                } else if b == 97 {
                    Some(11u8)
                } else if b == 98 {
                    Some(12u8)
                } else if b == 32 {
                    Some(13u8)
                } else if b == 46 {
                    Some(14u8)
                } else {
                    None
                }
            },
        }
    }
}

/// The byte that code `n` stands for in charset `cs`, if any.
pub open spec fn code_char(cs: FourbitCharset, n: u8) -> Option<u8> {
    if n <= 9 {
        Some((n + 48) as u8)
    } else {
        match cs {
            FourbitCharset::PhoneNumber => {
                if n == 10 {
                    Some(40u8)
                } else if n == 11 {
                    Some(41u8)
                } else if n == 12 {
                    Some(43u8)
                } else if n == 13 {
                    Some(32u8)
                } else if n == 14 {
                    Some(45u8)
                } else {
                    None
                }
            },
            FourbitCharset::MostlyNumeric => {
                if n == 10 {
                    Some(44u8)
                } else if n == 11 {
                    Some(45u8)
                } else if n == 12 {
                    Some(32u8)
                } else if n == 13 {
                    Some(47u8)
                } else if n == 14 {
                    Some(46u8)
                } else {
                    None
                }
            },
            FourbitCharset::NumericIdentifier => {
                if n == 10 {
                    Some(81u8)
                } else if n == 11 {
                    Some(97u8)
                } else if n == 12 {
                    Some(98u8)
                } else if n == 13 {
                    Some(32u8)
                } else if n == 14 {
                    Some(46u8)
                } else {
                    None
                }
            },
        }
    }
}

/// Whether a character is in charset `cs`.
pub open spec fn in_fourbit_charset(cs: FourbitCharset, c: char) -> bool {
    '\0' <= c <= '\u{7f}' && char_code(cs, c as u8) is Some
}

/// The nibble that a byte of the input becomes: 15 for a zero byte.
pub open spec fn nibble_of(cs: FourbitCharset, b: u8) -> Option<u8> {
    if b == 0 {
        Some(15u8)
    } else {
        char_code(cs, b)
    }
}

/// The encoding of `bs` in charset `cs`, pair by pair, an odd last byte paired
/// with a zero; `None` when a byte has no code.
pub open spec fn fourbit_encode(cs: FourbitCharset, bs: Seq<u8>) -> Option<Seq<u8>>
    decreases bs.len(),
{
    if bs.len() == 0 {
        Some(seq![])
    } else {
        let a = bs[0];
        let b = if bs.len() >= 2 {
            bs[1]
        } else {
            0u8
        };
        let tail = if bs.len() >= 2 {
            bs.skip(2)
        } else {
            seq![]
        };
        match (nibble_of(cs, a), nibble_of(cs, b)) {
            (Some(x), Some(y)) => match fourbit_encode(cs, tail) {
                Some(r) => Some(seq![(x * 16 + y) as u8] + r),
                None => None,
            },
            _ => None,
        }
    }
}

/// What decoding reads in charset `cs` from the front of `bytes`: the
/// characters up to the first nibble without a character, or the error, and the
/// number of bytes taken.
pub open spec fn fourbit_decode(cs: FourbitCharset, bytes: Seq<u8>) -> (
    Result<Seq<char>, DecodeError>,
    nat,
)
    decreases bytes.len(),
{
    if bytes.len() == 0 {
        (Err(DecodeError::UnexpectedEof), 0)
    } else {
        let a = bytes[0] / 16;
        let b = bytes[0] % 16;
        match code_char(cs, a) {
            None => (Ok(seq![]), 1),
            Some(ca) => match code_char(cs, b) {
                None => (Ok(seq![ca as char]), 1),
                Some(cb) => {
                    let (r, n) = fourbit_decode(cs, bytes.skip(1));
                    (
                        match r {
                            Ok(t) => Ok(seq![ca as char, cb as char] + t),
                            Err(e) => Err(e),
                        },
                        n + 1,
                    )
                },
            },
        }
    }
}

fn char_to_charset(cs: FourbitCharset, b: u8) -> (r: Option<u8>)
    ensures
        r == char_code(cs, b),
{
    if b >= 48 && b <= 57 {
        return Some(b - 48);
    }
    match cs {
        FourbitCharset::PhoneNumber => match b {
            40 => Some(10),
            41 => Some(11),
            43 => Some(12),
            32 => Some(13),
            45 => Some(14),
            _ => None,
        },
        FourbitCharset::MostlyNumeric => match b {
            44 => Some(10),
            45 => Some(11),
            32 => Some(12),
            47 => Some(13),
            46 => Some(14),
            _ => None,
        },
        FourbitCharset::NumericIdentifier => match b {
            81 => Some(10),
            97 => Some(11),
            98 => Some(12),
            32 => Some(13),
            46 => Some(14),
            _ => None,
        },
    }
}

fn charset_to_char(cs: FourbitCharset, n: u8) -> (r: Option<u8>)
    ensures
        r == code_char(cs, n),
{
    if n <= 9 {
        return Some(n + 48);
    }
    match cs {
        FourbitCharset::PhoneNumber => match n {
            10 => Some(40),
            11 => Some(41),
            12 => Some(43),
            13 => Some(32),
            14 => Some(45),
            _ => None,
        },
        FourbitCharset::MostlyNumeric => match n {
            10 => Some(44),
            11 => Some(45),
            12 => Some(32),
            13 => Some(47),
            14 => Some(46),
            _ => None,
        },
        FourbitCharset::NumericIdentifier => match n {
            10 => Some(81),
            11 => Some(97),
            12 => Some(98),
            13 => Some(32),
            14 => Some(46),
            _ => None,
        },
    }
}

/// Whether every character of `str` is in charset `cs`.
pub fn fits_charset(cs: FourbitCharset, str: &str) -> (r: bool)
    ensures
        r == forall|i: int| 0 <= i < str@.len() ==> in_fourbit_charset(cs, #[trigger] str@[i]),
{
    if !str.is_ascii() {
        proof {
            let i = choose|i: int| 0 <= i < str@.len() && !('\0' <= #[trigger] str@[i] <= '\u{7f}');
            assert(!in_fourbit_charset(cs, str@[i]));
        }
        return false;
    }
    let bytes = str.as_bytes();
    proof {
        vstd::string::is_ascii_spec_bytes(str);
    }
    let mut i: usize = 0;
    while i < bytes.len()
        invariant
            bytes@ =~= Seq::new(str@.len(), |j: int| str@[j] as u8),
            i <= bytes@.len() == str@.len(),
            vstd::string::is_ascii(str),
            forall|j: int| 0 <= j < i ==> in_fourbit_charset(cs, #[trigger] str@[j]),
        decreases bytes.len() - i,
    {
        if char_to_charset(cs, bytes[i]).is_none() {
            assert(!in_fourbit_charset(cs, str@[i as int]));
            return false;
        }
        i = i + 1;
    }
    true
}

/// Encodes `str` in charset `cs`; `None` when a byte of it has no code.
pub fn from_string(cs: FourbitCharset, str: &str) -> (r: Option<Vec<u8>>)
    ensures
        match fourbit_encode(cs, str.spec_bytes()) {
            Some(e) => r matches Some(v) && v@ == e,
            None => r is None,
        },
{
    let bytes = str.as_bytes();
    let len = bytes.len();
    let mut value: Vec<u8> = Vec::new();
    let mut i: usize = 0;
    assert(bytes@.skip(0) =~= bytes@);
    while i < len
        invariant
            len == bytes@.len(),
            bytes@ == str.spec_bytes(),
            i <= len,
            fourbit_encode(cs, bytes@) == match fourbit_encode(cs, bytes@.skip(i as int)) {
                Some(r) => Some(value@ + r),
                None => None::<Seq<u8>>,
            },
        decreases len + 1 - i,
    {
        let ghost rest = bytes@.skip(i as int);
        let a = bytes[i];
        let b = if i + 1 < len {
            bytes[i + 1]
        } else {
            0
        };
        let na = if a == 0 {
            Some(15u8)
        } else {
            char_to_charset(cs, a)
        };
        let nb = if b == 0 {
            Some(15u8)
        } else {
            char_to_charset(cs, b)
        };
        let next = if i + 1 < len {
            i + 2
        } else {
            len
        };
        assert(rest[0] == a);
        assert((if rest.len() >= 2 {
            rest.skip(2)
        } else {
            seq![]
        }) =~= bytes@.skip(next as int));
        match (na, nb) {
            (Some(x), Some(y)) => {
                let ghost old_value = value@;
                value.push(x * 16 + y);
                proof {
                    match fourbit_encode(cs, bytes@.skip(next as int)) {
                        Some(r) => {
                            assert(old_value + (seq![(x * 16 + y) as u8] + r) =~= value@ + r);
                        },
                        None => {},
                    }
                }
            },
            _ => {
                return None;
            },
        }
        i = next;
    }
    assert(bytes@.skip(i as int) =~= seq![]);
    assert(value@ + seq![] =~= value@);
    Some(value)
}

/// Reads a string in charset `cs` from the front of `bytes` and moves `bytes`
/// past what it read.
pub fn to_string(cs: FourbitCharset, bytes: &mut &[u8]) -> (r: Result<String, DecodeError>)
    ensures
        ({
            let (res, n) = fourbit_decode(cs, old(bytes)@);
            &&& final(bytes)@ == old(bytes)@.skip(n as int)
            &&& match res {
                Ok(cs) => r matches Ok(s) && s@ == cs,
                Err(e) => r == Err::<String, DecodeError>(e),
            }
        }),
{
    let cur: &[u8] = *bytes;
    let len = cur.len();
    let mut s = String::new();
    let mut i: usize = 0;
    let mut eof = false;
    assert(cur@.skip(0) =~= cur@);
    let ghost full = fourbit_decode(cs, cur@);
    loop
        invariant_except_break
            len == cur@.len(),
            i <= len,
            full == fourbit_decode(cs, cur@),
            !eof,
            ({
                let (res, n) = fourbit_decode(cs, cur@.skip(i as int));
                full == (
                    match res {
                        Ok(t) => Ok(s@ + t),
                        Err(e) => Err(e),
                    },
                    (n + i) as nat,
                )
            }),
        ensures
            i <= len,
            full.1 == i,
            eof ==> full.0 == Err::<Seq<char>, DecodeError>(DecodeError::UnexpectedEof),
            !eof ==> full.0 == Ok::<Seq<char>, DecodeError>(s@),
        decreases len - i,
    {
        let ghost rest = cur@.skip(i as int);
        if i == len {
            eof = true;
            break ;
        }
        let byte = cur[i];
        let a = byte / 16;
        let b = byte % 16;
        assert(rest[0] == byte);
        assert(rest.skip(1) =~= cur@.skip(i + 1));
        i = i + 1;
        let ca = match charset_to_char(cs, a) {
            Some(c) => c,
            None => {
                assert(s@ + seq![] =~= s@);
                break ;
            },
        };
        let ghost old_s = s@;
        push_char(&mut s, ca as char);
        let cb = match charset_to_char(cs, b) {
            Some(c) => c,
            None => {
                assert(old_s + seq![ca as char] =~= s@);
                break ;
            },
        };
        push_char(&mut s, cb as char);
        proof {
            let (res, n) = fourbit_decode(cs, cur@.skip(i as int));
            match res {
                Ok(t) => {
                    assert(old_s + (seq![ca as char, cb as char] + t) =~= s@ + t);
                },
                Err(e) => {},
            }
        }
    }
    let (_, rest) = cur.split_at(i);
    assert(rest@ =~= cur@.skip(i as int));
    *bytes = rest;
    if eof {
        return Err(DecodeError::UnexpectedEof);
    }
    Ok(s)
}

proof fn lemma_code_inverse(cs: FourbitCharset, b: u8)
    requires
        char_code(cs, b) is Some,
    ensures
        b != 0,
        char_code(cs, b).unwrap() < 15,
        code_char(cs, char_code(cs, b).unwrap()) == Some(b),
        code_char(cs, 15) is None,
{
}

proof fn lemma_fourbit_pairs(cs: FourbitCharset, bs: Seq<u8>, rest: Seq<u8>)
    requires
        bs.len() % 2 == 1,
        forall|i: int| 0 <= i < bs.len() ==> char_code(cs, #[trigger] bs[i]) is Some,
    ensures
        fourbit_encode(cs, bs) is Some,
        fourbit_encode(cs, bs).unwrap().len() == (bs.len() + 1) / 2,
        fourbit_decode(cs, fourbit_encode(cs, bs).unwrap() + rest) == (
            Ok::<Seq<char>, DecodeError>(byte_chars(bs)),
            fourbit_encode(cs, bs).unwrap().len(),
        ),
    decreases bs.len(),
{
    lemma_code_inverse(cs, bs[0]);
    let x = char_code(cs, bs[0]).unwrap();
    if bs.len() == 1 {
        let e = fourbit_encode(cs, bs).unwrap();
        assert(fourbit_encode(cs, seq![]) == Some(Seq::<u8>::empty()));
        assert(e =~= seq![(x * 16 + 15) as u8]);
        assert((e + rest)[0] == (x * 16 + 15) as u8);
        assert(seq![(bs[0] as char)] =~= byte_chars(bs));
    } else {
        lemma_code_inverse(cs, bs[1]);
        let y = char_code(cs, bs[1]).unwrap();
        let tail = bs.skip(2);
        assert forall|i: int| 0 <= i < tail.len() implies char_code(cs, #[trigger] tail[i]) is Some by {
            assert(tail[i] == bs[i + 2]);
        }
        lemma_fourbit_pairs(cs, tail, rest);
        let et = fourbit_encode(cs, tail).unwrap();
        let e = fourbit_encode(cs, bs).unwrap();
        assert(e =~= seq![(x * 16 + y) as u8] + et);
        assert((e + rest)[0] == (x * 16 + y) as u8);
        assert((e + rest).skip(1) =~= et + rest);
        assert(seq![bs[0] as char, bs[1] as char] + byte_chars(tail) =~= byte_chars(bs));
    }
}

/// Decoding the encoding of a string of the charset of odd length gives the
/// string back and takes exactly the bytes of the encoding.
pub proof fn lemma_fourbit_roundtrip(cs: FourbitCharset, s: Seq<char>, rest: Seq<u8>)
    requires
        s.len() % 2 == 1,
        forall|i: int| 0 <= i < s.len() ==> in_fourbit_charset(cs, #[trigger] s[i]),
    ensures
        fourbit_encode(cs, ascii_bytes(s)) is Some,
        fourbit_decode(cs, fourbit_encode(cs, ascii_bytes(s)).unwrap() + rest) == (
            Ok::<Seq<char>, DecodeError>(s),
            fourbit_encode(cs, ascii_bytes(s)).unwrap().len(),
        ),
{
    let bs = ascii_bytes(s);
    assert forall|i: int| 0 <= i < bs.len() implies char_code(cs, #[trigger] bs[i]) is Some by {
        assert(in_fourbit_charset(cs, s[i]));
    }
    assert(byte_chars(bs) =~= s) by {
        assert forall|i: int| 0 <= i < s.len() implies byte_chars(bs)[i] == s[i] by {
            assert(in_fourbit_charset(cs, s[i]));
        }
    }
    lemma_fourbit_pairs(cs, bs, rest);
}

} // verus!
