//! Encodings that need no remainder bits in the header: a single ASCII byte, or
//! one of the four-bit charsets.
use vstd::prelude::*;

use crate::serialize_min::{DecodeError, ReadExtReadOne};
use crate::text::push_char;
use super::fourbits::{
    char_code,
    fourbit_decode,
    fourbit_encode,
    from_string,
    lemma_fourbit_roundtrip,
    to_string,
    FourbitCharset,
};
use super::latin_lowercase_fivebit::{ascii_bytes, byte_chars};
use vstd::string::StringSliceAdditionalSpecFns;

verus! {

broadcast use vstd::string::group_string_axioms;

pub const NIBBLE_PHONENUMBER_FOURBIT: u8 = 0;

pub const NIBBLE_MOSTLY_NUMERIC_FOURBIT: u8 = 1;

pub const NIBBLE_NUM_IDENTIFIER_FOURBIT: u8 = 2;

pub const NIBBLE_ONE_CHAR_BYTE: u8 = 6;

/// The nibble and the bytes of the first encoding that fits `s`: a single ASCII
/// byte, then the mostly numeric, the phone number and the numeric identifier
/// charsets.
pub open spec fn non_remainder_encode(s: &str) -> Option<(u8, Seq<u8>)> {
    let bs = s.spec_bytes();
    if vstd::string::is_ascii(s) && bs.len() == 1 {
        Some((NIBBLE_ONE_CHAR_BYTE, bs))
    } else if fourbit_encode(FourbitCharset::MostlyNumeric, bs) is Some {
        Some((NIBBLE_MOSTLY_NUMERIC_FOURBIT, fourbit_encode(FourbitCharset::MostlyNumeric, bs).unwrap()))
    } else if fourbit_encode(FourbitCharset::PhoneNumber, bs) is Some {
        Some((NIBBLE_PHONENUMBER_FOURBIT, fourbit_encode(FourbitCharset::PhoneNumber, bs).unwrap()))
    } else if fourbit_encode(FourbitCharset::NumericIdentifier, bs) is Some {
        Some(
            (
                NIBBLE_NUM_IDENTIFIER_FOURBIT,
                fourbit_encode(FourbitCharset::NumericIdentifier, bs).unwrap(),
            ),
        )
    } else {
        None
    }
}

/// The charset that a nibble stands for.
pub open spec fn nibble_charset(nibble: u8) -> Option<FourbitCharset> {
    if nibble == NIBBLE_MOSTLY_NUMERIC_FOURBIT {
        Some(FourbitCharset::MostlyNumeric)
    } else if nibble == NIBBLE_PHONENUMBER_FOURBIT {
        Some(FourbitCharset::PhoneNumber)
    } else if nibble == NIBBLE_NUM_IDENTIFIER_FOURBIT {
        Some(FourbitCharset::NumericIdentifier)
    } else {
        None
    }
}

/// What decoding reads for `nibble` from the front of `bytes`: the characters or
/// the error, and the number of bytes taken.
pub open spec fn non_remainder_decode(nibble: u8, bytes: Seq<u8>) -> (
    Result<Seq<char>, DecodeError>,
    nat,
) {
    if nibble == NIBBLE_ONE_CHAR_BYTE {
        if bytes.len() == 0 {
            (Err(DecodeError::UnexpectedEof), 0)
        } else if bytes[0] < 128 {
            (Ok(seq![bytes[0] as char]), 1)
        } else {
            (Err(DecodeError::InvalidData), 1)
        }
    } else {
        match nibble_charset(nibble) {
            Some(cs) => fourbit_decode(cs, bytes),
            None => (Err(DecodeError::InvalidData), 0),
        }
    }
}

/// The first encoding without remainder bits that fits `str`, with its nibble.
pub fn try_into_some_non_remainder_encoding(str: &str) -> (r: Option<(u8, Vec<u8>)>)
    ensures
        match non_remainder_encode(str) {
            Some((n, e)) => r matches Some((rn, re)) && rn == n && re@ == e,
            None => r is None,
        },
{
    if str.is_ascii() && str.len() == 1 {
        let b = str.as_bytes()[0];
        let mut v: Vec<u8> = Vec::new();
        v.push(b);
        assert(v@ =~= str.spec_bytes());
        return Some((NIBBLE_ONE_CHAR_BYTE, v));
    }
    if let Some(fourbit) = from_string(FourbitCharset::MostlyNumeric, str) {
        return Some((NIBBLE_MOSTLY_NUMERIC_FOURBIT, fourbit));
    }
    if let Some(fourbit) = from_string(FourbitCharset::PhoneNumber, str) {
        return Some((NIBBLE_PHONENUMBER_FOURBIT, fourbit));
    }
    if let Some(fourbit) = from_string(FourbitCharset::NumericIdentifier, str) {
        return Some((NIBBLE_NUM_IDENTIFIER_FOURBIT, fourbit));
    }
    None
}

/// Reads a string encoded as `header_nibble` says from the front of `from` and
/// moves `from` past what it read.
pub fn read_some_non_remainder_encoding(header_nibble: u8, from: &mut &[u8]) -> (r: Result<
    String,
    DecodeError,
>)
    ensures
        ({
            let (res, n) = non_remainder_decode(header_nibble, old(from)@);
            &&& final(from)@ == old(from)@.skip(n as int)
            &&& match res {
                Ok(cs) => r matches Ok(s) && s@ == cs,
                Err(e) => r == Err::<String, DecodeError>(e),
            }
        }),
{
    if header_nibble == NIBBLE_ONE_CHAR_BYTE {
        let ghost start = *from;
        assert(start@.skip(0) =~= start@);
        let b = match from.read_one() {
            Ok(b) => b,
            Err(e) => return Err(e),
        };
        assert(from@ =~= start@.skip(1));
        if b < 128 {
            let mut s = String::new();
            push_char(&mut s, b as char);
            return Ok(s);
        }
        return Err(DecodeError::InvalidData);
    }
    if header_nibble == NIBBLE_MOSTLY_NUMERIC_FOURBIT {
        return to_string(FourbitCharset::MostlyNumeric, from);
    }
    if header_nibble == NIBBLE_PHONENUMBER_FOURBIT {
        return to_string(FourbitCharset::PhoneNumber, from);
    }
    if header_nibble == NIBBLE_NUM_IDENTIFIER_FOURBIT {
        return to_string(FourbitCharset::NumericIdentifier, from);
    }
    assert(from@.skip(0) =~= from@);
    Err(DecodeError::InvalidData)
}

proof fn lemma_codes_of_encoded(cs: FourbitCharset, bs: Seq<u8>)
    requires
        fourbit_encode(cs, bs) is Some,
        forall|i: int| 0 <= i < bs.len() ==> #[trigger] bs[i] != 0,
    ensures
        forall|i: int| 0 <= i < bs.len() ==> char_code(cs, #[trigger] bs[i]) is Some,
    decreases bs.len(),
{
    if bs.len() >= 2 {
        let tail = bs.skip(2);
        assert forall|i: int| 0 <= i < tail.len() implies #[trigger] tail[i] != 0 by {
            assert(tail[i] == bs[i + 2]);
        }
        lemma_codes_of_encoded(cs, tail);
        assert forall|i: int| 0 <= i < bs.len() implies char_code(cs, #[trigger] bs[i]) is Some by {
            if i >= 2 {
                assert(bs[i] == tail[i - 2]);
            }
        }
    }
}

proof fn lemma_charset_roundtrip(cs: FourbitCharset, s: &str, rest: Seq<u8>)
    requires
        vstd::string::is_ascii(s),
        s@.len() % 2 == 1,
        forall|i: int| 0 <= i < s@.len() ==> #[trigger] s@[i] != '\0',
        fourbit_encode(cs, s.spec_bytes()) is Some,
    ensures
        fourbit_decode(cs, fourbit_encode(cs, s.spec_bytes()).unwrap() + rest) == (
            Ok::<Seq<char>, DecodeError>(s@),
            fourbit_encode(cs, s.spec_bytes()).unwrap().len(),
        ),
{
    vstd::string::is_ascii_spec_bytes(s);
    let bs = s.spec_bytes();
    assert(bs =~= ascii_bytes(s@));
    assert forall|i: int| 0 <= i < bs.len() implies #[trigger] bs[i] != 0 by {
        assert(s@[i] != '\0');
    }
    lemma_codes_of_encoded(cs, bs);
    assert forall|i: int| 0 <= i < s@.len() implies super::fourbits::in_fourbit_charset(
        cs,
        #[trigger] s@[i],
    ) by {
        assert(char_code(cs, bs[i]) is Some);
    }
    lemma_fourbit_roundtrip(cs, s@, rest);
}

/// Reading back the encoding that `try_into_some_non_remainder_encoding` chose
/// for an ASCII string of odd length without zero characters gives the string
/// and takes exactly the bytes of the encoding.
pub proof fn lemma_non_remainder_roundtrip(s: &str, rest: Seq<u8>)
    requires
        vstd::string::is_ascii(s),
        s@.len() % 2 == 1,
        forall|i: int| 0 <= i < s@.len() ==> #[trigger] s@[i] != '\0',
        non_remainder_encode(s) is Some,
    ensures
        ({
            let (n, e) = non_remainder_encode(s).unwrap();
            non_remainder_decode(n, e + rest) == (Ok::<Seq<char>, DecodeError>(s@), e.len())
        }),
{
    vstd::string::is_ascii_spec_bytes(s);
    let bs = s.spec_bytes();
    if bs.len() == 1 {
        assert((bs + rest)[0] == bs[0]);
        assert(seq![bs[0] as char] =~= s@);
    } else if fourbit_encode(FourbitCharset::MostlyNumeric, bs) is Some {
        lemma_charset_roundtrip(FourbitCharset::MostlyNumeric, s, rest);
    } else if fourbit_encode(FourbitCharset::PhoneNumber, bs) is Some {
        lemma_charset_roundtrip(FourbitCharset::PhoneNumber, s, rest);
    } else {
        lemma_charset_roundtrip(FourbitCharset::NumericIdentifier, s, rest);
    }
}

} // verus!
