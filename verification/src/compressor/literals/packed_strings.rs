use vstd::prelude::*;

use crate::text::push_char;
use vstd::string::StringSliceAdditionalSpecFns;

verus! {

broadcast use vstd::string::group_string_axioms;

/// A string packed by its alphabet.
#[derive(Debug)]
pub enum PackedString {
    LowerLatinUnderscoreHyphenColonFiveBit(Vec<u8>),
    CasedLatinUnderscoreHyphenColonSixBit(Vec<u8>),
    Ascii(Vec<u8>),
    Unicode(String),
}

/// ASCII bytes with the high bit set on the last one.
pub open spec fn ascii_marked(bytes: Seq<u8>) -> Seq<u8> {
    Seq::new(
        bytes.len(),
        |i: int|
            if i == bytes.len() - 1 {
                bytes[i] | 0x80u8
            } else {
                bytes[i]
            },
    )
}

impl PackedString {
    /// Packs a string: ASCII as its bytes with the high bit set on the last
    /// one, anything else as it is.
    pub fn from(value: &str) -> (r: PackedString)
        requires
            vstd::string::is_ascii(value) ==> value@.len() > 0,
        ensures
            vstd::string::is_ascii(value) ==> (r matches PackedString::Ascii(b) && b@
                == ascii_marked(value.spec_bytes())),
            !vstd::string::is_ascii(value) ==> (r matches PackedString::Unicode(s) && s@ == value@),
    {
        if value.is_ascii() {
            let bytes = value.as_bytes();
            proof {
                vstd::string::is_ascii_spec_bytes(value);
            }
            let len = bytes.len();
            let last_index = len - 1;
            let mut out: Vec<u8> = Vec::new();
            let mut i: usize = 0;
            while i < len
                invariant
                    len == bytes@.len(),
                    last_index == len - 1,
                    i <= len,
                    out@ == ascii_marked(bytes@).take(i as int),
                decreases len - i,
            {
                let x = bytes[i];
                if i == last_index {
                    out.push(x | 0b1000_0000u8);
                } else {
                    out.push(x);
                }
                i = i + 1;
                assert(out@ =~= ascii_marked(bytes@).take(i as int));
            }
            assert(out@ =~= ascii_marked(bytes@));
            PackedString::Ascii(out)
        } else {
            PackedString::Unicode(String::from_str(value))
        }
    }

    /// The bytes a packed string stores.
    pub fn packed_bytes(&self) -> (r: Vec<u8>)
        ensures
            match self {
                PackedString::LowerLatinUnderscoreHyphenColonFiveBit(b) => r@ == b@,
                PackedString::CasedLatinUnderscoreHyphenColonSixBit(b) => r@ == b@,
                PackedString::Ascii(b) => r@ == b@,
                PackedString::Unicode(s) => r@ == vstd::utf8::encode_utf8(s@),
            },
    {
        match self {
            PackedString::LowerLatinUnderscoreHyphenColonFiveBit(b) => copy_bytes(b.as_slice()),
            PackedString::CasedLatinUnderscoreHyphenColonSixBit(b) => copy_bytes(b.as_slice()),
            PackedString::Ascii(b) => copy_bytes(b.as_slice()),
            PackedString::Unicode(s) => copy_bytes(s.as_str().as_bytes()),
        }
    }

    /// The string of an ASCII or unicode packing. The bytes of an ASCII one
    /// become characters with their high bit flipped.
    pub fn into_string(self) -> (r: String)
        requires
            self is Ascii || self is Unicode,
        ensures
            match self {
                PackedString::Unicode(s) => r@ == s@,
                PackedString::Ascii(b) => r@ == Seq::new(b@.len(), |i: int| (b@[i] ^ 0x80u8) as char),
                _ => false,
            },
    {
        match self {
            PackedString::Unicode(s) => s,
            PackedString::Ascii(b) => {
                let mut out = String::new();
                let mut i: usize = 0;
                while i < b.len()
                    invariant
                        i <= b@.len(),
                        out@ == Seq::new(i as nat, |j: int| (b@[j] ^ 0x80u8) as char),
                    decreases b@.len() - i,
                {
                    push_char(&mut out, (b[i] ^ 0b1000_0000u8) as char);
                    i = i + 1;
                    assert(out@ =~= Seq::new(i as nat, |j: int| (b@[j] ^ 0x80u8) as char));
                }
                out
            },
            _ => String::new(),
        }
    }
}

/// A copy of `bytes`.
fn copy_bytes(bytes: &[u8]) -> (r: Vec<u8>)
    ensures
        r@ == bytes@,
{
    let mut out: Vec<u8> = Vec::new();
    let mut i: usize = 0;
    while i < bytes.len()
        invariant
            i <= bytes@.len(),
            out@ == bytes@.take(i as int),
        decreases bytes@.len() - i,
    {
        out.push(bytes[i]);
        i = i + 1;
        assert(out@ =~= bytes@.take(i as int));
    }
    assert(out@ =~= bytes@);
    out
}

} // verus!
