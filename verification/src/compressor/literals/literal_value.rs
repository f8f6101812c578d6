use vstd::prelude::*;

use crate::bit_sections::BitSection;
use crate::packed_string_serialization::{
    decode_after_header, encode_chars, lemma_encode_chars, lemma_str_roundtrip,
    readable_after_header, str_minimally_serialize, str_roundtrips, string_deserialize_minimal,
};
use crate::varint::lemma_to_from_varint;
use crate::compressor::osm_tags::{has_key, key_index, Tags};
use crate::serialize_min::{DecodeError, ReadExtReadOne};
use crate::varint::{from_varint, varint_decode, varint_encoding, FromVarint, ToVarint};

verus! {

broadcast use vstd::string::group_string_axioms;

/// How a string value was packed; the two low bits of a string header's
/// variant number.
#[derive(PartialEq, Eq, Debug, Clone, Copy, Structural)]
pub enum StringSerialVariation {
    Fivebit,
    NonRemainder,
    Ascii,
    Unicode,
}

pub open spec fn variation_offset(v: StringSerialVariation) -> u8 {
    match v {
        StringSerialVariation::Fivebit => 0,
        StringSerialVariation::NonRemainder => 1,
        StringSerialVariation::Ascii => 2,
        StringSerialVariation::Unicode => 3,
    }
}

pub fn string_value_enum_offset(variety: StringSerialVariation) -> (r: u8)
    ensures
        r == variation_offset(variety),
{
    match variety {
        StringSerialVariation::Fivebit => 0,
        StringSerialVariation::NonRemainder => 1,
        StringSerialVariation::Ascii => 2,
        StringSerialVariation::Unicode => 3,
    }
}

/// The variation with offset `val`; `InvalidData` above three.
pub fn offset_to_string_value_enum(val: u8) -> (r: Result<StringSerialVariation, DecodeError>)
    ensures
        val < 4 ==> (r matches Ok(v) && variation_offset(v) == val),
        val >= 4 ==> r == Err::<StringSerialVariation, DecodeError>(DecodeError::InvalidData),
{
    match val {
        0 => Ok(StringSerialVariation::Fivebit),
        1 => Ok(StringSerialVariation::NonRemainder),
        2 => Ok(StringSerialVariation::Ascii),
        3 => Ok(StringSerialVariation::Unicode),
        _ => Err(DecodeError::InvalidData),
    }
}

/// Whether `c` is an upper-case latin letter.
pub open spec fn is_upper(c: char) -> bool {
    'A' <= c && c <= 'Z'
}

/// Whether every character of `s` is an upper-case latin letter.
pub fn is_ascii_upper_alpha(s: &str) -> (r: bool)
    ensures
        r == forall|i: int| 0 <= i < s@.len() ==> is_upper(#[trigger] s@[i]),
{
    let n = s.unicode_len();
    let mut i: usize = 0;
    while i < n
        invariant
            n == s@.len(),
            i <= n,
            forall|j: int| 0 <= j < i ==> is_upper(#[trigger] s@[j]),
        decreases n - i,
    {
        let c = s.get_char(i);
        if !('A' <= c && c <= 'Z') {
            return false;
        }
        i = i + 1;
    }
    true
}

/// Whether two strings hold the same characters.
pub fn str_eq(a: &str, b: &str) -> (r: bool)
    ensures
        r == (a@ == b@),
{
    let n = a.unicode_len();
    if n != b.unicode_len() {
        return false;
    }
    let mut i: usize = 0;
    while i < n
        invariant
            n == a@.len() == b@.len(),
            i <= n,
            forall|j: int| 0 <= j < i ==> a@[j] == b@[j],
        decreases n - i,
    {
        if a.get_char(i) != b.get_char(i) {
            return false;
        }
        i = i + 1;
    }
    assert(a@ =~= b@);
    true
}

pub open spec fn is_digit(c: char) -> bool {
    '0' <= c && c <= '9'
}

pub open spec fn all_digits(s: Seq<char>) -> bool {
    forall|i: int| 0 <= i < s.len() ==> is_digit(#[trigger] s[i])
}

/// The number that decimal digits stand for.
pub open spec fn digits_value(s: Seq<char>) -> int
    decreases s.len(),
{
    if s.len() == 0 {
        0
    } else {
        digits_value(s.drop_last()) * 10 + (s.last() as int - '0' as int)
    }
}

/// The integer a string is written as: an optional `+` or `-`, then one or
/// more decimal digits, as Rust's integer parsing reads it.
pub open spec fn decimal_value(s: Seq<char>) -> Option<int> {
    if s.len() > 0 && (s[0] == '-' || s[0] == '+') {
        let rest = s.drop_first();
        if rest.len() > 0 && all_digits(rest) {
            Some(
                if s[0] == '-' {
                    -digits_value(rest)
                } else {
                    digits_value(rest)
                },
            )
        } else {
            None
        }
    } else if s.len() > 0 && all_digits(s) {
        Some(digits_value(s))
    } else {
        None
    }
}

/// The integer in `[min, max]` that `s` is written as, if any.
pub open spec fn parsed_in(s: Seq<char>, min: int, max: int) -> Option<int> {
    match decimal_value(s) {
        Some(v) => if min <= v <= max {
            Some(v)
        } else {
            None
        },
        None => None,
    }
}

proof fn lemma_digits_nonneg(s: Seq<char>)
    requires
        all_digits(s),
    ensures
        digits_value(s) >= 0,
    decreases s.len(),
{
    if s.len() > 0 {
        lemma_digits_nonneg(s.drop_last());
    }
}

proof fn lemma_digits_prefix_le(s: Seq<char>, i: int)
    requires
        all_digits(s),
        0 <= i <= s.len(),
    ensures
        digits_value(s.take(i)) <= digits_value(s),
    decreases s.len() - i,
{
    if i < s.len() {
        lemma_digits_prefix_le(s, i + 1);
        assert(s.take(i + 1).drop_last() =~= s.take(i));
        assert(all_digits(s.take(i)));
        lemma_digits_nonneg(s.take(i));
    } else {
        assert(s.take(i) =~= s);
    }
}

/// Parses `s` as a decimal integer in `[min, max]`, a range within that of
/// 64-bit integers.
fn parse_decimal(s: &str, min: i128, max: i128) -> (r: Option<i128>)
    requires
        -0x8000_0000_0000_0000 <= min <= 0 <= max <= 0x7fff_ffff_ffff_ffff,
    ensures
        match parsed_in(s@, min as int, max as int) {
            Some(v) => r == Some(v as i128),
            None => r is None,
        },
{
    let n = s.unicode_len();
    if n == 0 {
        return None;
    }
    let first = s.get_char(0);
    let negative = first == '-';
    let start: usize = if first == '-' || first == '+' {
        1
    } else {
        0
    };
    if start == n {
        return None;
    }
    let ghost digits = s@.skip(start as int);
    let mut acc: i128 = 0;
    let mut i: usize = start;
    while i < n
        invariant
            n == s@.len(),
            start <= i <= n,
            start < n,
            start == 0 || start == 1,
            start == 1 <==> (s@[0] == '-' || s@[0] == '+'),
            -0x8000_0000_0000_0000 <= min <= 0 <= max <= 0x7fff_ffff_ffff_ffff,
            negative == (s@[0] == '-'),
            digits == s@.skip(start as int),
            forall|j: int| 0 <= j < i - start ==> is_digit(#[trigger] digits[j]),
            acc == digits_value(digits.take(i - start)),
            0 <= acc <= 0x8000_0000_0000_0000,
        decreases n - i,
    {
        let c = s.get_char(i);
        if !('0' <= c && c <= '9') {
            proof {
                assert(!is_digit(digits[i - start]));
                assert(!all_digits(digits));
                if start == 0 {
                    assert(digits =~= s@);
                } else {
                    assert(digits =~= s@.drop_first());
                }
            }
            return None;
        }
        proof {
            assert(digits.take(i - start + 1).drop_last() =~= digits.take(i - start));
        }
        let d: i128 = (c as u32 - '0' as u32) as i128;
        acc = acc * 10 + d;
        i = i + 1;
        assert(acc == digits_value(digits.take(i - start)));
        if acc > 0x8000_0000_0000_0000 {
            proof {
                if start == 0 {
                    assert(digits =~= s@);
                } else {
                    assert(digits =~= s@.drop_first());
                }
                if all_digits(digits) {
                    lemma_digits_prefix_le(digits, i - start);
                    assert(digits_value(digits) > 0x8000_0000_0000_0000);
                    if start == 1 {
                        assert(decimal_value(s@) is Some);
                        assert(decimal_value(s@).unwrap() < min || decimal_value(s@).unwrap() > max);
                    } else {
                        assert(decimal_value(s@) == Some(digits_value(digits)));
                    }
                }
            }
            return None;
        }
    }
    proof {
        assert(digits.take(n - start) =~= digits);
        if start == 0 {
            assert(digits =~= s@);
        } else {
            assert(digits =~= s@.drop_first());
        }
    }
    let v: i128 = if negative {
        -acc
    } else {
        acc
    };
    if v < min || v > max {
        return None;
    }
    Some(v)
}

/// A value of a tag, in the form it is stored in.
#[derive(Debug)]
pub enum LiteralValue {
    BoolYes,
    BoolNo,
    Blank,
    UInt(u64),
    IInt(i64),
    TinyUNumber(u8),
    TinyINumber(i8),
    Date(usize, usize, usize),
    Time(usize, usize),
    ListWithSep(u8, Vec<LiteralValue>),
    TwoUpperLatinAbbrev(u8, u8),
    SplitSemiList(Vec<LiteralValue>),
    String(String),
    Ref(u64),
}

/// The mathematical form of a `LiteralValue`: a string as its characters.
pub enum LiteralValueView {
    BoolYes,
    BoolNo,
    Blank,
    UInt(u64),
    IInt(i64),
    TinyUNumber(u8),
    TinyINumber(i8),
    Date(usize, usize, usize),
    Time(usize, usize),
    ListWithSep(u8, Seq<LiteralValue>),
    TwoUpperLatinAbbrev(u8, u8),
    SplitSemiList(Seq<LiteralValue>),
    String(Seq<char>),
    Ref(u64),
}

impl View for LiteralValue {
    type V = LiteralValueView;

    open spec fn view(&self) -> LiteralValueView {
        match self {
            LiteralValue::BoolYes => LiteralValueView::BoolYes,
            LiteralValue::BoolNo => LiteralValueView::BoolNo,
            LiteralValue::Blank => LiteralValueView::Blank,
            LiteralValue::UInt(n) => LiteralValueView::UInt(*n),
            LiteralValue::IInt(n) => LiteralValueView::IInt(*n),
            LiteralValue::TinyUNumber(n) => LiteralValueView::TinyUNumber(*n),
            LiteralValue::TinyINumber(n) => LiteralValueView::TinyINumber(*n),
            LiteralValue::Date(a, b, c) => LiteralValueView::Date(*a, *b, *c),
            LiteralValue::Time(a, b) => LiteralValueView::Time(*a, *b),
            LiteralValue::ListWithSep(s, l) => LiteralValueView::ListWithSep(*s, l@),
            LiteralValue::TwoUpperLatinAbbrev(a, b) => LiteralValueView::TwoUpperLatinAbbrev(*a, *b),
            LiteralValue::SplitSemiList(l) => LiteralValueView::SplitSemiList(l@),
            LiteralValue::String(s) => LiteralValueView::String(s@),
            LiteralValue::Ref(r) => LiteralValueView::Ref(*r),
        }
    }
}

/// The value that the text of a tag value is stored as: the empty string,
/// `yes` and `no` by name; integers by size (small non-negative ones, small
/// negative ones, other non-negative ones, other negative ones); two
/// upper-case latin letters as their bytes; anything else as a string.
pub open spec fn literal_of(s: Seq<char>) -> LiteralValueView {
    if s.len() == 0 {
        LiteralValueView::Blank
    } else if s == seq!['y', 'e', 's'] {
        LiteralValueView::BoolYes
    } else if s == seq!['n', 'o'] {
        LiteralValueView::BoolNo
    } else if parsed_in(s, i64::MIN as int, i64::MAX as int) is Some {
        let num = parsed_in(s, i64::MIN as int, i64::MAX as int).unwrap();
        if 0 <= num < 63 {
            LiteralValueView::TinyUNumber(num as u8)
        } else if -31 <= num < 31 {
            LiteralValueView::TinyINumber(num as i8)
        } else if num >= 0 {
            LiteralValueView::UInt(num as u64)
        } else {
            LiteralValueView::IInt(num as i64)
        }
    } else if s.len() == 2 && is_upper(s[0]) && is_upper(s[1]) {
        LiteralValueView::TwoUpperLatinAbbrev(s[0] as u8, s[1] as u8)
    } else {
        LiteralValueView::String(s)
    }
}

/// The number a value stands for, if it is one: integers (converted to
/// `isize`, wrapping where they do not fit) and strings that are written as
/// one in the range of `isize`.
pub open spec fn number_of(v: LiteralValueView) -> Option<isize> {
    match v {
        LiteralValueView::UInt(num) => Some(num as isize),
        LiteralValueView::IInt(num) => Some(num as isize),
        LiteralValueView::TinyUNumber(num) => Some(num as isize),
        LiteralValueView::TinyINumber(num) => Some(num as isize),
        LiteralValueView::String(s) => match parsed_in(s, isize::MIN as int, isize::MAX as int) {
            Some(n) => Some(n as isize),
            None => None,
        },
        _ => None,
    }
}

/// The number of a value read from decimal text is the integer that the
/// text is written as, wherever that integer fits an `isize`: small or large,
/// positive or negative.
pub proof fn lemma_decimal_text_is_its_number(s: Seq<char>)
    requires
        decimal_value(s) is Some,
        isize::MIN <= decimal_value(s).unwrap() <= isize::MAX,
    ensures
        number_of(literal_of(s)) matches Some(m) && m as int == decimal_value(s).unwrap(),
{
    let n = decimal_value(s).unwrap();
    assert(s != seq!['y', 'e', 's']) by {
        if s == seq!['y', 'e', 's'] {
            assert(s[0] == 'y');
            assert(!all_digits(s)) by {
                assert(s[0] == 'y');
            }
        }
    }
    assert(s != seq!['n', 'o']) by {
        if s == seq!['n', 'o'] {
            assert(s[0] == 'n');
        }
    }
    assert(i64::MIN <= n <= i64::MAX);
    assert(parsed_in(s, i64::MIN as int, i64::MAX as int) == Some(n));
}

/// The text that a value that is not a number stands for: the empty
/// string, `yes`, `no`, its two letters, or the string itself.
pub open spec fn text_of(v: LiteralValueView) -> Option<Seq<char>> {
    match v {
        LiteralValueView::Blank => Some(seq![]),
        LiteralValueView::BoolYes => Some(seq!['y', 'e', 's']),
        LiteralValueView::BoolNo => Some(seq!['n', 'o']),
        LiteralValueView::TwoUpperLatinAbbrev(a, b) => Some(seq![a as char, b as char]),
        LiteralValueView::String(t) => Some(t),
        _ => None,
    }
}

/// Text that is not written as an integer is kept as the text it is: the
/// value stands for exactly that text, and is no number.
pub proof fn lemma_other_text_is_kept(s: Seq<char>)
    requires
        decimal_value(s) is None,
    ensures
        text_of(literal_of(s)) == Some(s),
        number_of(literal_of(s)) is None,
{
    if s.len() == 0 {
        assert(s =~= seq![]);
    } else if s.len() == 2 && is_upper(s[0]) && is_upper(s[1]) && s != seq!['n', 'o'] {
        assert(seq![(s[0] as u8) as char, (s[1] as u8) as char] =~= s);
    }
}

/// The variants that have an encoding.
pub open spec fn serializable(v: LiteralValueView) -> bool {
    !(v is Date || v is Time || v is ListWithSep || v is SplitSemiList || v is Ref)
}

/// The low nibble of a small signed number: its magnitude, with bit three
/// set when negative.
pub open spec fn tiny_signed_nibble(n: i8) -> u8 {
    let abs: u8 = if n < 0 {
        (-(n as int)) as u8
    } else {
        n as u8
    };
    abs | if n < 0 {
        8u8
    } else {
        0u8
    }
}

/// The bytes a value is written as: a header byte whose high nibble names
/// the variant, then the payload.
pub open spec fn literal_value_bytes(v: LiteralValueView) -> Seq<u8> {
    match v {
        LiteralValueView::BoolYes => seq![0x00u8],
        LiteralValueView::BoolNo => seq![0x10u8],
        LiteralValueView::Blank => seq![0x20u8],
        LiteralValueView::UInt(num) => seq![0x30u8] + varint_encoding(num as nat),
        LiteralValueView::IInt(num) => seq![0x40u8] + varint_encoding(num.varint_value()),
        LiteralValueView::TinyUNumber(num) => seq![0x50u8 | num],
        LiteralValueView::TinyINumber(num) => seq![0x60u8 | tiny_signed_nibble(num)],
        LiteralValueView::TwoUpperLatinAbbrev(a, b) => seq![0xa0u8, a, b],
        LiteralValueView::String(s) => seq![0xf0u8] + encode_chars(s, 0),
        _ => Seq::empty(),
    }
}

/// The small signed number a low nibble stands for.
pub open spec fn tiny_signed_of(nibble: u8) -> i8 {
    let m = (nibble & 7u8) as int;
    if nibble & 8u8 != 0 {
        (-m) as i8
    } else {
        m as i8
    }
}

/// The inputs that reading handles: not a header of a variant without an
/// encoding, and a string only where the string decoder handles it.
pub open spec fn literal_value_readable(bytes: Seq<u8>) -> bool {
    bytes.len() > 0 ==> {
        let variant = bytes[0] >> 4u8;
        &&& variant != 7 && variant != 8 && variant != 9 && variant != 11
        &&& variant >= 12 && bytes.len() > 1 ==> readable_after_header(bytes[1], bytes.skip(2))
    }
}

/// What reading a value from the front of `bytes` gives, and how many bytes
/// it takes.
pub open spec fn literal_value_read(bytes: Seq<u8>) -> (Result<LiteralValueView, DecodeError>, nat) {
    if bytes.len() == 0 {
        (Err(DecodeError::UnexpectedEof), 0)
    } else {
        let h = bytes[0];
        let variant = h >> 4u8;
        let lower = h & 15u8;
        let rest = bytes.drop_first();
        if variant == 0 {
            (Ok(LiteralValueView::BoolYes), 1)
        } else if variant == 1 {
            (Ok(LiteralValueView::BoolNo), 1)
        } else if variant == 2 {
            (Ok(LiteralValueView::Blank), 1)
        } else if variant == 3 {
            match varint_decode(rest, <u64 as FromVarint>::varint_modulus()) {
                Some((u, n)) => (Ok(LiteralValueView::UInt(u as u64)), n + 1),
                None => (Err(DecodeError::UnexpectedEof), bytes.len()),
            }
        } else if variant == 4 {
            match varint_decode(rest, <i64 as FromVarint>::varint_modulus()) {
                Some((u, n)) => (Ok(LiteralValueView::IInt(<i64 as FromVarint>::from_varint_value(u))), n + 1),
                None => (Err(DecodeError::UnexpectedEof), bytes.len()),
            }
        } else if variant == 5 {
            (Ok(LiteralValueView::TinyUNumber(lower)), 1)
        } else if variant == 6 {
            (Ok(LiteralValueView::TinyINumber(tiny_signed_of(lower))), 1)
        } else if variant == 10 {
            if rest.len() < 2 {
                (Err(DecodeError::UnexpectedEof), bytes.len())
            } else {
                (Ok(LiteralValueView::TwoUpperLatinAbbrev(rest[0], rest[1])), 3)
            }
        } else {
            if rest.len() == 0 {
                (Err(DecodeError::UnexpectedEof), 1)
            } else {
                let (r, n) = decode_after_header(rest[0], rest.drop_first());
                (
                    match r {
                        Ok(cs) => Ok(LiteralValueView::String(cs)),
                        Err(e) => Err(e),
                    },
                    n + 2,
                )
            }
        }
    }
}

/// The value of tag `k` taken out of the tags `s`, and the tags left.
pub open spec fn take_field(s: Seq<(Seq<char>, Seq<char>)>, k: Seq<char>) -> (
    Option<LiteralValueView>,
    Seq<(Seq<char>, Seq<char>)>,
) {
    if has_key(s, k) {
        (Some(literal_of(s[key_index(s, k)].1)), s.remove(key_index(s, k)))
    } else {
        (None, s)
    }
}

/// An optional value as its mathematical form.
pub open spec fn opt_view(o: Option<LiteralValue>) -> Option<LiteralValueView> {
    match o {
        Some(v) => Some(v@),
        None => None,
    }
}

impl LiteralValue {
    /// Takes tag `key` out of `tags` and answers its value as stored.
    pub fn from_tag_and_remove(tags: &mut Tags, key: &str) -> (r: Option<LiteralValue>)
        requires
            old(tags).wf(),
        ensures
            final(tags).wf(),
            (opt_view(r), final(tags).view_pairs()) == take_field(old(tags).view_pairs(), key@),
    {
        match tags.remove(key) {
            Some(value) => Some(LiteralValue::from(value.as_str())),
            None => None,
        }
    }

    /// The number this value stands for, if it is one.
    pub fn as_number(&self) -> (r: Option<isize>)
        ensures
            r == number_of(self@),
    {
        match self {
            LiteralValue::UInt(num) => Some(*num as isize),
            LiteralValue::IInt(num) => Some(*num as isize),
            LiteralValue::TinyUNumber(num) => Some(*num as isize),
            LiteralValue::TinyINumber(num) => Some(*num as isize),
            LiteralValue::String(s) => match parse_decimal(
                s.as_str(),
                isize::MIN as i128,
                isize::MAX as i128,
            ) {
                Some(n) => Some(n as isize),
                None => None,
            },
            _ => None,
        }
    }

    /// The value that the text of a tag value is stored as.
    pub fn from(value: &str) -> (r: LiteralValue)
        ensures
            r@ == literal_of(value@),
    {
        if value.unicode_len() == 0 {
            return LiteralValue::Blank;
        }
        let yes = "yes";
        let no = "no";
        proof {
            reveal_strlit("yes");
            reveal_strlit("no");
        }
        assert(yes@ =~= seq!['y', 'e', 's']);
        assert(no@ =~= seq!['n', 'o']);
        if str_eq(value, yes) {
            return LiteralValue::BoolYes;
        }
        if str_eq(value, no) {
            return LiteralValue::BoolNo;
        }
        if let Some(n) = parse_decimal(value, i64::MIN as i128, i64::MAX as i128) {
            let num = n as i64;
            if num >= 0 && num < 0b11_1111 {
                return LiteralValue::TinyUNumber(num as u8);
            } else if num >= -0b1_1111 && num < 0b1_1111 {
                return LiteralValue::TinyINumber(num as i8);
            } else if num >= 0 {
                return LiteralValue::UInt(num as u64);
            } else {
                return LiteralValue::IInt(num);
            }
        }
        if value.unicode_len() == 2 && is_ascii_upper_alpha(value) {
            let a = value.get_char(0);
            let b = value.get_char(1);
            return LiteralValue::TwoUpperLatinAbbrev(a as u8, b as u8);
        }
        proof {
            if value@.len() == 2 && is_upper(value@[0]) && is_upper(value@[1]) {
                assert forall|i: int| 0 <= i < value@.len() implies is_upper(#[trigger] value@[i]) by {
                    if i == 0 {
                    } else {
                    }
                }
            }
        }
        LiteralValue::String(String::from_str(value))
    }

    /// Appends the encoding of this value to `write_to`.
    pub fn minimally_serialize(&self, write_to: &mut Vec<u8>)
        requires
            serializable(self@),
        ensures
            final(write_to)@ == old(write_to)@ + literal_value_bytes(self@),
    {
        let ghost start = write_to@;
        match self {
            LiteralValue::BoolYes => write_to.push(0b0000_0000u8),
            LiteralValue::BoolNo => write_to.push(0b0001_0000u8),
            LiteralValue::Blank => write_to.push(0b0010_0000u8),
            LiteralValue::UInt(num) => {
                write_to.push(0b0011_0000u8);
                num.write_varint(write_to);
            },
            LiteralValue::IInt(num) => {
                write_to.push(0b0100_0000u8);
                num.write_varint(write_to);
            },
            LiteralValue::TinyUNumber(num) => write_to.push(0b0101_0000u8 | *num),
            LiteralValue::TinyINumber(num) => {
                let abs: u8 = if *num < 0 {
                    (-(*num as i16)) as u8
                } else {
                    *num as u8
                };
                let sign: u8 = if *num < 0 {
                    0b1000
                } else {
                    0b0000
                };
                write_to.push(0b0110_0000u8 | (abs | sign));
            },
            LiteralValue::TwoUpperLatinAbbrev(a, b) => {
                write_to.push(0b1010_0000u8);
                write_to.push(*a);
                write_to.push(*b);
            },
            LiteralValue::String(s) => {
                let variety = StringSerialVariation::Unicode;
                let low_nibble: u8 = 0;
                write_to.push(((0b11_00 + string_value_enum_offset(variety)) << 4u8) | low_nibble);
                assert((15u8 << 4u8) | 0u8 == 0xf0u8) by (bit_vector);
                let t = s.as_str();
                str_minimally_serialize(t, write_to, BitSection(0));
                proof {
                    lemma_encode_chars(t, 0);
                }
            },
            _ => {},
        }
        assert(write_to@ =~= start + literal_value_bytes(self@));
    }

    /// Reads one value from the front of `from` and moves `from` past it.
    pub fn deserialize_minimal(from: &mut &[u8]) -> (r: Result<LiteralValue, DecodeError>)
        requires
            literal_value_readable(old(from)@),
        ensures
            match literal_value_read(old(from)@).0 {
                Ok(v) => r matches Ok(x) && x@ == v,
                Err(e) => r == Err::<LiteralValue, DecodeError>(e),
            },
            literal_value_read(old(from)@).1 <= old(from)@.len(),
            final(from)@ == old(from)@.skip(literal_value_read(old(from)@).1 as int),
    {
        let ghost start = from@;
        let header_byte = match from.read_one() {
            Ok(b) => b,
            Err(e) => {
                assert(start.skip(0) =~= start);
                return Err(e);
            },
        };
        let enum_variant = header_byte >> 4u8;
        let lower_nibble_ext_info = header_byte & 0b1111u8;
        let ghost rest = from@;
        assert(rest =~= start.drop_first());
        if enum_variant == 0b0000 {
            assert(start.skip(1) =~= rest);
            Ok(LiteralValue::BoolYes)
        } else if enum_variant == 0b0001 {
            assert(start.skip(1) =~= rest);
            Ok(LiteralValue::BoolNo)
        } else if enum_variant == 0b0010 {
            assert(start.skip(1) =~= rest);
            Ok(LiteralValue::Blank)
        } else if enum_variant == 0b0011 {
            proof {
                crate::varint::lemma_decode_bound(rest, <u64 as FromVarint>::varint_modulus());
            }
            let r = match from_varint::<u64>(from) {
                Ok(v) => Ok(LiteralValue::UInt(v)),
                Err(e) => Err(e),
            };
            proof {
                assert(rest.skip(rest.len() as int) =~= start.skip(start.len() as int));
                if let Some((u, n)) = varint_decode(rest, <u64 as FromVarint>::varint_modulus()) {
                    assert(rest.skip(n as int) =~= start.skip(n as int + 1));
                }
            }
            r
        } else if enum_variant == 0b0100 {
            proof {
                crate::varint::lemma_decode_bound(rest, <i64 as FromVarint>::varint_modulus());
            }
            let r = match from_varint::<i64>(from) {
                Ok(v) => Ok(LiteralValue::IInt(v)),
                Err(e) => Err(e),
            };
            proof {
                assert(rest.skip(rest.len() as int) =~= start.skip(start.len() as int));
                if let Some((u, n)) = varint_decode(rest, <i64 as FromVarint>::varint_modulus()) {
                    assert(rest.skip(n as int) =~= start.skip(n as int + 1));
                }
            }
            r
        } else if enum_variant == 0b0101 {
            assert(start.skip(1) =~= rest);
            Ok(LiteralValue::TinyUNumber(lower_nibble_ext_info))
        } else if enum_variant == 0b0110 {
            assert(start.skip(1) =~= rest);
            assert(lower_nibble_ext_info & 0b111u8 <= 7) by (bit_vector);
            let magnitude: i8 = (lower_nibble_ext_info & 0b111u8) as i8;
            let v: i8 = if lower_nibble_ext_info & 0b1000u8 != 0 {
                -magnitude
            } else {
                magnitude
            };
            assert(magnitude as int == (lower_nibble_ext_info & 7u8) as int);
            assert(v == tiny_signed_of(lower_nibble_ext_info));
            Ok(LiteralValue::TinyINumber(v))
        } else if enum_variant == 0b1010 {
            let a = match from.read_one() {
                Ok(b) => b,
                Err(e) => {
                    assert(start.skip(start.len() as int) =~= from@);
                    return Err(e);
                },
            };
            let b = match from.read_one() {
                Ok(b) => b,
                Err(e) => {
                    assert(start.skip(start.len() as int) =~= from@);
                    return Err(e);
                },
            };
            assert(start.skip(3) =~= from@);
            Ok(LiteralValue::TwoUpperLatinAbbrev(a, b))
        } else {
            let variation = offset_to_string_value_enum(enum_variant & 0b11u8);
            proof {
                assert(header_byte >> 4u8 <= 15) by (bit_vector);
                if rest.len() > 0 {
                    assert(rest.drop_first() =~= start.skip(2));
                }
            }
            let r = string_deserialize_minimal(from, None);
            proof {
                if rest.len() == 0 {
                    assert(start.skip(1) =~= rest);
                } else {
                    let (res, n) = decode_after_header(rest[0], rest.drop_first());
                    crate::packed_string_serialization::lemma_decode_after_header_bound(rest[0], rest.drop_first());
                    assert(rest.drop_first().skip(n as int) =~= start.skip(n as int + 2));
                }
            }
            match r {
                Ok(s) => Ok(LiteralValue::String(s)),
                Err(e) => Err(e),
            }
        }
    }
}

/// The values whose encoding reads back as the value: every variant with an
/// encoding, but small numbers only where they fit the header's low nibble
/// (up to 15, and from -7 to 7), and strings only where their encoding reads
/// back.
pub open spec fn roundtrips(v: LiteralValueView) -> bool {
    match v {
        LiteralValueView::TinyUNumber(n) => n < 16,
        LiteralValueView::TinyINumber(n) => -7 <= n <= 7,
        LiteralValueView::String(s) => (exists|t: &str| t@ == s) && str_roundtrips(
            choose|t: &str| t@ == s,
        ),
        _ => serializable(v),
    }
}

/// Reading back what a value was written as gives the value, and takes
/// exactly the bytes it was written as, whatever follows; a whole number of
/// zero, whose varint is the byte `0x80` alone, where nothing follows.
pub proof fn lemma_literal_value_roundtrip(v: LiteralValueView, rest: Seq<u8>)
    requires
        roundtrips(v),
        v == LiteralValueView::UInt(0) || v == LiteralValueView::IInt(0) ==> rest.len() == 0,
    ensures
        literal_value_readable(literal_value_bytes(v) + rest),
        literal_value_read(literal_value_bytes(v) + rest) == (
            Ok::<LiteralValueView, DecodeError>(v),
            literal_value_bytes(v).len(),
        ),
{
    let b = literal_value_bytes(v);
    let all = b + rest;
    assert(all[0] == b[0]);
    assert(0x00u8 >> 4u8 == 0 && 0x10u8 >> 4u8 == 1 && 0x20u8 >> 4u8 == 2 && 0x30u8 >> 4u8 == 3
        && 0x40u8 >> 4u8 == 4 && 0xa0u8 >> 4u8 == 10 && 0xf0u8 >> 4u8 == 15) by (bit_vector);
    match v {
        LiteralValueView::UInt(num) => {
            lemma_to_from_varint(num, rest);
            assert(all.drop_first() =~= varint_encoding(num as nat) + rest);
        },
        LiteralValueView::IInt(num) => {
            lemma_to_from_varint(num, rest);
            assert(all.drop_first() =~= varint_encoding(num.varint_value()) + rest);
        },
        LiteralValueView::TinyUNumber(num) => {
            assert((0x50u8 | num) >> 4u8 == 5 && (0x50u8 | num) & 15u8 == num) by (bit_vector)
                requires
                    num < 16,
            ;
        },
        LiteralValueView::TinyINumber(num) => {
            let nib = tiny_signed_nibble(num);
            let abs: u8 = if num < 0 {
                (-(num as int)) as u8
            } else {
                num as u8
            };
            assert(abs <= 7);
            if num < 0 {
                assert((abs | 8u8) & 7u8 == abs && (abs | 8u8) & 8u8 != 0 && (abs | 8u8) < 16)
                    by (bit_vector)
                    requires
                        abs <= 7,
                ;
            } else {
                assert((abs | 0u8) & 7u8 == abs && (abs | 0u8) & 8u8 == 0 && (abs | 0u8) < 16)
                    by (bit_vector)
                    requires
                        abs <= 7,
                ;
            }
            assert(nib < 16);
            assert((0x60u8 | nib) >> 4u8 == 6 && (0x60u8 | nib) & 15u8 == nib) by (bit_vector)
                requires
                    nib < 16,
            ;
        },
        LiteralValueView::TwoUpperLatinAbbrev(a, c) => {
            assert(all.drop_first()[0] == a && all.drop_first()[1] == c);
        },
        LiteralValueView::String(cs) => {
            let t = choose|t: &str| t@ == cs;
            lemma_encode_chars(t, 0);
            lemma_str_roundtrip(t, 0, rest);
            let e = encode_chars(cs, 0);
            assert(all.drop_first() =~= e + rest);
            assert((all.drop_first()).drop_first() =~= (e + rest).drop_first());
        },
        _ => {
            assert(all.len() >= 1);
        },
    }
}

} // verus!
