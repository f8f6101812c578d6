use tiny_maps::compressor::literals::literal_value::{
    is_ascii_upper_alpha, offset_to_string_value_enum, string_value_enum_offset, LiteralValue,
    StringSerialVariation,
};
use tiny_maps::compressor::literals::structured_elements::address::{
    OsmAddress, OsmAddressEvenMoreExtra, OsmAddressExtra,
};
use tiny_maps::compressor::literals::structured_elements::{insert_with_byte, read_if_bit_set};
use tiny_maps::compressor::literals::{insert_type_irrelevant, Literal, LiteralKey, LiteralPool, WellKnownKey, WellKnownKeyVar};
use tiny_maps::compressor::literals::packed_strings::PackedString;
use tiny_maps::compressor::literals::string_prefix_view::StrAsciiPrefixView;
use tiny_maps::serialize_min::DecodeError;

fn roundtrip(v: &LiteralValue) -> LiteralValue {
    let mut buf = Vec::new();
    v.minimally_serialize(&mut buf);
    let mut s = &buf[..];
    let back = LiteralValue::deserialize_minimal(&mut s).unwrap();
    assert!(s.is_empty());
    back
}

#[test]
fn literal_values_from_text() {
    assert!(matches!(LiteralValue::from(""), LiteralValue::Blank));
    assert!(matches!(LiteralValue::from("yes"), LiteralValue::BoolYes));
    assert!(matches!(LiteralValue::from("no"), LiteralValue::BoolNo));
    assert!(matches!(LiteralValue::from("12"), LiteralValue::TinyUNumber(12)));
    assert!(matches!(LiteralValue::from("-5"), LiteralValue::TinyINumber(-5)));
    assert!(matches!(LiteralValue::from("+7"), LiteralValue::TinyUNumber(7)));
    assert!(matches!(LiteralValue::from("63"), LiteralValue::UInt(63)));
    assert!(matches!(LiteralValue::from("-31"), LiteralValue::TinyINumber(-31)));
    assert!(matches!(LiteralValue::from("-32"), LiteralValue::IInt(-32)));
    assert!(matches!(LiteralValue::from("-30"), LiteralValue::TinyINumber(-30)));
    assert!(matches!(LiteralValue::from("DE"), LiteralValue::TwoUpperLatinAbbrev(b'D', b'E')));
    assert!(matches!(LiteralValue::from("De"), LiteralValue::String(ref s) if s == "De"));
    assert!(matches!(LiteralValue::from("99999999999999999999"), LiteralValue::String(_)));
    assert!(matches!(LiteralValue::from("-"), LiteralValue::String(_)));
}

#[test]
fn literal_values_as_numbers() {
    assert_eq!(LiteralValue::from("42").as_number(), Some(42));
    assert_eq!(LiteralValue::UInt(1000).as_number(), Some(1000));
    assert_eq!(LiteralValue::IInt(-1000).as_number(), Some(-1000));
    assert_eq!(LiteralValue::String("17".to_string()).as_number(), Some(17));
    assert_eq!(LiteralValue::String("17a".to_string()).as_number(), None);
    assert_eq!(LiteralValue::BoolYes.as_number(), None);
}

#[test]
fn literal_values_read_back() {
    assert!(matches!(roundtrip(&LiteralValue::BoolYes), LiteralValue::BoolYes));
    assert!(matches!(roundtrip(&LiteralValue::UInt(123456)), LiteralValue::UInt(123456)));
    assert!(matches!(roundtrip(&LiteralValue::IInt(-123456)), LiteralValue::IInt(-123456)));
    assert!(matches!(roundtrip(&LiteralValue::TinyUNumber(15)), LiteralValue::TinyUNumber(15)));
    assert!(matches!(roundtrip(&LiteralValue::TinyINumber(-7)), LiteralValue::TinyINumber(-7)));
    assert!(matches!(roundtrip(&LiteralValue::TwoUpperLatinAbbrev(b'A', b'B')), LiteralValue::TwoUpperLatinAbbrev(b'A', b'B')));
    assert!(matches!(roundtrip(&LiteralValue::String("Hello World".to_string())), LiteralValue::String(ref s) if s == "Hello World"));
}

#[test]
fn literal_value_bytes() {
    let mut buf = Vec::new();
    LiteralValue::Blank.minimally_serialize(&mut buf);
    LiteralValue::TinyUNumber(3).minimally_serialize(&mut buf);
    LiteralValue::TinyINumber(-2).minimally_serialize(&mut buf);
    LiteralValue::UInt(1).minimally_serialize(&mut buf);
    assert_eq!(buf, vec![0x20, 0x53, 0x6a, 0x30, 0x01]);
}

#[test]
fn literal_value_read_errors() {
    let mut empty: &[u8] = &[];
    assert!(matches!(LiteralValue::deserialize_minimal(&mut empty), Err(DecodeError::UnexpectedEof)));
    let mut cut: &[u8] = &[0xa0, b'A'];
    assert!(matches!(LiteralValue::deserialize_minimal(&mut cut), Err(DecodeError::UnexpectedEof)));
}

#[test]
fn string_variations() {
    assert_eq!(string_value_enum_offset(StringSerialVariation::Unicode), 3);
    assert_eq!(offset_to_string_value_enum(1), Ok(StringSerialVariation::NonRemainder));
    assert_eq!(offset_to_string_value_enum(4), Err(DecodeError::InvalidData));
    assert!(is_ascii_upper_alpha("ABC"));
    assert!(!is_ascii_upper_alpha("AbC"));
}

#[test]
fn pool_inlines_tiny_blobs() {
    let mut pool: LiteralPool<LiteralValue> = LiteralPool::new();
    assert_eq!(insert_type_irrelevant(&mut pool, vec![0x01, 0x02]), 0x0102 << 1);
    assert_eq!(insert_type_irrelevant(&mut pool, vec![]), 0);
    assert!(pool.flush().is_empty());
}

#[test]
fn pool_stores_each_blob_once() {
    let mut pool: LiteralPool<LiteralValue> = LiteralPool::new();
    let a = insert_type_irrelevant(&mut pool, vec![1, 2, 3, 4]);
    let b = insert_type_irrelevant(&mut pool, vec![5, 6, 7, 8, 9]);
    let c = insert_type_irrelevant(&mut pool, vec![1, 2, 3, 4]);
    assert_eq!(a, 1 << 1);
    assert_eq!(b, 2 << 1);
    assert_eq!(c, a);
    assert_eq!(pool.flush(), vec![1, 2, 3, 4, 5, 6, 7, 8, 9]);
    assert!(pool.flush().is_empty());
}

#[test]
fn pool_insert_of_values() {
    let mut pool: LiteralPool<LiteralValue> = LiteralPool::new();
    // a blank value is the single byte 0x20, which is kept in its id
    assert_eq!(pool.insert(&LiteralValue::Blank), 0x20 << 1);
}

#[test]
fn karlsruhe_addresses_are_two_ids_at_most() {
    let mut pools = (LiteralPool::<Literal>::new(), LiteralPool::<LiteralValue>::new());
    let mut addr = OsmAddress::none();
    assert!(addr.is_none());
    addr.number = Some(LiteralValue::from("12"));
    addr.street = Some(LiteralValue::from("Kaiserstrasse"));
    assert!(addr.is_karlsruhe_minimal());
    let mut out = Vec::new();
    addr.minimally_serialize(&mut out, &mut pools);
    // header: the two top bits, then 12 - 1; then the street's id
    assert_eq!(out[0], 0b1100_0000 | 11);
    assert_eq!(out[1..].to_vec(), vec![0x02]);
    assert!(!pools.1.flush().is_empty());
}

#[test]
fn full_addresses_set_a_bit_per_field() {
    let mut pools = (LiteralPool::<Literal>::new(), LiteralPool::<LiteralValue>::new());
    let mut addr = OsmAddress::none();
    addr.city = Some(LiteralValue::Blank);
    let mut extra = OsmAddressExtra::none();
    assert!(extra.is_none());
    extra.postcode = Some(LiteralValue::BoolYes);
    let mut more = OsmAddressEvenMoreExtra {
        hamlet: None, suburb: None, subdistrict: None, county: None,
        door: None, flats: None, block: None, block_number: None,
    };
    assert!(more.is_none());
    more.block_number = Some(LiteralValue::BoolNo);
    extra.even_more_extra = Some(more);
    extra.arbitrary = Some(vec![Literal::KeyVar(LiteralKey::WellKnownKey(WellKnownKey::Waterway), LiteralValue::Blank)]);
    addr.extra = Some(extra);
    let mut out = Vec::new();
    addr.minimally_serialize(&mut out, &mut pools);
    // city is bit 4 of the first byte, extra fields bit 0
    assert_eq!(out[0], 0b0001_0001);
    // postcode is bit 2 of the second, the rarest fields bit 1
    assert_eq!(out[1], 0b0000_0110);
    // block number is bit 0 of the third
    assert_eq!(out[2], 0b0000_0001);
    // ids: blank (0x20), yes (0x00), no (0x10), each kept in its id shifted
    // left, 0x40 with an empty group before it as its bit length is seven;
    // then the id of the waterway literal, its bytes 0x00 0x80 0x40 as a
    // number shifted left (0x10080)
    assert_eq!(out[3..].to_vec(), vec![0x80, 0x40, 0x80, 0x20, 0x84, 0x81, 0x00]);
}

#[test]
fn literals_write_their_key_and_value() {
    let mut pools = (LiteralPool::<Literal>::new(), LiteralPool::<LiteralValue>::new());
    let lit = Literal::KeyVar(LiteralKey::WellKnownKey(WellKnownKey::Waterway), LiteralValue::BoolYes);
    let mut out = Vec::new();
    lit.minimally_serialize(&mut out, &mut pools);
    // the key's number, then the id of `yes` (its byte 0x00 shifted)
    assert_eq!(out, vec![0x00, 0x80]);
    let id = LiteralPool::<Literal>::insert(&mut pools, &lit);
    assert_eq!(id, 0x0080 << 1);
    let addr_lit = Literal::WellKnownKeyVar(WellKnownKeyVar::Address(OsmAddress::none()));
    let mut out2 = Vec::new();
    addr_lit.minimally_serialize(&mut out2, &mut pools);
    assert_eq!(out2, vec![0x80, 0x00]);
    let key = LiteralKey::from("name");
    assert!(matches!(key, LiteralKey::Str(ref s) if s == "name"));
}

#[test]
fn fields_set_their_bit() {
    let mut pool: LiteralPool<LiteralValue> = LiteralPool::new();
    let mut storage = Vec::new();
    let mut byte = 0u8;
    insert_with_byte(&Some(LiteralValue::BoolNo), &mut pool, &mut storage, &mut byte, 3);
    insert_with_byte(&None, &mut pool, &mut storage, &mut byte, 2);
    assert_eq!(byte, 0b0000_1000);
    assert_eq!(storage, vec![0x20]);
    let mut s = &storage[..];
    assert_eq!(read_if_bit_set(&mut s, &byte, 2), Ok(None));
    assert_eq!(read_if_bit_set(&mut s, &byte, 3), Ok(Some(0x20)));
}

#[test]
fn packed_strings() {
    match PackedString::from("abc") {
        PackedString::Ascii(b) => assert_eq!(b, vec![b'a', b'b', b'c' | 0x80]),
        _ => panic!("expected ascii"),
    }
    match PackedString::from("äb") {
        PackedString::Unicode(s) => assert_eq!(s, "äb"),
        _ => panic!("expected unicode"),
    }
    let p = PackedString::Unicode("xy".to_string());
    assert_eq!(p.packed_bytes(), vec![b'x', b'y']);
    assert_eq!(p.into_string(), "xy");
    let a = PackedString::Ascii(vec![0x80 | b'q']);
    assert_eq!(a.into_string(), "q");
}

#[test]
fn prefix_views_build_keys() {
    let mut view = StrAsciiPrefixView::new("addr", 80);
    assert_eq!(view.with(":street"), "addr:street");
    assert_eq!(view.with(":city"), "addr:city");
}
