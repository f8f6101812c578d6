use tiny_maps::bit_sections::BitSection;
use tiny_maps::packed_string_serialization::latin_lowercase_fivebit::{
    fits_charset, latin_lowercase_fivebit_to_string, to_charset,
};
use tiny_maps::packed_string_serialization::{str_minimally_serialize, string_deserialize_minimal};

fn roundtrip(s: &str) -> String {
    let mut buf = Vec::new();
    str_minimally_serialize(s, &mut buf, BitSection(0b1010_0000));
    assert_eq!(buf[0] & 0b1110_0000, 0b1010_0000);
    let mut from = &buf[..];
    let back = string_deserialize_minimal(&mut from, None).unwrap();
    assert!(from.is_empty());
    back
}

#[test]
fn strings_read_back() {
    for s in ["abcdef", "Hello, World!", "5", "+49 123", "x"] {
        assert_eq!(roundtrip(s), s);
    }
}

#[test]
fn fivebit_charset_holds_lowercase_and_separators() {
    assert!(fits_charset("a-b"));
    assert!(fits_charset("road_name: x/y."));
    assert!(!fits_charset("aB"));
    assert!(!fits_charset("a1"));
}

#[test]
fn fivebit_decoding_inverts_encoding() {
    let (h, b) = to_charset("abcde");
    assert_eq!(h.into_inner(), 0b1000);
    assert_eq!(b, vec![0x00, 0x45, 0x64]);
    let mut from: &[u8] = &[0x00, 0x45, 0x64];
    assert_eq!(latin_lowercase_fivebit_to_string(0b1000, &mut from).unwrap(), "abcde");
    for s in ["", "a", "-", "ab", "abc", "abcd", "building", "x-y-z", "ab cd", "zz:zz_zz"] {
        let (h, b) = to_charset(s);
        let mut from = &b[..];
        assert_eq!(latin_lowercase_fivebit_to_string(h.into_inner(), &mut from).unwrap(), s);
        assert!(from.is_empty());
    }
}

#[test]
fn fivebit_strings_read_back() {
    for s in ["building", "a-b", "residential", "zz"] {
        assert_eq!(roundtrip(s), s);
    }
}

#[test]
fn utf8_strings_read_their_length_then_their_bytes() {
    let bytes = [0x00u8, 0x02, 0xC3, 0xA9];
    let mut from: &[u8] = &bytes[..];
    assert_eq!(string_deserialize_minimal(&mut from, None).ok(), Some("é".to_string()));
    assert!(from.is_empty());
    assert_eq!(roundtrip("héllo wörld"), "héllo wörld");
    assert_eq!(roundtrip("日本"), "日本");
    let mut buf = Vec::new();
    str_minimally_serialize("é", &mut buf, BitSection(0b1010_0000));
    assert_eq!(buf, vec![0b1010_0000, 0x02, 0xC3, 0xA9]);
}

#[test]
fn broken_utf8_strings_fail() {
    let bytes = [0x00u8, 0x02, 0xC3, 0x28, 0x07];
    let mut from: &[u8] = &bytes[..];
    assert_eq!(
        string_deserialize_minimal(&mut from, None),
        Err(tiny_maps::serialize_min::DecodeError::InvalidData)
    );
    assert_eq!(from, &[0x07][..]);
    let short = [0x00u8, 0x05, 0xC3];
    let mut from: &[u8] = &short[..];
    assert_eq!(
        string_deserialize_minimal(&mut from, None),
        Err(tiny_maps::serialize_min::DecodeError::UnexpectedEof)
    );
    assert!(from.is_empty());
}
