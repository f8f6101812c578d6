use tiny_maps::varint::{from_varint, to_varint};

#[test]
fn encode() {
    let result = to_varint(0);
    assert_eq!(result, vec![0b1_000_0000]);
}

#[test]
fn varint_encode() {
    let result = to_varint(0);
    assert_eq!(result, vec![0b1_000_0000]);
}

#[test]
fn decode() {
    let result: u8 = from_varint(&mut vec![0b1_000_0000].as_slice()).unwrap();
    assert_eq!(result, 0);
}

#[test]
fn varint_decode() {
    let result: u8 = from_varint(&mut vec![0b0_000_0000].as_slice()).unwrap();
    assert_eq!(result, 0);
}

#[test]
fn adverse_roundtrip() {
    let value = 128;

    let mut to = &to_varint(value)[..];
    assert_eq!(from_varint::<u64>(&mut to).unwrap(), value);
}

#[test]
fn minmax() {
    fn check<T: tiny_maps::varint::ToVarint + tiny_maps::varint::FromVarint + PartialEq + std::fmt::Debug + Copy>(
        value: T,
        what: &str,
    ) {
        let to = to_varint(value);
        let out: T = from_varint(&mut &to[..]).unwrap();
        assert_eq!(value, out, "{} should survive roundtrip varints", what);
    }
    check(u8::MAX, "maximum of u8");
    check(u8::MIN, "minimum of u8");
    check(i8::MAX, "maximum of i8");
    check(i8::MIN, "minimum of i8");
    check(u16::MAX, "maximum of u16");
    check(u16::MIN, "minimum of u16");
    check(i16::MAX, "maximum of i16");
    check(i16::MIN, "minimum of i16");
    check(u32::MAX, "maximum of u32");
    check(u32::MIN, "minimum of u32");
    check(i32::MAX, "maximum of i32");
    check(i32::MIN, "minimum of i32");
    check(u64::MAX, "maximum of u64");
    check(u64::MIN, "minimum of u64");
    check(i64::MAX, "maximum of i64");
    check(i64::MIN, "minimum of i64");
}

#[test]
fn roundtrip() {
    let value = 587321u64;

    let mut to = &to_varint(value)[..];
    assert_eq!(from_varint::<u64>(&mut to).unwrap(), value);
}

#[test]
fn varint_roundtrip() {
    for value in [
        1, 2, 4, 8, 16, 32, 64, 128, 256,
        142361806282472958u64, 6791104u64, 39406836u64, 17391677u64, 4796168u64,
        148478827u64, 5703434u64, 2026716u64, 16612077u64, 21815112u64, 25611391u64,
        50736485u64, 145740861u64, 15962560u64, 7512008u64, 62085279u64, 142461646u64,
        8125243u64, 27030150u64, 12038051u64, 16506797u64, 1454362439u64, 24122395u64,
        31770804u64, 3632437u64, 151495884u64, 3539001u64, 41138433u64, 209021241u64,
        4009362u64, 6166955u64, 386708171u64, 63864899u64, 11287631u64, 1645593u64,
    ] {
        let mut to = &to_varint(value)[..];
        assert_eq!(from_varint::<u64>(&mut to).unwrap(), value);
        assert!(to.is_empty());
    }
}

#[test]
fn varint_exact_encodings() {
    assert_eq!(to_varint(1u8), vec![0x01]);
    assert_eq!(to_varint(63u8), vec![0x3f]);
    // a bit length that is a multiple of seven starts with an empty group
    assert_eq!(to_varint(127u8), vec![0x80, 0x7f]);
    assert_eq!(to_varint(100u8), vec![0x80, 0x64]);
    assert_eq!(to_varint(64u64), vec![0x80, 0x40]);
    assert_eq!(to_varint(128u16), vec![0x81, 0x00]);
    assert_eq!(to_varint(300u16), vec![0x82, 0x2c]);
    // signed values are written zig-zag: -1 as 2 * (-1 + 128) + 1 for i8
    assert_eq!(to_varint(-1i8), vec![0x81, 0x7f]);
    assert_eq!(to_varint(1i8), vec![0x02]);
}

#[test]
fn varint_eof_is_an_error() {
    let mut bytes: &[u8] = &[0x81];
    assert!(from_varint::<u32>(&mut bytes).is_err());
    assert!(bytes.is_empty());
}

#[test]
fn varint_leaves_following_bytes() {
    let mut bytes: &[u8] = &[0x82, 0x2c, 0x07];
    assert_eq!(from_varint::<u16>(&mut bytes).unwrap(), 300);
    assert_eq!(bytes, &[0x07]);
}

#[test]
fn varint_empty_groups_are_read_through() {
    let mut bytes: &[u8] = &[0x80, 0x64, 0x07];
    assert_eq!(from_varint::<u8>(&mut bytes).unwrap(), 100);
    assert_eq!(bytes, &[0x07]);
    let mut zero: &[u8] = &[0x80];
    assert_eq!(from_varint::<u64>(&mut zero).unwrap(), 0);
    assert!(zero.is_empty());
}
