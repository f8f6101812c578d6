use tiny_maps::bit_sections::{BitSection, Byte, HighNibble, LowNibble};

#[test]
fn set_bit() {
    let mut byte = Byte::from(0);
    byte.set_bit(0, true);
    assert_eq!(byte.into_inner(), 0b1000_0000);

    let mut byte = Byte::from(0);
    byte.set_bit(1, true);
    assert_eq!(byte.into_inner(), 0b0100_0000);
}

#[test]
fn mask() {
    assert_eq!(Byte::mask(), 0b1111_1111);

    assert_eq!(LowNibble::mask(), 0b1111);
    assert_eq!(HighNibble::mask(), 0b1111_0000);

    assert_eq!(BitSection::<1, 8, u8>::mask(), 0b0111_1111);
}

#[test]
fn masked_and_bits() {
    let n = LowNibble::from(0b1010_0110);
    assert_eq!(n.into_inner_masked(), 0b0110);
    assert_eq!(LowNibble::bits(), 4);
    let b = Byte::from(0b0100_0000);
    assert_eq!(b.get_bit(1), 1);
    assert_eq!(b.get_bit(0), 0);
}

#[test]
fn sections_combine_bitwise() {
    let a = Byte::from_unchecked(0b1100_1010);
    let b = Byte::from_unchecked(0b1010_0110);
    assert_eq!((a & b).into_inner(), 0b1000_0010);
    assert_eq!((a | b).into_inner(), 0b1110_1110);
    assert_eq!((a ^ b).into_inner(), 0b0110_1100);
    let mut c = a;
    c &= b;
    assert_eq!(c.into_inner(), 0b1000_0010);
    c |= Byte::from_unchecked(1);
    assert_eq!(c.into_inner(), 0b1000_0011);
    c ^= Byte::from_unchecked(0b1000_0000);
    assert_eq!(c.into_inner(), 0b0000_0011);
}
