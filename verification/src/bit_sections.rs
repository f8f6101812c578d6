use vstd::prelude::*;

verus! {

/// A value of type `T` of which the bits `START..END`, counted from the most
/// significant bit, are the section of interest.
#[derive(Copy, Clone, Debug)]
pub struct BitSection<const START: usize, const END: usize, T>(pub T);

/// The high four bits of a byte.
pub type HighNibble = BitSection<0, 4, u8>;

/// The low four bits of a byte.
pub type LowNibble = BitSection<4, 8, u8>;

/// A whole byte.
pub type Byte = BitSection<0, 8, u8>;

/// The first `B` bits of a byte.
pub type NthFirstBits<const B: usize> = BitSection<0, B, u8>;

/// Two to the power of `k`.
pub open spec fn two_pow(k: nat) -> nat
    decreases k,
{
    if k == 0 {
        1
    } else {
        2 * two_pow((k - 1) as nat)
    }
}

/// The byte whose bits `start..end`, counted from the most significant bit,
/// are set and all others clear.
pub open spec fn section_mask(start: nat, end: nat) -> u8 {
    (two_pow((8 - start) as nat) - two_pow((8 - end) as nat)) as u8
}

proof fn lemma_two_pow_mono(a: nat, b: nat)
    requires
        a <= b,
    ensures
        two_pow(a) <= two_pow(b),
        two_pow(a) >= 1,
    decreases b,
{
    if b > a {
        lemma_two_pow_mono(a, (b - 1) as nat);
    } else if a > 0 {
        lemma_two_pow_mono((a - 1) as nat, (a - 1) as nat);
    }
}

fn pow2_u16(k: usize) -> (r: u16)
    requires
        k <= 8,
    ensures
        r == two_pow(k as nat),
        r <= 256,
{
    let mut r: u16 = 1;
    let mut i: usize = 0;
    while i < k
        invariant
            i <= k <= 8,
            r == two_pow(i as nat),
            r <= 256,
        decreases k - i,
    {
        proof {
            lemma_two_pow_mono(i as nat, 7);
            reveal_with_fuel(two_pow, 8);
        }
        r = r * 2;
        i = i + 1;
    }
    r
}

impl<const START: usize, const END: usize> BitSection<START, END, u8> {
    /// The bit at `index_from_left` of the whole byte, as `0` or `1`.
    pub fn get_bit(&self, index_from_left: usize) -> (r: u8)
        requires
            START <= END <= 8,
            index_from_left < END - START,
        ensures
            r == (self.0 >> (7 - index_from_left) as u8) & 1,
    {
        let shift = (7 - index_from_left) as u8;
        (self.0 >> shift) & 1
    }

    /// Sets the bit at `index_from_left` of the whole byte when `value` holds;
    /// leaves the byte as it was otherwise.
    pub fn set_bit(&mut self, index_from_left: usize, value: bool)
        requires
            START <= END <= 8,
            index_from_left < END - START,
        ensures
            final(self).0 == (if value {
                old(self).0 | (1u8 << (7 - index_from_left) as u8)
            } else {
                old(self).0
            }),
    {
        let shift = (7 - index_from_left) as u8;
        let bit: u8 = if value {
            1
        } else {
            0
        };
        let mask: u8 = bit << shift;
        let cur = self.0;
        proof {
            if !value {
                assert(0u8 << shift == 0u8) by (bit_vector);
                assert(cur | 0u8 == cur) by (bit_vector);
            }
        }
        self.0 = cur | mask;
    }

    /// The number of bits in the section.
    pub fn bits() -> (r: usize)
        requires
            START <= END,
        ensures
            r == END - START,
    {
        END - START
    }

    /// The byte with exactly the bits of the section set.
    pub fn mask() -> (r: u8)
        requires
            START <= END <= 8,
        ensures
            r == section_mask(START as nat, END as nat),
    {
        let high = pow2_u16(8 - START);
        let low = pow2_u16(8 - END);
        proof {
            lemma_two_pow_mono((8 - END) as nat, (8 - START) as nat);
        }
        (high - low) as u8
    }

    /// Replaces the bits of the section with those of `other`, keeping the rest.
    pub fn copy_from(&mut self, other: u8)
        requires
            START <= END <= 8,
        ensures
            final(self).0 == (old(self).0 & !section_mask(START as nat, END as nat)) | (other
                & section_mask(START as nat, END as nat)),
    {
        let mask = Self::mask();
        let o_mask = other & mask;
        self.0 = self.0 & !mask;
        self.0 = self.0 | o_mask;
    }

    /// Replaces the bits `S..E` with those of `other`, keeping the rest.
    pub fn set_range<const S: usize, const E: usize>(&mut self, other: u8)
        requires
            START <= S <= E <= 8,
        ensures
            final(self).0 == (old(self).0 & !section_mask(S as nat, E as nat)) | (other
                & section_mask(S as nat, E as nat)),
    {
        let mut reduced: BitSection<S, E, u8> = BitSection(self.0);
        reduced.copy_from(other);
        self.0 = reduced.0;
    }

    /// The bits of the section, all others cleared.
    pub fn into_inner_masked(self) -> (r: u8)
        requires
            START <= END <= 8,
        ensures
            r == self.0 & section_mask(START as nat, END as nat),
    {
        self.0 & Self::mask()
    }

    /// Wraps a byte without clearing the bits outside the section.
    pub fn from_unchecked(value: u8) -> (r: Self)
        requires
            START < 8,
            END <= 8,
        ensures
            r.0 == value,
    {
        BitSection(value)
    }
}

impl<const START: usize, const END: usize, T> BitSection<START, END, T> {
    /// The same value, seen through a narrower section.
    pub fn reduce_extent<const NS: usize, const NE: usize>(self) -> (r: BitSection<NS, NE, T>)
        requires
            NS >= START,
            NS <= NE,
        ensures
            r.0 == self.0,
    {
        BitSection(self.0)
    }

    /// The whole value.
    pub fn into_inner(self) -> (r: T)
        ensures
            r == self.0,
    {
        self.0
    }
}

impl<const START: usize, const END: usize> From<u8> for BitSection<START, END, u8> {
    fn from(value: u8) -> (r: Self) {
        BitSection(value)
    }
}

impl<const START: usize, const END: usize> vstd::std_specs::convert::FromSpecImpl<u8> for BitSection<START, END, u8> {
    open spec fn obeys_from_spec() -> bool {
        true
    }

    open spec fn from_spec(v: u8) -> Self {
        BitSection(v)
    }
}

impl<const START: usize, const END: usize> std::ops::BitAnd for BitSection<START, END, u8> {
    type Output = Self;

    fn bitand(self, rhs: Self) -> (r: Self)
        ensures
            r.0 == self.0 & rhs.0,
    {
        BitSection(self.0 & rhs.0)
    }
}

impl<const START: usize, const END: usize> vstd::std_specs::ops::BitAndSpecImpl for BitSection<START, END, u8> {
    open spec fn obeys_bitand_spec() -> bool {
        true
    }

    open spec fn bitand_req(self, rhs: Self) -> bool {
        true
    }

    open spec fn bitand_spec(self, rhs: Self) -> Self {
        BitSection(self.0 & rhs.0)
    }
}

impl<const START: usize, const END: usize> std::ops::BitAndAssign for BitSection<START, END, u8> {
    fn bitand_assign(&mut self, rhs: Self)
        ensures
            final(self).0 == old(self).0 & rhs.0,
    {
        self.0 = self.0 & rhs.0;
    }
}

impl<const START: usize, const END: usize> std::ops::BitOr for BitSection<START, END, u8> {
    type Output = Self;

    fn bitor(self, rhs: Self) -> (r: Self)
        ensures
            r.0 == self.0 | rhs.0,
    {
        BitSection(self.0 | rhs.0)
    }
}

impl<const START: usize, const END: usize> vstd::std_specs::ops::BitOrSpecImpl for BitSection<START, END, u8> {
    open spec fn obeys_bitor_spec() -> bool {
        true
    }

    open spec fn bitor_req(self, rhs: Self) -> bool {
        true
    }

    open spec fn bitor_spec(self, rhs: Self) -> Self {
        BitSection(self.0 | rhs.0)
    }
}

impl<const START: usize, const END: usize> std::ops::BitOrAssign for BitSection<START, END, u8> {
    fn bitor_assign(&mut self, rhs: Self)
        ensures
            final(self).0 == old(self).0 | rhs.0,
    {
        self.0 = self.0 | rhs.0;
    }
}

impl<const START: usize, const END: usize> std::ops::BitXor for BitSection<START, END, u8> {
    type Output = Self;

    fn bitxor(self, rhs: Self) -> (r: Self)
        ensures
            r.0 == self.0 ^ rhs.0,
    {
        BitSection(self.0 ^ rhs.0)
    }
}

impl<const START: usize, const END: usize> vstd::std_specs::ops::BitXorSpecImpl for BitSection<START, END, u8> {
    open spec fn obeys_bitxor_spec() -> bool {
        true
    }

    open spec fn bitxor_req(self, rhs: Self) -> bool {
        true
    }

    open spec fn bitxor_spec(self, rhs: Self) -> Self {
        BitSection(self.0 ^ rhs.0)
    }
}

impl<const START: usize, const END: usize> std::ops::BitXorAssign for BitSection<START, END, u8> {
    fn bitxor_assign(&mut self, rhs: Self)
        ensures
            final(self).0 == old(self).0 ^ rhs.0,
    {
        self.0 = self.0 ^ rhs.0;
    }
}

} // verus!
