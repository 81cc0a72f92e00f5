//! Lane-wise equality of integers packed into 128 bits.
use vstd::prelude::*;

verus! {

/// 128 bits, seen as two lanes of 64 bits or as four of 32 bits.
#[derive(Clone, Copy)]
pub struct Lanes {
    pub low: u64,
    pub high: u64,
}

/// Lane `k` of the two 32-bit lanes of a 64-bit word, the low half first.
pub open spec fn half(word: u64, k: int) -> u32 {
    if k == 0 {
        (word & 0xFFFF_FFFF) as u32
    } else {
        (word >> 32) as u32
    }
}

impl Lanes {
    /// Lane `k` of the four 32-bit lanes, the lowest first.
    pub open spec fn lane_32(self, k: int) -> u32 {
        if k < 2 {
            half(self.low, k)
        } else {
            half(self.high, k - 2)
        }
    }

    /// Two 64-bit words side by side.
    pub fn combine(low: u64, high: u64) -> (lanes: Lanes)
        ensures
            lanes == (Lanes { low, high }),
    {
        Lanes { low, high }
    }

    /// All ones in the 64-bit lanes where the two are equal, zero in the others.
    pub fn equal_64(self, other: Lanes) -> (mask: Lanes)
        ensures
            mask.low == (if self.low == other.low { u64::MAX } else { 0 }),
            mask.high == (if self.high == other.high { u64::MAX } else { 0 }),
    {
        let low: u64 = if self.low == other.low { u64::MAX } else { 0 };
        let high: u64 = if self.high == other.high { u64::MAX } else { 0 };
        Lanes { low, high }
    }

    /// All ones in the 32-bit lanes where the two are equal, zero in the others.
    pub fn equal_32(self, other: Lanes) -> (mask: Lanes)
        ensures
            forall|k: int|
                0 <= k < 4 ==> #[trigger] mask.lane_32(k) == (if self.lane_32(k)
                    == other.lane_32(k) {
                    u32::MAX
                } else {
                    0
                }),
    {
        Lanes {
            low: equal_halves(self.low, other.low),
            high: equal_halves(self.high, other.high),
        }
    }

    /// The four 32-bit lanes, the lowest first.
    pub fn split_32(self) -> (lanes: (u32, u32, u32, u32))
        ensures
            lanes.0 == self.lane_32(0),
            lanes.1 == self.lane_32(1),
            lanes.2 == self.lane_32(2),
            lanes.3 == self.lane_32(3),
    {
        (
            (self.low & 0xFFFF_FFFF) as u32,
            (self.low >> 32) as u32,
            (self.high & 0xFFFF_FFFF) as u32,
            (self.high >> 32) as u32,
        )
    }
}

fn equal_halves(a: u64, b: u64) -> (mask: u64)
    ensures
        half(mask, 0) == (if half(a, 0) == half(b, 0) { u32::MAX } else { 0 }),
        half(mask, 1) == (if half(a, 1) == half(b, 1) { u32::MAX } else { 0 }),
{
    let low: u64 = if (a & 0xFFFF_FFFF) as u32 == (b & 0xFFFF_FFFF) as u32 { 0xFFFF_FFFF } else { 0 };
    let high: u64 = if (a >> 32) as u32 == (b >> 32) as u32 { 0xFFFF_FFFF } else { 0 };
    assert((((high << 32) | low) & 0xFFFF_FFFF) as u32 == low && (((high << 32) | low) >> 32) as u32
        == high) by (bit_vector)
        requires
            low <= 0xFFFF_FFFF,
            high <= 0xFFFF_FFFF,
    ;
    (high << 32) | low
}

/// Two 32-bit integers in one 64-bit word, the first in the low half.
pub fn pack_32(first: i32, second: i32) -> (word: u64)
    ensures
        half(word, 0) == first as u32,
        half(word, 1) == second as u32,
{
    let low = first as u32;
    let high = second as u32;
    assert(((((high as u64) << 32) | (low as u64)) & 0xFFFF_FFFF) as u32 == low && ((((high as u64)
        << 32) | (low as u64)) >> 32) as u32 == high) by (bit_vector);
    ((high as u64) << 32) | (low as u64)
}

/// Signed integers are equal exactly where their bits are.
pub proof fn lemma_same_bits_32(a: i32, b: i32)
    ensures
        a as u32 == b as u32 <==> a == b,
{
    assert(a as u32 == b as u32 <==> a == b) by (bit_vector);
}

/// Signed integers are equal exactly where their bits are.
pub proof fn lemma_same_bits_64(a: i64, b: i64)
    ensures
        a as u64 == b as u64 <==> a == b,
{
    assert(a as u64 == b as u64 <==> a == b) by (bit_vector);
}

} // verus!
