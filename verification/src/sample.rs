//! Audio samples as the bit patterns of single-precision numbers: a sign bit,
//! eight bits of exponent, and twenty-three bits of fraction. Two numbers that
//! are not negative stand in the order of their patterns.
use vstd::prelude::*;

verus! {

/// The pattern of positive infinity. Larger magnitudes are no numbers.
pub const INFINITY_BITS: u32 = 0x7f80_0000;

/// The pattern of the absolute value of the number with pattern `b`.
pub open spec fn magnitude_of(b: u32) -> u32 {
    if b >= 0x8000_0000 {
        (b - 0x8000_0000) as u32
    } else {
        b
    }
}

/// Whether `b` is the pattern of a number, of infinity too.
pub open spec fn numeric(b: u32) -> bool {
    magnitude_of(b) <= INFINITY_BITS
}

/// Whether `b` is the pattern of a finite number.
pub open spec fn finite(b: u32) -> bool {
    magnitude_of(b) < INFINITY_BITS
}

/// The pattern of the absolute value of the number with pattern `b`.
pub fn magnitude(b: u32) -> (r: u32)
    ensures
        r == magnitude_of(b),
{
    if b >= 0x8000_0000 {
        b - 0x8000_0000
    } else {
        b
    }
}

/// Whether every sample is a finite number.
pub fn all_finite(v: &Vec<u32>) -> (r: bool)
    ensures
        r == forall|k: int| 0 <= k < v.len() ==> finite(#[trigger] v[k]),
{
    let mut i: usize = 0;
    while i < v.len()
        invariant
            i <= v.len(),
            forall|k: int| 0 <= k < i ==> finite(#[trigger] v[k]),
        decreases v.len() - i,
    {
        if magnitude(v[i]) >= INFINITY_BITS {
            assert(!finite(v[i as int]));
            return false;
        }
        i = i + 1;
    }
    true
}

/// The size of a sample is its pattern without the sign, and a sample with the opposite
/// sign has the same. It is no number only where all bits of the exponent are set and
/// some of the fraction.
pub proof fn law_magnitude(b: u32)
    ensures
        magnitude_of(b) as int == b as int % 0x8000_0000,
        b < 0x8000_0000 ==> magnitude_of((b + 0x8000_0000) as u32) == magnitude_of(b),
        numeric(b) <==> (b as int / 0x80_0000) % 0x100 != 0xff || b as int % 0x80_0000 == 0,
        finite(b) <==> numeric(b) && magnitude_of(b) != 0x7f80_0000,
{
}

} // verus!
