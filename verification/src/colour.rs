//! Saturating conversion of a channel intensity to a byte.
//!
//! A channel intensity is a product of factors scaled by 255; computed
//! carelessly it can leave `0..=255`. It is clamped to the nearer end of the
//! range, never wrapped round it.

use vstd::prelude::*;

verus! {

/// The byte nearest to `v`: `v` itself inside `0..=255`, the nearer end of
/// the range outside it.
pub open spec fn clamped(v: int) -> int {
    if v < 0 {
        0
    } else if v > 255 {
        255
    } else {
        v
    }
}

/// A clamped intensity is a byte, an intensity that is a byte already is
/// kept, and a larger intensity never gives a smaller byte: nothing wraps.
pub proof fn lemma_clamped_never_wraps(a: int, b: int)
    ensures
        0 <= clamped(a) <= 255,
        0 <= a <= 255 ==> clamped(a) == a,
        a <= b ==> clamped(a) <= clamped(b),
{
}

/// Clamps a channel intensity to the byte range.
pub fn clamp_u8(v: i64) -> (byte: u8)
    ensures
        byte as int == clamped(v as int),
{
    if v < 0 {
        0
    } else if v > 255 {
        255
    } else {
        v as u8
    }
}

} // verus!
