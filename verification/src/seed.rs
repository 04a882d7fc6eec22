//! Validation of a single integer seed and its split into the four sub-seeds
//! that start the bit source.

use crate::mixer::{mix_state, MixState};
use vstd::prelude::*;

verus! {

/// The largest seed that is accepted.
pub const SEED_MAX: i32 = 900_000_000;

/// The error of a seed that the generator cannot be started from.
#[derive(Clone, Copy, Debug, PartialEq, Eq)]
pub struct SeedOutOfRange {
    /// The seed that was refused.
    pub seed: i32,
}

/// Whether `seed` lies in `0..=900_000_000`.
pub open spec fn seed_in_range(seed: int) -> bool {
    0 <= seed <= 900_000_000
}

/// The four sub-seeds of `seed`.
///
/// With `ij = seed / 30082` and `kl = seed - 30082 * ij` they are
/// `i = (ij / 177) mod 177 + 2`, `j = ij mod 177 + 2`,
/// `k = (kl / 169) mod 178 + 1` and `l = kl mod 169`.
pub open spec fn sub_seeds(seed: int) -> MixState {
    let ij = seed / 30082;
    let kl = seed - 30082 * ij;
    mix_state((ij / 177) % 177 + 2, ij % 177 + 2, (kl / 169) % 178 + 1, kl % 169)
}

/// Whether each sub-seed lies in its band: `i`, `j` and `k` in `1..=178`,
/// `l` in `0..=168`.
pub open spec fn in_bands(s: MixState) -> bool {
    &&& 1 <= s.i <= 178
    &&& 1 <= s.j <= 178
    &&& 1 <= s.k <= 178
    &&& 0 <= s.l <= 168
}

/// Whether the first three sub-seeds are all 1, from which the bit source
/// yields a degenerate table.
pub open spec fn degenerate(s: MixState) -> bool {
    s.i == 1 && s.j == 1 && s.k == 1
}

/// Whether a generator can be started from `seed`: the seed is in range, its
/// sub-seeds are in their bands, and they are not the degenerate triple.
pub open spec fn seed_valid(seed: int) -> bool {
    &&& seed_in_range(seed)
    &&& in_bands(sub_seeds(seed))
    &&& !degenerate(sub_seeds(seed))
}

/// A seed in range always splits into sub-seeds within their bands, with
/// `i` and `j` at least 2, so it is valid: validity is being in range.
pub proof fn lemma_valid_iff_in_range(seed: int)
    ensures
        seed_valid(seed) <==> seed_in_range(seed),
        seed_in_range(seed) ==> sub_seeds(seed).i >= 2 && sub_seeds(seed).j >= 2,
{
}

/// Splits `seed` into its four sub-seeds, or refuses it.
///
/// The seed is refused exactly when it is not valid, which is exactly when it
/// lies outside `0..=900_000_000`.
pub fn split_seed(seed: i32) -> (split: Result<(i32, i32, i32, i32), SeedOutOfRange>)
    ensures
        split is Ok <==> seed_valid(seed as int),
        split is Ok <==> seed_in_range(seed as int),
        split matches Ok(s) ==> mix_state(s.0 as int, s.1 as int, s.2 as int, s.3 as int)
            == sub_seeds(seed as int),
        split matches Err(e) ==> e.seed == seed,
{
    if seed < 0 || seed > SEED_MAX {
        return Err(SeedOutOfRange { seed });
    }
    let ij: i32 = seed / 30082;
    let kl: i32 = seed - 30082 * ij;
    let i: i32 = ((ij / 177) % 177) + 2;
    let j: i32 = (ij % 177) + 2;
    let k: i32 = ((kl / 169) % 178) + 1;
    let l: i32 = kl % 169;
    if i < 1 || i > 178 || j < 1 || j > 178 || k < 1 || k > 178 || l < 0 || l > 168 {
        return Err(SeedOutOfRange { seed });
    }
    if i == 1 && j == 1 && k == 1 {
        return Err(SeedOutOfRange { seed });
    }
    Ok((i, j, k, l))
}

} // verus!
