//! Marsaglia's universal generator: a lagged-Fibonacci generator over a
//! circular table of 97 fractions, with a correction term that breaks the
//! period of the plain two-tap difference.
//!
//! Every value the generator holds or returns is a multiple of `2^-24` in
//! `[0, 1)`. Single-precision arithmetic represents these fractions, and the
//! sums and differences taken here, without rounding, so the generator is
//! carried out on their numerators: an integer `n` in `0..16777216` stands
//! for the fraction `n / 16777216`.

use crate::mixer::{lemma_after_add, lemma_word_fits, mix_state, MixState, Mixer};
use crate::seed::{seed_in_range, seed_valid, split_seed, sub_seeds, SeedOutOfRange};
use vstd::prelude::*;

verus! {

/// Number of entries of the lag table.
pub const TABLE_LEN: usize = 97;

/// The integer that stands for the fraction 1: the common denominator `2^24`.
pub const UNIT: u32 = 16_777_216;

/// Where the first cursor stands after the table is filled.
pub const FIRST_CURSOR: usize = 96;

/// Where the second cursor stands after the table is filled, 64 entries
/// behind the first.
pub const SECOND_CURSOR: usize = 32;

/// Correction term of a freshly filled generator, `362436 / 2^24`.
pub const CORRECTION_START: u32 = 362_436;

/// Amount by which the correction term falls at each draw, `7654321 / 2^24`.
pub const CORRECTION_DELTA: u32 = 7_654_321;

/// Amount added back when the correction term falls below zero,
/// `16777213 / 2^24`.
pub const CORRECTION_MODULUS: u32 = 16_777_213;

/// `v` brought into `[0, 1)` by adding 1 if it is negative.
pub open spec fn wrap_unit(v: int) -> int {
    if v < 0 {
        v + 16_777_216
    } else {
        v
    }
}

/// A cursor moved one entry down the circular table, from 0 round to 96.
pub open spec fn step_down(cursor: int) -> int {
    if cursor == 0 {
        96
    } else {
        cursor - 1
    }
}

/// The state of a generator as mathematics: all fractions by their
/// numerators over `2^24`.
pub struct RngState {
    /// The lag table.
    pub values: Seq<int>,
    /// The cursor of the entry that is read and replaced.
    pub current: int,
    /// The cursor of the entry that is subtracted.
    pub second: int,
    /// The correction term.
    pub correction: int,
    /// The amount by which the correction term falls at each draw.
    pub delta: int,
    /// The amount added back when the correction term falls below zero.
    pub modulus: int,
}

impl RngState {
    /// The table has 97 fractions in `[0, 1)`, both cursors point into it, and
    /// the correction term stays within `0..=modulus`, which is below 1 and
    /// not below `delta`.
    pub open spec fn wf(self) -> bool {
        &&& self.values.len() == 97
        &&& forall|p: int| 0 <= p < 97 ==> 0 <= #[trigger] self.values[p] < 16_777_216
        &&& 0 <= self.current < 97
        &&& 0 <= self.second < 97
        &&& 0 <= self.delta <= self.modulus < 16_777_216
        &&& 0 <= self.correction <= self.modulus
    }

    /// The difference of the two entries under the cursors, wrapped into
    /// `[0, 1)`: the value that replaces the entry under the first cursor.
    pub open spec fn lagged(self) -> int {
        wrap_unit(self.values[self.current] - self.values[self.second])
    }

    /// The correction term after it has fallen by `delta`, with `modulus`
    /// added back if it fell below zero.
    pub open spec fn next_correction(self) -> int {
        let fallen = self.correction - self.delta;
        if fallen < 0 {
            fallen + self.modulus
        } else {
            fallen
        }
    }

    /// The value that the next draw returns: the lagged difference less the
    /// advanced correction term, wrapped into `[0, 1)`.
    pub open spec fn output(self) -> int {
        wrap_unit(self.lagged() - self.next_correction())
    }

    /// The state that the next draw leaves.
    pub open spec fn next(self) -> RngState {
        RngState {
            values: self.values.update(self.current, self.lagged()),
            current: step_down(self.current),
            second: step_down(self.second),
            correction: self.next_correction(),
            delta: self.delta,
            modulus: self.modulus,
        }
    }

    /// The state after `draws` draws.
    pub open spec fn after(self, draws: nat) -> RngState
        decreases draws,
    {
        if draws == 0 {
            self
        } else {
            self.after((draws - 1) as nat).next()
        }
    }

    /// The value of draw number `n`, counting from 0.
    pub open spec fn draw(self, n: nat) -> int {
        self.after(n).output()
    }

    /// The values of the first `count` draws, in order.
    pub open spec fn draws(self, count: nat) -> Seq<int> {
        Seq::new(count, |n: int| self.draw(n as nat))
    }

    /// How far the first cursor stands ahead of the second, round the table.
    pub open spec fn lag(self) -> int {
        (self.current - self.second) % 97
    }
}

/// The state of a generator that has not been started: everything zero.
pub open spec fn blank_state() -> RngState {
    RngState {
        values: Seq::new(97, |p: int| 0int),
        current: 0,
        second: 0,
        correction: 0,
        delta: 0,
        modulus: 0,
    }
}

/// The state that the four sub-seeds start: entry `p` of the table is the
/// 24-bit word of rounds `24 * p .. 24 * p + 24` of the bit source, the
/// cursors stand at 96 and 32, and the correction term at its start value.
pub open spec fn started_state(seeds: MixState) -> RngState {
    RngState {
        values: Seq::new(97, |p: int| seeds.after((24 * p) as nat).word(24)),
        current: 96,
        second: 32,
        correction: 362_436,
        delta: 7_654_321,
        modulus: 16_777_213,
    }
}

/// The state that a valid `seed` starts.
pub open spec fn seeded_state(seed: int) -> RngState {
    started_state(sub_seeds(seed))
}

/// A draw from a well-formed state returns a fraction in `[0, 1)` and leaves
/// a well-formed state.
pub proof fn lemma_next_wf(s: RngState)
    requires
        s.wf(),
    ensures
        s.next().wf(),
        0 <= s.output() < UNIT,
{
    assert(0 <= s.values[s.current] < 16_777_216);
    assert(0 <= s.values[s.second] < 16_777_216);
}

/// Any number of draws from a well-formed state leaves a well-formed state.
pub proof fn lemma_after_wf(s: RngState, draws: nat)
    requires
        s.wf(),
    ensures
        s.after(draws).wf(),
    decreases draws,
{
    if draws > 0 {
        lemma_after_wf(s, (draws - 1) as nat);
        lemma_next_wf(s.after((draws - 1) as nat));
    }
}

/// Every draw, however many came before it, is a fraction in `[0, 1)`.
pub proof fn lemma_draw_in_unit(s: RngState, n: nat)
    requires
        s.wf(),
    ensures
        0 <= s.draw(n) < UNIT,
{
    lemma_after_wf(s, n);
    lemma_next_wf(s.after(n));
}

/// Whatever the four sub-seeds, the state they start is well-formed.
pub proof fn lemma_started_wf(seeds: MixState)
    ensures
        started_state(seeds).wf(),
{
    let s = started_state(seeds);
    assert forall|p: int| 0 <= p < 97 implies 0 <= #[trigger] s.values[p] < 16_777_216 by {
        lemma_word_fits(seeds.after((24 * p) as nat), 24);
    }
}

/// Two generators started from the same seed give the same draws, draw for
/// draw, however far the sequence is followed.
pub proof fn lemma_same_seed_same_draws(
    a: MarsagliaUniRng,
    b: MarsagliaUniRng,
    seed: int,
    count: nat,
)
    requires
        a@ == seeded_state(seed),
        b@ == seeded_state(seed),
    ensures
        a@.draws(count) == b@.draws(count),
        a@.draws(count) == seeded_state(seed).draws(count),
        forall|n: nat| a@.draw(n) == b@.draw(n),
{
}

/// A draw moves both cursors alike, so the distance between them is kept.
pub proof fn lemma_lag_kept(s: RngState)
    requires
        s.wf(),
    ensures
        s.next().lag() == s.lag(),
{
}

/// In a started generator the first cursor stands 64 entries ahead of the
/// second, and stays so after any number of draws.
pub proof fn lemma_started_lag(seeds: MixState, draws: nat)
    ensures
        started_state(seeds).after(draws).lag() == 64,
    decreases draws,
{
    if draws > 0 {
        lemma_started_lag(seeds, (draws - 1) as nat);
        lemma_started_wf(seeds);
        lemma_after_wf(started_state(seeds), (draws - 1) as nat);
        lemma_lag_kept(started_state(seeds).after((draws - 1) as nat));
    }
}

/// Marsaglia's universal generator.
pub struct MarsagliaUniRng {
    recent_values: [u32; 97],
    correction: u32,
    correction_delta: u32,
    correction_modulus: u32,
    current_index: usize,
    second_index: usize,
}

impl View for MarsagliaUniRng {
    type V = RngState;

    closed spec fn view(&self) -> RngState {
        RngState {
            values: Seq::new(97, |p: int| self.recent_values[p] as int),
            current: self.current_index as int,
            second: self.second_index as int,
            correction: self.correction as int,
            delta: self.correction_delta as int,
            modulus: self.correction_modulus as int,
        }
    }
}

impl MarsagliaUniRng {
    #[verifier::type_invariant]
    spec fn inv(self) -> bool {
        &&& forall|p: int| 0 <= p < 97 ==> #[trigger] self.recent_values[p] < UNIT
        &&& self.current_index < TABLE_LEN
        &&& self.second_index < TABLE_LEN
        &&& self.correction_delta <= self.correction_modulus < UNIT
        &&& self.correction <= self.correction_modulus
    }

    /// A generator that has not been started: its table, cursors and
    /// correction term are all zero, and every draw from it is 0.
    pub fn new() -> (rng: Self)
        ensures
            rng@ == blank_state(),
            rng@.wf(),
    {
        let rng = MarsagliaUniRng {
            recent_values: [0u32; 97],
            correction: 0,
            correction_delta: 0,
            correction_modulus: 0,
            current_index: 0,
            second_index: 0,
        };
        assert(rng@.values =~= blank_state().values);
        rng
    }

    /// Draws the next value: the numerator over `2^24` of a fraction in
    /// `[0, 1)`.
    pub fn generate(&mut self) -> (value: u32)
        ensures
            value as int == old(self)@.output(),
            final(self)@ == old(self)@.next(),
            0 <= value < UNIT,
            final(self)@.wf(),
    {
        proof {
            use_type_invariant(&*self);
        }
        let minuend: u32 = self.recent_values[self.current_index];
        let subtrahend: u32 = self.recent_values[self.second_index];
        let lagged: u32 = if minuend < subtrahend {
            minuend + UNIT - subtrahend
        } else {
            minuend - subtrahend
        };
        self.recent_values[self.current_index] = lagged;

        if self.current_index == 0 {
            self.current_index = TABLE_LEN - 1;
        } else {
            self.current_index -= 1;
        }
        if self.second_index == 0 {
            self.second_index = TABLE_LEN - 1;
        } else {
            self.second_index -= 1;
        }

        if self.correction < self.correction_delta {
            self.correction = self.correction + self.correction_modulus - self.correction_delta;
        } else {
            self.correction = self.correction - self.correction_delta;
        }

        let value: u32 = if lagged < self.correction {
            lagged + UNIT - self.correction
        } else {
            lagged - self.correction
        };
        assert(self@.values =~= old(self)@.next().values);
        value
    }

    /// Fills the table from four sub-seeds and sets the cursors and the
    /// correction term to their start values.
    pub fn start(&mut self, seed1: i32, seed2: i32, seed3: i32, seed4: i32)
        ensures
            final(self)@ == started_state(
                mix_state(seed1 as int, seed2 as int, seed3 as int, seed4 as int),
            ),
            final(self)@.wf(),
    {
        let mut mixer = Mixer::new(seed1, seed2, seed3, seed4);
        let ghost seeds = mixer@;
        let mut table: [u32; 97] = [0u32; 97];
        let mut slot: usize = 0;
        while slot < TABLE_LEN
            invariant
                slot <= TABLE_LEN,
                mixer@ == seeds.after((24 * slot) as nat),
                forall|p: int| 0 <= p < 97 ==> table[p] < UNIT,
                forall|p: int|
                    0 <= p < slot ==> table[p] as int == seeds.after((24 * p) as nat).word(24),
            decreases TABLE_LEN - slot,
        {
            let word = mixer.word();
            proof {
                lemma_after_add(seeds, (24 * slot) as nat, 24);
            }
            table[slot] = word;
            slot += 1;
        }
        *self = MarsagliaUniRng {
            recent_values: table,
            correction: CORRECTION_START,
            correction_delta: CORRECTION_DELTA,
            correction_modulus: CORRECTION_MODULUS,
            current_index: FIRST_CURSOR,
            second_index: SECOND_CURSOR,
        };
        assert(self@.values =~= started_state(seeds).values);
    }

    /// A generator started from a single seed.
    ///
    /// Succeeds exactly on the valid seeds, which are those in
    /// `0..=900_000_000`; any other seed is refused and handed back in the
    /// error.
    pub fn initialise(seed: i32) -> (made: Result<Self, SeedOutOfRange>)
        ensures
            made is Ok <==> seed_valid(seed as int),
            made is Ok <==> seed_in_range(seed as int),
            made matches Ok(rng) ==> rng@ == seeded_state(seed as int) && rng@.wf(),
            made matches Err(e) ==> e.seed == seed,
    {
        match split_seed(seed) {
            Ok((i, j, k, l)) => {
                let mut rng = MarsagliaUniRng::new();
                rng.start(i, j, k, l);
                Ok(rng)
            },
            Err(e) => Err(e),
        }
    }
}

} // verus!
