//! The bit source that fills the generator's lag table.
//!
//! Four running integers are stirred round by round; every round yields one
//! bit, and twenty-four consecutive bits, most significant first, make one
//! table entry.

use vstd::arithmetic::power2::{lemma2_to64, lemma_pow2_strictly_increases, lemma_pow2_unfold, pow2};
use vstd::prelude::*;

verus! {

/// Number of rounds, and so of bits, that go into one table entry.
pub const WORD_BITS: u32 = 24;

/// Remainder of `a` by a positive `b`, carrying the sign of `a`.
///
/// For `a >= 0` this is the ordinary `a mod b`; a negative `a` gives the
/// negated remainder of `-a`, as machine division does.
pub open spec fn rem(a: int, b: int) -> int {
    if a >= 0 {
        a % b
    } else {
        -((-a) % b)
    }
}

/// The four running integers of the bit source.
pub struct MixState {
    pub i: int,
    pub j: int,
    pub k: int,
    pub l: int,
}

/// The state made of the four given integers.
pub open spec fn mix_state(i: int, j: int, k: int, l: int) -> MixState {
    MixState { i, j, k, l }
}

impl MixState {
    /// `((i * j) mod 179) * k mod 179`, the value that enters the state in
    /// the coming round.
    pub open spec fn product(self) -> int {
        rem(rem(self.i * self.j, 179) * self.k, 179)
    }

    /// The state after one round: `i, j, k` rotate with the product coming in
    /// last, and `l` advances to `(53 * l + 1) mod 169`.
    pub open spec fn next(self) -> MixState {
        MixState { i: self.j, j: self.k, k: self.product(), l: rem(53 * self.l + 1, 169) }
    }

    /// The bit that the coming round yields: 1 when `(l * m) mod 64 >= 32`
    /// for the advanced `l` and the product `m`, else 0.
    pub open spec fn bit(self) -> int {
        if rem(self.next().l * self.next().k, 64) >= 32 {
            1
        } else {
            0
        }
    }

    /// The state after `rounds` rounds.
    pub open spec fn after(self, rounds: nat) -> MixState
        decreases rounds,
    {
        if rounds == 0 {
            self
        } else {
            self.after((rounds - 1) as nat).next()
        }
    }

    /// The number whose binary digits are the bits of the first `rounds`
    /// rounds, the first bit being the most significant.
    pub open spec fn word(self, rounds: nat) -> int
        decreases rounds,
    {
        if rounds == 0 {
            0
        } else {
            2 * self.word((rounds - 1) as nat) + self.after((rounds - 1) as nat).bit()
        }
    }
}

/// A round from four integers none of which is negative leaves none
/// negative, and each of its remainders is the ordinary `mod`.
pub proof fn lemma_non_negative_round(s: MixState)
    requires
        s.i >= 0,
        s.j >= 0,
        s.k >= 0,
        s.l >= 0,
    ensures
        s.product() == (((s.i * s.j) % 179) * s.k) % 179,
        s.next().l == (53 * s.l + 1) % 169,
        s.bit() == 1 <==> (s.next().l * s.next().k) % 64 >= 32,
        s.next().i >= 0,
        s.next().j >= 0,
        0 <= s.next().k < 179,
        0 <= s.next().l < 169,
{
    let ij = (s.i * s.j) % 179;
    let m = s.product();
    let l = s.next().l;
    assert(s.i * s.j >= 0) by (nonlinear_arith)
        requires
            s.i >= 0,
            s.j >= 0,
    ;
    assert(ij * s.k >= 0) by (nonlinear_arith)
        requires
            ij >= 0,
            s.k >= 0,
    ;
    assert(l * m >= 0) by (nonlinear_arith)
        requires
            l >= 0,
            m >= 0,
    ;
}

/// Running `a` rounds and then `b` more is running `a + b` rounds.
pub proof fn lemma_after_add(s: MixState, a: nat, b: nat)
    ensures
        s.after(a).after(b) == s.after(a + b),
    decreases b,
{
    if b > 0 {
        lemma_after_add(s, a, (b - 1) as nat);
    }
}

/// A word of `rounds` bits is a natural number below `2^rounds`.
pub proof fn lemma_word_bound(s: MixState, rounds: nat)
    ensures
        0 <= s.word(rounds) < pow2(rounds),
    decreases rounds,
{
    if rounds == 0 {
        lemma2_to64();
    } else {
        lemma_word_bound(s, (rounds - 1) as nat);
        lemma_pow2_unfold(rounds);
    }
}

/// A word of at most 24 bits is below 16777216.
pub proof fn lemma_word_fits(s: MixState, rounds: nat)
    requires
        rounds <= 24,
    ensures
        0 <= s.word(rounds) < 16_777_216,
{
    lemma_word_bound(s, rounds);
    lemma2_to64();
    if rounds < 24 {
        lemma_pow2_strictly_increases(rounds, 24);
    }
}

/// The bit source at work, holding the four running integers.
pub struct Mixer {
    i: i64,
    j: i64,
    k: i64,
    l: i64,
}

impl View for Mixer {
    type V = MixState;

    closed spec fn view(&self) -> MixState {
        mix_state(self.i as int, self.j as int, self.k as int, self.l as int)
    }
}

impl Mixer {
    /// Each running integer stays within the 32-bit range of the seeds, so
    /// that no product of two of them leaves 64 bits.
    #[verifier::type_invariant]
    spec fn in_seed_range(self) -> bool {
        &&& i32::MIN <= self.i <= i32::MAX
        &&& i32::MIN <= self.j <= i32::MAX
        &&& i32::MIN <= self.k <= i32::MAX
        &&& i32::MIN <= self.l <= i32::MAX
    }

    /// A bit source that starts from the four seeds.
    pub fn new(seed1: i32, seed2: i32, seed3: i32, seed4: i32) -> (mixer: Mixer)
        ensures
            mixer@ == mix_state(seed1 as int, seed2 as int, seed3 as int, seed4 as int),
    {
        Mixer { i: seed1 as i64, j: seed2 as i64, k: seed3 as i64, l: seed4 as i64 }
    }

    /// Runs one round and returns its bit.
    pub fn round(&mut self) -> (bit: u32)
        ensures
            final(self)@ == old(self)@.next(),
            bit as int == old(self)@.bit(),
    {
        proof {
            use_type_invariant(&*self);
        }
        let (i, j, k, l) = (self.i, self.j, self.k, self.l);
        assert(-0x4000_0000_0000_0000 <= i * j <= 0x4000_0000_0000_0000) by (nonlinear_arith)
            requires
                -0x8000_0000 <= i <= 0x8000_0000,
                -0x8000_0000 <= j <= 0x8000_0000,
        ;
        let ij: i64 = (i * j) % 179;
        assert(-0x4000_0000_0000 <= ij * k <= 0x4000_0000_0000) by (nonlinear_arith)
            requires
                -179 < ij < 179,
                -0x8000_0000 <= k <= 0x8000_0000,
        ;
        let m: i64 = (ij * k) % 179;
        let next_l: i64 = (53 * l + 1) % 169;
        assert(-0x1_0000 <= next_l * m <= 0x1_0000) by (nonlinear_arith)
            requires
                -179 < m < 179,
                -169 < next_l < 169,
        ;
        let bit: u32 = if (next_l * m) % 64 >= 32 {
            1
        } else {
            0
        };
        self.i = j;
        self.j = k;
        self.k = m;
        self.l = next_l;
        bit
    }

    /// Runs twenty-four rounds and returns the word made of their bits.
    pub fn word(&mut self) -> (word: u32)
        ensures
            final(self)@ == old(self)@.after(24),
            word as int == old(self)@.word(24),
            word < 16_777_216,
    {
        let mut word: u32 = 0;
        let mut rounds: u32 = 0;
        while rounds < WORD_BITS
            invariant
                rounds <= WORD_BITS,
                self@ == old(self)@.after(rounds as nat),
                word as int == old(self)@.word(rounds as nat),
            decreases WORD_BITS - rounds,
        {
            proof {
                lemma_word_fits(old(self)@, rounds as nat);
                lemma_word_fits(old(self)@, (rounds + 1) as nat);
            }
            let bit = self.round();
            word = 2 * word + bit;
            rounds += 1;
        }
        proof {
            lemma_word_fits(old(self)@, 24);
        }
        word
    }
}

} // verus!
