//! Desire levels: the per-vertex marking probabilities.
//!
//! A desire level is the probability `1 / 2^exponent`. It starts at `1/2`,
//! is halved or doubled (capped at `1/2`) from round to round, and so is
//! always a power of two; the exponent holds it exactly. Halving stops at
//! the finest level `1 / 2^FINEST_EXPONENT`, which keeps every level strictly
//! positive.

use vstd::arithmetic::power2::{
    lemma2_to64, lemma2_to64_rest, lemma_pow2_pos, lemma_pow2_strictly_increases,
    lemma_pow2_unfold, pow2,
};
use vstd::prelude::*;

verus! {

/// Exponent of the finest desire level.
pub const FINEST_EXPONENT: u32 = 62;

/// The weight, in units of `1 / 2^FINEST_EXPONENT`, at which a sum of desire
/// levels reaches `2`.
pub const CROWDED_WEIGHT: u64 = 0x8000_0000_0000_0000;

/// A marking probability `1 / 2^exponent`.
#[derive(Clone, Copy, Debug, PartialEq, Eq, Structural)]
pub struct DesireLevel {
    pub exponent: u32,
}

/// `2^e` for `e <= 63`.
pub fn pow2_u64(e: u32) -> (r: u64)
    requires
        e <= 63,
    ensures
        r as nat == pow2(e as nat),
{
    let mut r: u64 = 1;
    let mut i: u32 = 0;
    proof {
        lemma2_to64();
        lemma2_to64_rest();
    }
    while i < e
        invariant
            i <= e <= 63,
            r as nat == pow2(i as nat),
        decreases e - i,
    {
        proof {
            lemma_pow2_unfold((i + 1) as nat);
            lemma_pow2_strictly_increases(i as nat, 63);
            lemma2_to64();
            lemma2_to64_rest();
        }
        r = r * 2;
        i = i + 1;
    }
    r
}

impl DesireLevel {
    /// The level lies in `(0, 1/2]` and is no finer than the finest level.
    pub open spec fn wf(self) -> bool {
        1 <= self.exponent <= FINEST_EXPONENT
    }

    /// The level is the probability `1 / denominator`.
    pub open spec fn denominator(self) -> nat {
        pow2(self.exponent as nat)
    }

    /// The level in units of `1 / 2^FINEST_EXPONENT`.
    pub open spec fn weight(self) -> nat {
        pow2((FINEST_EXPONENT - self.exponent) as nat)
    }

    /// A uniform draw `draw / 2^64` in `[0, 1)` falls below the level.
    pub open spec fn marks(self, draw: u64) -> bool {
        (draw as nat) < pow2((64 - self.exponent) as nat)
    }

    /// The level after a round in which the vertex did not join: halved when
    /// its neighbourhood is crowded (at the finest level it stays), doubled
    /// otherwise, but never above `1/2`.
    pub open spec fn adapted_spec(self, crowded: bool) -> DesireLevel {
        if crowded {
            if self.exponent < FINEST_EXPONENT {
                DesireLevel { exponent: (self.exponent + 1) as u32 }
            } else {
                self
            }
        } else {
            if self.exponent > 1 {
                DesireLevel { exponent: (self.exponent - 1) as u32 }
            } else {
                self
            }
        }
    }

    /// The level every vertex starts with: `1/2`.
    pub fn initial() -> (r: DesireLevel)
        ensures
            r.exponent == 1,
            r.wf(),
    {
        DesireLevel { exponent: 1 }
    }

    /// Halves the level, down to the finest one.
    pub fn halved(self) -> (r: DesireLevel)
        requires
            self.wf(),
        ensures
            r == self.adapted_spec(true),
            r.wf(),
    {
        if self.exponent < FINEST_EXPONENT {
            DesireLevel { exponent: self.exponent + 1 }
        } else {
            self
        }
    }

    /// Doubles the level, capped at `1/2`.
    pub fn doubled(self) -> (r: DesireLevel)
        requires
            self.wf(),
        ensures
            r == self.adapted_spec(false),
            r.wf(),
    {
        if self.exponent > 1 {
            DesireLevel { exponent: self.exponent - 1 }
        } else {
            self
        }
    }

    /// The next round's level: see `adapted_spec`.
    pub fn adapted(self, crowded: bool) -> (r: DesireLevel)
        requires
            self.wf(),
        ensures
            r == self.adapted_spec(crowded),
            r.wf(),
    {
        if crowded {
            self.halved()
        } else {
            self.doubled()
        }
    }

    /// The level's weight in units of `1 / 2^FINEST_EXPONENT`.
    pub fn weight_exec(self) -> (r: u64)
        requires
            self.wf(),
        ensures
            r as nat == self.weight(),
            r <= CROWDED_WEIGHT / 2,
    {
        proof {
            lemma2_to64();
            lemma2_to64_rest();
            if FINEST_EXPONENT - self.exponent < 61 {
                lemma_pow2_strictly_increases((FINEST_EXPONENT - self.exponent) as nat, 61);
            }
            assert(CROWDED_WEIGHT / 2 == pow2(62));
            lemma_pow2_strictly_increases(61, 62);
        }
        pow2_u64(FINEST_EXPONENT - self.exponent)
    }

    /// Whether the uniform draw `draw / 2^64` marks the vertex, which happens
    /// with probability exactly `1 / denominator`.
    pub fn is_marked_by(self, draw: u64) -> (r: bool)
        requires
            self.wf(),
        ensures
            r == self.marks(draw),
    {
        let threshold = pow2_u64(64 - self.exponent);
        draw < threshold
    }
}

/// Every well-formed level is a probability in `(0, 1/2]`: its denominator is
/// at least two and finite.
pub proof fn lemma_level_in_range(level: DesireLevel)
    requires
        level.wf(),
    ensures
        2 <= level.denominator() <= pow2(FINEST_EXPONENT as nat),
        level.weight() > 0,
{
    lemma_pow2_unfold(1);
    lemma_pow2_pos(0);
    lemma_pow2_pos((FINEST_EXPONENT - level.exponent) as nat);
    if level.exponent > 1 {
        lemma_pow2_strictly_increases(1, level.exponent as nat);
    }
    if level.exponent < FINEST_EXPONENT {
        lemma_pow2_strictly_increases(level.exponent as nat, FINEST_EXPONENT as nat);
    }
    assert(pow2(0) == 1) by {
        lemma2_to64();
        lemma2_to64_rest();
    }
}

} // verus!
