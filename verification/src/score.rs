//! Floating-point scores by their bit patterns.
//!
//! A score is held as the IEEE-754 encoding of the number it stands for. The
//! order below is the total order of that encoding, so ranking, negation and
//! finiteness are exact without any floating-point arithmetic.

use vstd::prelude::*;

verus! {

/// A single-precision number by its encoding.
#[derive(Clone, Copy, Debug, PartialEq, Eq, Hash, Structural)]
pub struct Score {
    pub bits: u32,
}

/// A double-precision number by its encoding.
#[derive(Clone, Copy, Debug, PartialEq, Eq, Hash, Structural)]
pub struct Double {
    pub bits: u64,
}

impl Score {
    /// Position in the total order of encodings.
    pub open spec fn order(self) -> int {
        if self.bits < 0x8000_0000 {
            self.bits as int
        } else {
            0x7fff_ffff - self.bits
        }
    }

    /// Neither infinite nor not-a-number: the exponent field is not all ones.
    pub open spec fn spec_is_finite(self) -> bool {
        self.bits % 0x8000_0000 < 0x7f80_0000
    }

    /// The encoding with its sign flipped.
    pub open spec fn spec_negated(self) -> Score {
        if self.bits < 0x8000_0000 {
            Score { bits: (self.bits + 0x8000_0000) as u32 }
        } else {
            Score { bits: (self.bits - 0x8000_0000) as u32 }
        }
    }

    /// Numerically at least zero; both zeros count.
    pub open spec fn spec_is_nonnegative(self) -> bool {
        self.bits <= 0x7f80_0000 || self.bits == 0x8000_0000
    }

    /// Whether this score ranks below `other` in the total order.
    pub fn below(self, other: Score) -> (result: bool)
        ensures
            result == (self.order() < other.order()),
    {
        if self.bits < 0x8000_0000 {
            if other.bits < 0x8000_0000 {
                self.bits < other.bits
            } else {
                false
            }
        } else if other.bits < 0x8000_0000 {
            true
        } else {
            self.bits > other.bits
        }
    }

    /// Whether the number is finite.
    pub fn is_finite(self) -> (result: bool)
        ensures
            result == self.spec_is_finite(),
    {
        self.bits % 0x8000_0000 < 0x7f80_0000
    }

    /// The number with its sign flipped.
    pub fn negated(self) -> (result: Score)
        ensures
            result == self.spec_negated(),
    {
        if self.bits < 0x8000_0000 {
            Score { bits: self.bits + 0x8000_0000 }
        } else {
            Score { bits: self.bits - 0x8000_0000 }
        }
    }

    /// Whether the number is at least zero.
    pub fn is_nonnegative(self) -> (result: bool)
        ensures
            result == self.spec_is_nonnegative(),
    {
        self.bits <= 0x7f80_0000 || self.bits == 0x8000_0000
    }
}

impl Double {
    /// Position in the total order of encodings.
    pub open spec fn order(self) -> int {
        if self.bits < 0x8000_0000_0000_0000 {
            self.bits as int
        } else {
            0x7fff_ffff_ffff_ffff - self.bits
        }
    }

    /// Neither infinite nor not-a-number: the exponent field is not all ones.
    pub open spec fn spec_is_finite(self) -> bool {
        self.bits % 0x8000_0000_0000_0000 < 0x7ff0_0000_0000_0000
    }

    /// Whether this number ranks below `other` in the total order.
    pub fn below(self, other: Double) -> (result: bool)
        ensures
            result == (self.order() < other.order()),
    {
        if self.bits < 0x8000_0000_0000_0000 {
            if other.bits < 0x8000_0000_0000_0000 {
                self.bits < other.bits
            } else {
                false
            }
        } else if other.bits < 0x8000_0000_0000_0000 {
            true
        } else {
            self.bits > other.bits
        }
    }

    /// Whether the number is finite.
    pub fn is_finite(self) -> (result: bool)
        ensures
            result == self.spec_is_finite(),
    {
        self.bits % 0x8000_0000_0000_0000 < 0x7ff0_0000_0000_0000
    }
}

/// Scores at the same place of the order are the same score.
pub proof fn lemma_order_identifies_scores(a: Score, b: Score)
    ensures
        a.order() == b.order() <==> a == b,
{
}

/// Negating twice gives the score back.
pub proof fn lemma_negation_is_an_involution(a: Score)
    ensures
        a.spec_negated().spec_negated() == a,
{
}

/// Negation reverses the order.
pub proof fn lemma_negation_reverses_order(a: Score, b: Score)
    ensures
        a.order() < b.order() <==> b.spec_negated().order() < a.spec_negated().order(),
{
}

/// Scores compare as the numbers they stand for: a positive one above every negative
/// one, positive ones by their bits, and negative ones against them.
pub proof fn lemma_scores_compare_as_numbers(a: Score, b: Score)
    ensures
        a.bits < 0x8000_0000 <= b.bits ==> b.order() < a.order(),
        a.bits < 0x8000_0000 && b.bits < 0x8000_0000 ==> (a.order() < b.order() <==> a.bits
            < b.bits),
        0x8000_0000 <= a.bits && 0x8000_0000 <= b.bits ==> (a.order() < b.order() <==> b.bits
            < a.bits),
{
}

/// Double-precision scores compare as the numbers they stand for.
pub proof fn lemma_double_scores_compare_as_numbers(a: Double, b: Double)
    ensures
        a.bits < 0x8000_0000_0000_0000 <= b.bits ==> b.order() < a.order(),
        a.bits < 0x8000_0000_0000_0000 && b.bits < 0x8000_0000_0000_0000 ==> (a.order() < b.order()
            <==> a.bits < b.bits),
        0x8000_0000_0000_0000 <= a.bits && 0x8000_0000_0000_0000 <= b.bits ==> (a.order()
            < b.order() <==> b.bits < a.bits),
{
}

/// A score is finite where its size lies below that of infinity, whatever its sign.
pub proof fn lemma_finite_scores_lie_below_infinity(a: Score, d: Double)
    ensures
        a.bits < 0x8000_0000 ==> (a.spec_is_finite() <==> a.bits < 0x7f80_0000),
        a.bits >= 0x8000_0000 ==> (a.spec_is_finite() <==> a.bits < 0xff80_0000),
        d.bits < 0x8000_0000_0000_0000 ==> (d.spec_is_finite() <==> d.bits
            < 0x7ff0_0000_0000_0000),
        d.bits >= 0x8000_0000_0000_0000 ==> (d.spec_is_finite() <==> d.bits
            < 0xfff0_0000_0000_0000),
{
}

/// Negation flips the sign and keeps the size.
pub proof fn lemma_negation_flips_the_sign(a: Score)
    ensures
        a.bits < 0x8000_0000 ==> a.spec_negated().bits == a.bits + 0x8000_0000,
        a.bits >= 0x8000_0000 ==> a.spec_negated().bits == a.bits - 0x8000_0000,
        a.spec_is_nonnegative() <==> a.bits <= 0x7f80_0000 || a.bits == 0x8000_0000,
{
}

} // verus!
