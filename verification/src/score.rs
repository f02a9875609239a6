//! Candidate scores. A strategy ranks outgoing paths by a numeric value;
//! the two strategies here produce either a plain integer (a simulated
//! final score) or a value density (a ratio of two integers). Both are
//! held exactly as a rational number and compared by cross-multiplication,
//! so the ordering is total and free of rounding.

use vstd::prelude::*;

verus! {

/// Mathematical model of a score.
pub struct ScoreV {
    pub num: int,
    pub den: int,
}

/// A candidate score `num / den`, exact.
pub struct Score {
    pub num: i64,
    pub den: i64,
}

impl View for Score {
    type V = ScoreV;

    open spec fn view(&self) -> ScoreV {
        ScoreV { num: self.num as int, den: self.den as int }
    }
}

/// A usable score has a positive denominator small enough for exact
/// comparison in 128-bit arithmetic.
pub open spec fn score_wf(s: ScoreV) -> bool {
    1 <= s.den <= u32::MAX as int
}

/// `a > b` as rationals: `a.num / a.den > b.num / b.den`, stated by
/// cross-multiplication, which is valid because denominators are positive.
pub open spec fn score_gt(a: ScoreV, b: ScoreV) -> bool {
    a.num * b.den > b.num * a.den
}

impl Score {
    /// The zero score, the driver's starting point when ranking paths.
    pub fn zero() -> (s: Score)
        ensures
            s.num == 0,
            s.den == 1,
            score_wf(s@),
    {
        Score { num: 0, den: 1 }
    }

    /// An explicit value copy.
    pub fn duplicate(&self) -> (s: Score)
        ensures
            s == *self,
    {
        Score { num: self.num, den: self.den }
    }

    /// Exact rational comparison: whether `self > other`.
    pub fn gt(&self, other: &Score) -> (b: bool)
        requires
            score_wf(self@),
            score_wf(other@),
        ensures
            b == score_gt(self@, other@),
    {
        proof {
            assert(self.num as int * (other.den as int) < i128::MAX as int && self.num as int
                * (other.den as int) > i128::MIN as int && other.num as int * (self.den as int)
                < i128::MAX as int && other.num as int * (self.den as int)
                > i128::MIN as int) by (nonlinear_arith)
                requires
                    -0x8000_0000_0000_0000 <= self.num as int <= 0x7fff_ffff_ffff_ffff,
                    -0x8000_0000_0000_0000 <= other.num as int <= 0x7fff_ffff_ffff_ffff,
                    1 <= self.den as int <= 0xffff_ffff,
                    1 <= other.den as int <= 0xffff_ffff,
            ;
        }
        (self.num as i128) * (other.den as i128) > (other.num as i128) * (self.den as i128)
    }
}

} // verus!
