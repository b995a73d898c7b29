//! Window energy: exact sum of squared samples and the "loud window"
//! predicate used by the trimmer.

use vstd::prelude::*;

verus! {

/// Sum of the squares of the samples of `s`, as a mathematical integer.
pub open spec fn sum_sq_of(s: Seq<i16>) -> int
    decreases s.len(),
{
    if s.len() == 0 {
        0
    } else {
        sum_sq_of(s.drop_last()) + (s.last() as int) * (s.last() as int)
    }
}

/// The sum of squares is non-negative and at most `len * 32768^2`.
pub proof fn lemma_sum_sq_bounds(s: Seq<i16>)
    ensures
        0 <= sum_sq_of(s) <= s.len() * 0x4000_0000,
    decreases s.len(),
{
    if s.len() > 0 {
        lemma_sum_sq_bounds(s.drop_last());
        let v = s.last() as int;
        assert(0 <= v * v <= 0x4000_0000) by (nonlinear_arith)
            requires
                -0x8000 <= v <= 0x7fff,
        ;
        assert((s.len() - 1) * 0x4000_0000 + 0x4000_0000 == s.len() * 0x4000_0000)
            by (nonlinear_arith);
    }
}

/// A sequence of zero samples has zero energy (any length, including empty).
pub proof fn lemma_sum_sq_all_zero(s: Seq<i16>)
    requires
        forall|k: int| 0 <= k < s.len() ==> s[k] == 0,
    ensures
        sum_sq_of(s) == 0,
    decreases s.len(),
{
    if s.len() > 0 {
        lemma_sum_sq_all_zero(s.drop_last());
    }
}

/// A constant sequence of value `v` has energy `len * v^2`.
pub proof fn lemma_sum_sq_const(s: Seq<i16>, v: i16)
    requires
        forall|k: int| 0 <= k < s.len() ==> s[k] == v,
    ensures
        sum_sq_of(s) == s.len() * (v as int) * (v as int),
    decreases s.len(),
{
    if s.len() == 0 {
        assert(sum_sq_of(s) == 0);
    } else {
        lemma_sum_sq_const(s.drop_last(), v);
        let n = s.len() as int;
        let x = v as int;
        assert((n - 1) * x * x + x * x == n * x * x) by (nonlinear_arith);
    }
}

/// A window is loud when its mean squared sample value strictly exceeds
/// the squared linear RMS threshold.  `threshold_sq_q32` is that squared
/// threshold in Q32.32 fixed point, so the comparison
/// `mean(sample^2) > threshold^2` becomes, multiplied through by
/// `2^32 * len`, the exact integer comparison below.
pub open spec fn window_loud(s: Seq<i16>, threshold_sq_q32: u64) -> bool {
    sum_sq_of(s) * 0x1_0000_0000 > (threshold_sq_q32 as int) * (s.len() as int)
}

/// Computes the exact sum of squared samples of `s[lo..hi]`.
pub fn sum_squares_range(s: &[i16], lo: usize, hi: usize) -> (total: u64)
    requires
        lo <= hi <= s@.len(),
        hi - lo <= 0x1_0000_0000,
    ensures
        total == sum_sq_of(s@.subrange(lo as int, hi as int)),
        total <= (hi - lo) * 0x4000_0000,
{
    let mut total: u64 = 0;
    let mut j: usize = lo;
    while j < hi
        invariant
            lo <= j <= hi <= s@.len(),
            hi - lo <= 0x1_0000_0000,
            total == sum_sq_of(s@.subrange(lo as int, hi as int).subrange(0, j - lo)),
            total <= (j - lo) * 0x4000_0000,
        decreases hi - j,
    {
        let v: i64 = s[j] as i64;
        assert(0 <= v * v <= 0x4000_0000) by (nonlinear_arith)
            requires
                -0x8000 <= v <= 0x7fff,
        ;
        let sq: u64 = (v * v) as u64;
        proof {
            let w = s@.subrange(lo as int, hi as int);
            assert(w.subrange(0, j + 1 - lo).drop_last() =~= w.subrange(0, j - lo));
            assert(w.subrange(0, j + 1 - lo).last() == s@[j as int]);
            assert((j - lo) * 0x4000_0000 + 0x4000_0000 == (j + 1 - lo) * 0x4000_0000)
                by (nonlinear_arith);
            assert((j + 1 - lo) * 0x4000_0000 <= 0x1_0000_0000 * 0x4000_0000)
                by (nonlinear_arith)
                requires
                    j + 1 - lo <= 0x1_0000_0000,
            ;
        }
        total = total + sq;
        j = j + 1;
    }
    proof {
        let w = s@.subrange(lo as int, hi as int);
        assert(w.subrange(0, hi - lo) =~= w);
    }
    total
}

/// Computes the exact sum of squared samples of a whole chunk.
pub fn sum_squares(chunk: &[i16]) -> (total: u64)
    requires
        chunk@.len() <= 0x1_0000_0000,
    ensures
        total == sum_sq_of(chunk@),
{
    let total = sum_squares_range(chunk, 0, chunk.len());
    proof {
        assert(chunk@.subrange(0, chunk@.len() as int) =~= chunk@);
    }
    total
}

/// Decides whether the window `s[lo..hi]` is loud for the given squared
/// threshold, by the exact integer comparison of `window_loud`.
pub fn window_loud_range(s: &[i16], lo: usize, hi: usize, threshold_sq_q32: u64) -> (loud: bool)
    requires
        lo <= hi <= s@.len(),
        hi - lo <= 0x1_0000_0000,
    ensures
        loud == window_loud(s@.subrange(lo as int, hi as int), threshold_sq_q32),
{
    let total = sum_squares_range(s, lo, hi);
    let n: u64 = (hi - lo) as u64;
    proof {
        lemma_sum_sq_bounds(s@.subrange(lo as int, hi as int));
        assert((threshold_sq_q32 as int) * (n as int) <= 0xffff_ffff_ffff_ffff * 0x1_0000_0000)
            by (nonlinear_arith)
            requires
                0 <= threshold_sq_q32 <= 0xffff_ffff_ffff_ffff,
                0 <= n <= 0x1_0000_0000,
        ;
    }
    (total as u128) * 0x1_0000_0000u128 > (threshold_sq_q32 as u128) * (n as u128)
}

} // verus!
