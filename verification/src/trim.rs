//! Boundary detection and trimming: two independent windowed scans over
//! the sample sequence find the first and last loud window, and the
//! enclosed sub-sequence is the trim result.

use vstd::prelude::*;

use vstd::arithmetic::div_mod::lemma_mod_sub_multiples_vanish;
use vstd::arithmetic::div_mod::lemma_small_mod;

use crate::energy::{
    lemma_sum_sq_all_zero, lemma_sum_sq_const, window_loud, window_loud_range,
};

verus! {

/// The smaller of two integers.
pub open spec fn min_int(a: int, b: int) -> int {
    if a <= b {
        a
    } else {
        b
    }
}

/// Forward scan from window start `i`: the first candidate position
/// `i, i + ws, i + 2*ws, ...` below `s.len()` whose window
/// `[i, min(i + ws, len))` is loud; `s.len()` if none is.
pub open spec fn fwd_from(s: Seq<i16>, t: u64, ws: nat, i: nat) -> nat
    decreases s.len() + ws - i,
{
    if ws == 0 || i >= s.len() {
        s.len()
    } else if window_loud(s.subrange(i as int, min_int(i + ws as int, s.len() as int)), t) {
        i
    } else {
        fwd_from(s, t, ws, i + ws)
    }
}

/// Backward scan from candidate right boundary `i`: the first candidate
/// `i, i - ws, i - 2*ws, ...` whose window `[max(i - ws, 0), i)` is
/// loud; `0` if none is.
pub open spec fn bwd_from(s: Seq<i16>, t: u64, ws: nat, i: nat) -> nat
    decreases i,
{
    if ws == 0 {
        0
    } else if window_loud(s.subrange(if i >= ws { i - ws } else { 0 }, i as int), t) {
        i
    } else if i < ws {
        0
    } else {
        bwd_from(s, t, ws, (i - ws) as nat)
    }
}

/// Start boundary of the trim: the first sample of the first loud window.
pub open spec fn trim_start(s: Seq<i16>, t: u64, ws: nat) -> nat {
    fwd_from(s, t, ws, 0)
}

/// End boundary of the trim: one past the last sample of the last loud
/// window of the end-anchored grid.
pub open spec fn trim_end(s: Seq<i16>, t: u64, ws: nat) -> nat {
    bwd_from(s, t, ws, s.len())
}

/// The trim result: the sub-sequence between the two boundaries, or
/// empty when the boundaries cross (everything judged silent).
pub open spec fn trim_spec(s: Seq<i16>, t: u64, ws: nat) -> Seq<i16> {
    if trim_start(s, t, ws) < trim_end(s, t, ws) {
        s.subrange(trim_start(s, t, ws) as int, trim_end(s, t, ws) as int)
    } else {
        Seq::empty()
    }
}

/// A window of zero samples is never loud.
proof fn lemma_zero_window_not_loud(w: Seq<i16>, t: u64)
    requires
        forall|k: int| 0 <= k < w.len() ==> w[k] == 0,
    ensures
        !window_loud(w, t),
{
    lemma_sum_sq_all_zero(w);
    assert((t as int) * (w.len() as int) >= 0) by (nonlinear_arith)
        requires
            t >= 0,
            w.len() >= 0,
    ;
}

/// A non-empty window of constant value `v` is loud whenever `v^2`
/// (scaled by 2^32) strictly exceeds the squared threshold.
proof fn lemma_const_window_loud(w: Seq<i16>, t: u64, v: i16)
    requires
        w.len() >= 1,
        forall|k: int| 0 <= k < w.len() ==> w[k] == v,
        (v as int) * (v as int) * 0x1_0000_0000 > t as int,
    ensures
        window_loud(w, t),
{
    lemma_sum_sq_const(w, v);
    let n = w.len() as int;
    let x = v as int;
    assert(n * x * x * 0x1_0000_0000 > (t as int) * n) by (nonlinear_arith)
        requires
            n >= 1,
            x * x * 0x1_0000_0000 > t as int,
            t >= 0,
    ;
}

/// The forward scan skips a region of zero samples: scanning from `i`
/// gives the same boundary as scanning from `n`, when `[i, n)` holds
/// only zeros and is a whole number of windows.
proof fn lemma_fwd_skip_zeros(s: Seq<i16>, t: u64, ws: nat, i: nat, n: nat)
    requires
        ws >= 1,
        i <= n <= s.len(),
        (n - i) % (ws as int) == 0,
        forall|k: int| i <= k < n ==> s[k] == 0,
    ensures
        fwd_from(s, t, ws, i) == fwd_from(s, t, ws, n),
    decreases n - i,
{
    if i < n {
        if n - i < ws {
            lemma_small_mod((n - i) as nat, ws);
            assert(false);
        }
        let w = s.subrange(i as int, min_int(i + ws as int, s.len() as int));
        assert(w =~= s.subrange(i as int, i + ws as int));
        assert(forall|k: int| 0 <= k < w.len() ==> w[k] == 0);
        lemma_zero_window_not_loud(w, t);
        assert((-(ws as int) + (n - i)) % (ws as int) == (n - i) % (ws as int)) by {
            lemma_mod_sub_multiples_vanish(n - i, ws as int);
        }
        lemma_fwd_skip_zeros(s, t, ws, i + ws, n);
    }
}

/// The backward scan skips a region of zero samples: scanning from `i`
/// gives the same boundary as scanning from `n`, when `[n, i)` holds
/// only zeros and is a whole number of windows.
proof fn lemma_bwd_skip_zeros(s: Seq<i16>, t: u64, ws: nat, n: nat, i: nat)
    requires
        ws >= 1,
        n <= i <= s.len(),
        (i - n) % (ws as int) == 0,
        forall|k: int| n <= k < i ==> s[k] == 0,
    ensures
        bwd_from(s, t, ws, i) == bwd_from(s, t, ws, n),
    decreases i - n,
{
    if n < i {
        if i - n < ws {
            lemma_small_mod((i - n) as nat, ws);
            assert(false);
        }
        let w = s.subrange(i - ws, i as int);
        assert(forall|k: int| 0 <= k < w.len() ==> w[k] == 0);
        lemma_zero_window_not_loud(w, t);
        assert((-(ws as int) + (i - n)) % (ws as int) == (i - n) % (ws as int)) by {
            lemma_mod_sub_multiples_vanish(i - n, ws as int);
        }
        lemma_bwd_skip_zeros(s, t, ws, n, (i - ws) as nat);
    }
}

/// On an all-zero sequence the forward scan finds nothing: the start
/// boundary is the sequence length.
proof fn lemma_fwd_all_zero(s: Seq<i16>, t: u64, ws: nat, i: nat)
    requires
        ws >= 1,
        forall|k: int| 0 <= k < s.len() ==> s[k] == 0,
    ensures
        fwd_from(s, t, ws, i) == s.len(),
    decreases s.len() + ws - i,
{
    if i < s.len() {
        let w = s.subrange(i as int, min_int(i + ws as int, s.len() as int));
        assert(forall|k: int| 0 <= k < w.len() ==> w[k] == 0);
        lemma_zero_window_not_loud(w, t);
        lemma_fwd_all_zero(s, t, ws, i + ws);
    }
}

/// On an all-zero sequence the backward scan finds nothing: the end
/// boundary is zero.
proof fn lemma_bwd_all_zero(s: Seq<i16>, t: u64, ws: nat, i: nat)
    requires
        ws >= 1,
        i <= s.len(),
        forall|k: int| 0 <= k < s.len() ==> s[k] == 0,
    ensures
        bwd_from(s, t, ws, i) == 0,
    decreases i,
{
    let w = s.subrange(if i >= ws { i - ws } else { 0 }, i as int);
    assert(forall|k: int| 0 <= k < w.len() ==> w[k] == 0);
    lemma_zero_window_not_loud(w, t);
    if i >= ws {
        lemma_bwd_all_zero(s, t, ws, (i - ws) as nat);
    }
}

/// The forward scan's result lies between its starting point and the
/// sequence length, and a result short of the length marks a loud window.
proof fn lemma_fwd_props(s: Seq<i16>, t: u64, ws: nat, i: nat)
    requires
        ws >= 1,
        i <= s.len(),
    ensures
        i <= fwd_from(s, t, ws, i) <= s.len(),
        fwd_from(s, t, ws, i) < s.len() ==> window_loud(
            s.subrange(
                fwd_from(s, t, ws, i) as int,
                min_int(fwd_from(s, t, ws, i) + ws as int, s.len() as int),
            ),
            t,
        ),
    decreases s.len() + ws - i,
{
    if i < s.len() && !window_loud(s.subrange(i as int, min_int(i + ws as int, s.len() as int)), t) {
        if i + ws <= s.len() {
            lemma_fwd_props(s, t, ws, i + ws);
        } else {
            assert(fwd_from(s, t, ws, i + ws) == s.len());
        }
    }
}

/// The backward scan's result is at most its starting point, and a
/// positive result marks a loud window.
proof fn lemma_bwd_props(s: Seq<i16>, t: u64, ws: nat, i: nat)
    requires
        ws >= 1,
        i <= s.len(),
    ensures
        bwd_from(s, t, ws, i) <= i,
        bwd_from(s, t, ws, i) > 0 ==> window_loud(
            s.subrange(
                if bwd_from(s, t, ws, i) >= ws {
                    bwd_from(s, t, ws, i) - ws
                } else {
                    0
                },
                bwd_from(s, t, ws, i) as int,
            ),
            t,
        ),
    decreases i,
{
    if !window_loud(s.subrange(if i >= ws { i - ws } else { 0 }, i as int), t) && i >= ws {
        lemma_bwd_props(s, t, ws, (i - ws) as nat);
    }
}

/// A sequence of only zero samples trims to nothing, at every threshold
/// and window size.
pub proof fn lemma_trim_all_silence(s: Seq<i16>, t: u64, ws: nat)
    requires
        ws >= 1,
        forall|k: int| 0 <= k < s.len() ==> s[k] == 0,
    ensures
        trim_spec(s, t, ws) == Seq::<i16>::empty(),
{
    lemma_fwd_all_zero(s, t, ws, 0);
    lemma_bwd_all_zero(s, t, ws, s.len());
}

/// A constant loud block between leading and trailing silence trims to
/// exactly the block: `n` zero samples, then `m` samples of value `v`,
/// then `n` zero samples, with the window size dividing `n` and `m` and
/// a window of the block loud, give back precisely the block.
pub proof fn lemma_trim_silence_block(s: Seq<i16>, t: u64, ws: nat, n: nat, m: nat, v: i16)
    requires
        ws >= 1,
        s.len() == n + m + n,
        (n as int) % (ws as int) == 0,
        (m as int) % (ws as int) == 0,
        m >= 1,
        forall|k: int| 0 <= k < n ==> s[k] == 0,
        forall|k: int| n <= k < n + m ==> s[k] == v,
        forall|k: int| n + m <= k < s.len() ==> s[k] == 0,
        (v as int) * (v as int) * 0x1_0000_0000 > t as int,
    ensures
        trim_spec(s, t, ws) == s.subrange(n as int, n + m as int),
        forall|k: int| 0 <= k < m ==> trim_spec(s, t, ws)[k] == v,
{
    if m < ws {
        lemma_small_mod(m, ws);
        assert(false);
    }
    lemma_fwd_skip_zeros(s, t, ws, 0, n);
    let wf = s.subrange(n as int, min_int(n + ws as int, s.len() as int));
    assert(wf =~= s.subrange(n as int, n + ws as int));
    lemma_const_window_loud(wf, t, v);
    assert(fwd_from(s, t, ws, n) == n);

    lemma_bwd_skip_zeros(s, t, ws, n + m, s.len());
    let wb = s.subrange(n + m - ws as int, n + m as int);
    assert(forall|k: int| 0 <= k < wb.len() ==> wb[k] == v);
    lemma_const_window_loud(wb, t, v);
    assert(bwd_from(s, t, ws, n + m) == n + m);
}

/// When the first window of the forward grid and the last window of the
/// backward grid are both loud, trimming keeps the sequence unchanged.
pub proof fn lemma_trim_identity(s: Seq<i16>, t: u64, ws: nat)
    requires
        ws >= 1,
        s.len() >= 1,
        window_loud(s.subrange(0, min_int(ws as int, s.len() as int)), t),
        window_loud(s.subrange(if s.len() >= ws { s.len() - ws } else { 0 }, s.len() as int), t),
    ensures
        trim_spec(s, t, ws) == s,
{
    assert(trim_start(s, t, ws) == 0);
    assert(trim_end(s, t, ws) == s.len());
    assert(s.subrange(0, s.len() as int) =~= s);
}

/// Trimming is idempotent on results that span at least one window: the
/// boundary windows of such a result are loud, so a second trim with
/// the same threshold and window size keeps it whole.
pub proof fn lemma_trim_idempotent(s: Seq<i16>, t: u64, ws: nat)
    requires
        ws >= 1,
        trim_spec(s, t, ws).len() >= ws,
    ensures
        trim_spec(trim_spec(s, t, ws), t, ws) == trim_spec(s, t, ws),
{
    let start = trim_start(s, t, ws);
    let end = trim_end(s, t, ws);
    assert(start < end);
    let r = trim_spec(s, t, ws);
    assert(r == s.subrange(start as int, end as int));
    lemma_fwd_props(s, t, ws, 0);
    lemma_bwd_props(s, t, ws, s.len());
    assert(start < s.len());
    assert(start + ws <= end <= s.len());
    assert(min_int(start + ws as int, s.len() as int) == start + ws);
    assert(window_loud(s.subrange(start as int, start + ws as int), t));
    assert(end >= ws);
    assert(window_loud(s.subrange(end - ws, end as int), t));

    assert(r.subrange(0, min_int(0 + ws as int, r.len() as int)) =~= s.subrange(
        start as int,
        start + ws as int,
    ));
    assert(fwd_from(r, t, ws, 0) == 0);
    assert(r.subrange(if r.len() >= ws { r.len() - ws } else { 0 }, r.len() as int) =~= s.subrange(
        end - ws,
        end as int,
    ));
    assert(bwd_from(r, t, ws, r.len()) == r.len());
    assert(r.subrange(0, r.len() as int) =~= r);
}

/// A window size of at least the sequence length degenerates to a
/// single whole-sequence window for both scans: the result is the whole
/// sequence when it is loud and empty otherwise.
pub proof fn lemma_trim_single_window(s: Seq<i16>, t: u64, ws: nat)
    requires
        ws >= 1,
        ws >= s.len(),
    ensures
        trim_spec(s, t, ws) == if window_loud(s, t) {
            s
        } else {
            Seq::<i16>::empty()
        },
{
    if s.len() == 0 {
        assert(!window_loud(s, t));
    } else {
        assert(s.subrange(0, min_int(ws as int, s.len() as int)) =~= s);
        assert(s.subrange(if s.len() >= ws { s.len() - ws } else { 0 }, s.len() as int) =~= s);
        if window_loud(s, t) {
            assert(trim_start(s, t, ws) == 0);
            assert(trim_end(s, t, ws) == s.len());
            assert(s.subrange(0, s.len() as int) =~= s);
        } else {
            assert(fwd_from(s, t, ws, ws) == s.len());
            assert(trim_start(s, t, ws) == s.len());
            if s.len() == ws {
                assert(s.subrange(0, 0) =~= Seq::<i16>::empty());
                lemma_zero_window_not_loud(s.subrange(0, 0), t);
                assert(bwd_from(s, t, ws, 0nat) == 0);
            }
            assert(trim_end(s, t, ws) == 0);
        }
    }
}

/// Runs the forward scan.
fn find_start(samples: &[i16], threshold_sq_q32: u64, window_size: usize) -> (start: usize)
    requires
        window_size >= 1,
        samples@.len() <= 0x1_0000_0000,
    ensures
        start as nat == trim_start(samples@, threshold_sq_q32, window_size as nat),
        start <= samples@.len(),
{
    let ghost s = samples@;
    let ghost t = threshold_sq_q32;
    let ghost ws = window_size as nat;
    let len = samples.len();
    let mut i: usize = 0;
    let mut searching: bool = true;
    let mut start: usize = len;
    while searching && i < len
        invariant
            window_size >= 1,
            s == samples@,
            t == threshold_sq_q32,
            ws == window_size as nat,
            len == s.len() <= 0x1_0000_0000,
            i <= len,
            searching ==> start == len && fwd_from(s, t, ws, i as nat) == trim_start(s, t, ws),
            !searching ==> start as nat == trim_start(s, t, ws) && start <= len,
        decreases len - i + (if searching { 1int } else { 0int }),
    {
        let hi = if len - i > window_size { i + window_size } else { len };
        if window_loud_range(samples, i, hi, threshold_sq_q32) {
            proof {
                assert(hi as int == min_int(i + ws, s.len() as int));
            }
            start = i;
            searching = false;
        } else {
            proof {
                assert(hi as int == min_int(i + ws, s.len() as int));
                assert(fwd_from(s, t, ws, i as nat) == fwd_from(s, t, ws, (i + ws) as nat));
                if i + ws >= len {
                    assert(fwd_from(s, t, ws, (i + ws) as nat) == s.len());
                    assert(fwd_from(s, t, ws, len as nat) == s.len());
                }
            }
            if len - i > window_size {
                i = i + window_size;
            } else {
                i = len;
            }
        }
    }
    proof {
        if searching {
            assert(i == len);
            assert(fwd_from(s, t, ws, len as nat) == s.len());
        }
    }
    start
}

/// Runs the backward scan.
fn find_end(samples: &[i16], threshold_sq_q32: u64, window_size: usize) -> (end: usize)
    requires
        window_size >= 1,
        samples@.len() <= 0x1_0000_0000,
    ensures
        end as nat == trim_end(samples@, threshold_sq_q32, window_size as nat),
        end <= samples@.len(),
{
    let ghost s = samples@;
    let ghost t = threshold_sq_q32;
    let ghost ws = window_size as nat;
    let len = samples.len();
    let mut i: usize = len;
    let mut searching: bool = true;
    let mut end: usize = 0;
    while searching
        invariant
            window_size >= 1,
            s == samples@,
            t == threshold_sq_q32,
            ws == window_size as nat,
            len == s.len() <= 0x1_0000_0000,
            i <= len,
            searching ==> end == 0 && bwd_from(s, t, ws, i as nat) == trim_end(s, t, ws),
            !searching ==> end as nat == trim_end(s, t, ws) && end <= len,
        decreases i + (if searching { 1int } else { 0int }),
    {
        let lo = if i >= window_size { i - window_size } else { 0 };
        if window_loud_range(samples, lo, i, threshold_sq_q32) {
            end = i;
            searching = false;
        } else if i < window_size {
            searching = false;
        } else {
            i = i - window_size;
        }
    }
    end
}

/// Trims leading and trailing silence from `samples`.
///
/// A window is judged loud when its mean squared sample value strictly
/// exceeds `threshold_sq_q32 / 2^32`, the square of the linear RMS
/// threshold.  The forward scan partitions the sequence into windows of
/// `window_size` samples from index 0 (the last one clipped); the
/// backward scan examines windows of the end-anchored grid.  The result
/// is the sub-sequence from the first loud window's first sample to one
/// past the last loud window's last sample, or empty when every window
/// is silent.
pub fn trim_samples(samples: &[i16], threshold_sq_q32: u64, window_size: usize) -> (out: Vec<i16>)
    requires
        window_size >= 1,
        samples@.len() <= 0x1_0000_0000,
    ensures
        out@ == trim_spec(samples@, threshold_sq_q32, window_size as nat),
{
    let ghost s = samples@;
    let ghost t = threshold_sq_q32;
    let ghost ws = window_size as nat;
    let len = samples.len();
    if len == 0 {
        return Vec::new();
    }
    let start = find_start(samples, threshold_sq_q32, window_size);
    let end = find_end(samples, threshold_sq_q32, window_size);
    let mut out: Vec<i16> = Vec::new();
    if start < end {
        let mut j: usize = start;
        while j < end
            invariant
                start <= j <= end <= s.len(),
                s == samples@,
                out@ == s.subrange(start as int, j as int),
            decreases end - j,
        {
            out.push(samples[j]);
            proof {
                assert(out@ =~= s.subrange(start as int, j + 1));
            }
            j = j + 1;
        }
    }
    out
}

} // verus!
