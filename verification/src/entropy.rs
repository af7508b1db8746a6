//! Entropy profiler: the buffer is cut into fixed-size slices, and for a
//! strided selection of slices the exact 256-bin byte histogram is produced.
//! The Shannon entropy of a slice is a function of its histogram alone, so
//! the histogram sequence is the exact integer content of the profile; the
//! floating-point fold `-p*log2(p)` belongs to the rendering boundary.
//!
//! Striding is a deliberate accuracy/performance trade-off: evaluating every
//! slice of a large buffer would produce an unbounded profile, so slices are
//! sampled at a byte stride of `max(window_size, len / 2000)` rounded up to
//! a whole number of slices, which bounds the profile near 2000 points and
//! biases it toward the start of the buffer when the stride skips unevenly.

use crate::spec_min;
use vstd::arithmetic::div_mod::lemma_div_is_ordered;
use vstd::arithmetic::div_mod::lemma_div_is_ordered_by_denominator;
use vstd::arithmetic::div_mod::lemma_div_multiples_vanish;
use vstd::arithmetic::div_mod::lemma_fundamental_div_mod;
use vstd::prelude::*;

verus! {

/// Number of occurrences of byte `b` in `s`.
pub open spec fn count_byte(s: Seq<u8>, b: u8) -> int
    decreases s.len(),
{
    if s.len() == 0 {
        0
    } else {
        count_byte(s.drop_last(), b) + if s.last() == b {
            1int
        } else {
            0int
        }
    }
}

/// A byte occurs no more often than the slice is long.
pub proof fn lemma_count_byte_le(s: Seq<u8>, b: u8)
    ensures
        0 <= count_byte(s, b) <= s.len(),
    decreases s.len(),
{
    if s.len() > 0 {
        lemma_count_byte_le(s.drop_last(), b);
    }
}

/// Appending one byte raises exactly that byte's count by one.
pub proof fn lemma_count_byte_push(s: Seq<u8>, v: u8, b: u8)
    ensures
        count_byte(s.push(v), b) == count_byte(s, b) + if v == b {
            1int
        } else {
            0int
        },
{
    assert(s.push(v).drop_last() =~= s);
    assert(s.push(v).last() == v);
}

/// In a slice holding one repeated byte value, that value accounts for the
/// whole count and every other bin is empty (the zero-entropy histogram).
pub proof fn lemma_count_byte_constant(s: Seq<u8>, v: u8, b: u8)
    requires
        forall|i: int| 0 <= i < s.len() ==> s[i] == v,
    ensures
        count_byte(s, b) == if b == v {
            s.len() as int
        } else {
            0int
        },
    decreases s.len(),
{
    if s.len() > 0 {
        lemma_count_byte_constant(s.drop_last(), v, b);
    }
}

/// The 256-bin histogram of a slice.
pub open spec fn hist_of(s: Seq<u8>) -> Seq<usize> {
    Seq::new(256, |b: int| count_byte(s, b as u8) as usize)
}

/// Zero-entropy law: a slice holding one repeated byte value has the
/// degenerate histogram — the whole count in that value's bin, every other
/// bin empty. The Shannon entropy of such a histogram is exactly zero,
/// since its only nonzero bin has probability one.
pub proof fn lemma_hist_of_constant(s: Seq<u8>, v: u8)
    requires
        forall|i: int| 0 <= i < s.len() ==> s[i] == v,
        s.len() <= usize::MAX,
    ensures
        forall|b: int| 0 <= b < 256 && b != v ==> #[trigger] hist_of(s)[b] == 0,
        hist_of(s)[v as int] == s.len(),
{
    assert forall|b: int| 0 <= b < 256 implies (#[trigger] hist_of(s)[b]) == (if b == v {
        s.len() as int
    } else {
        0int
    }) by {
        lemma_count_byte_constant(s, v, b as u8);
    }
}

/// Byte stride between evaluated slices: `max(ws, len / 2000)` rounded up
/// to the next whole multiple of the slice size `ws`.
pub open spec fn spec_stride(len: int, ws: int) -> int {
    let step = if len / 2000 > ws {
        len / 2000
    } else {
        ws
    };
    (step / ws + 1) * ws
}

/// How many slices the profile evaluates on a buffer of `len` bytes.
pub open spec fn spec_num_windows(len: int, ws: int) -> int {
    if len == 0 {
        0
    } else {
        (len - 1) / spec_stride(len, ws) + 1
    }
}

/// The stride always exceeds `len / 2000`, whole slices being skipped.
proof fn lemma_stride_exceeds(len: int, ws: int)
    requires
        0 <= len,
        1 <= ws,
    ensures
        spec_stride(len, ws) > len / 2000,
        spec_stride(len, ws) >= ws,
{
    let step = if len / 2000 > ws {
        len / 2000
    } else {
        ws
    };
    let q = step / ws;
    lemma_fundamental_div_mod(step, ws);
    assert(ws * q == step - step % ws);
    assert((q + 1) * ws == q * ws + ws) by (nonlinear_arith);
    assert(q * ws == ws * q) by (nonlinear_arith);
    assert(spec_stride(len, ws) == step - step % ws + ws);
}

/// Bounded-profile law: whatever the buffer's length, the entropy profile
/// evaluates at most 2000 slices, because the byte stride always exceeds
/// `len / 2000`.
pub proof fn lemma_profile_bounded(len: int, ws: int)
    requires
        0 <= len,
        1 <= ws,
    ensures
        0 <= spec_num_windows(len, ws) <= 2000,
        len >= 1 ==> spec_num_windows(len, ws) >= 1,
{
    if len >= 1 {
        let q0 = len / 2000;
        let stride = spec_stride(len, ws);
        lemma_stride_exceeds(len, ws);
        assert(stride >= q0 + 1);
        lemma_fundamental_div_mod(len, 2000);
        assert(len - 1 < 2000 * (q0 + 1));
        lemma_div_is_ordered_by_denominator(len - 1, q0 + 1, stride);
        assert((len - 1) / (q0 + 1) < 2000) by {
            let d = q0 + 1;
            let q = (len - 1) / d;
            if q >= 2000 {
                lemma_fundamental_div_mod(len - 1, d);
                assert(len - 1 == d * q + (len - 1) % d);
                assert(d * q >= d * 2000) by (nonlinear_arith)
                    requires
                        q >= 2000,
                        d >= 1,
                ;
                assert(d * 2000 == 2000 * d) by (nonlinear_arith);
                assert(false);
            }
        }
        lemma_div_pos(len - 1, stride);
    }
}

/// Integer division of a non-negative value is non-negative.
proof fn lemma_div_pos(x: int, d: int)
    requires
        0 <= x,
        1 <= d,
    ensures
        0 <= x / d,
{
    lemma_div_is_ordered(0, x, d);
    lemma_div_multiples_vanish(0, d);
}

/// The slice starting at `start`: `ws` bytes, or fewer at the buffer's end.
pub open spec fn window_at(data: Seq<u8>, start: int, ws: int) -> Seq<u8> {
    data.subrange(start, spec_min(start + ws, data.len() as int))
}

/// The histogram sequence of the whole profile.
pub open spec fn spec_entropy_histograms(data: Seq<u8>, ws: int) -> Seq<Seq<usize>> {
    Seq::new(
        spec_num_windows(data.len() as int, ws) as nat,
        |j: int| hist_of(window_at(data, j * spec_stride(data.len() as int, ws), ws)),
    )
}

/// The histogram views of an executable profile.
pub open spec fn hists_view(hs: Seq<Vec<usize>>) -> Seq<Seq<usize>> {
    hs.map_values(|v: Vec<usize>| v@)
}

/// Exact 256-bin byte histogram of `data[start..end]`.
pub fn shannon_histogram(data: &Vec<u8>, start: usize, end: usize) -> (counts: Vec<usize>)
    requires
        start <= end <= data@.len(),
    ensures
        counts@.len() == 256,
        counts@ == hist_of(data@.subrange(start as int, end as int)),
{
    let mut counts: Vec<usize> = Vec::new();
    while counts.len() < 256
        invariant
            counts@.len() <= 256,
            forall|b: int| 0 <= b < counts@.len() ==> counts@[b] == 0,
        decreases 256 - counts@.len(),
    {
        counts.push(0);
    }
    let n = data.len();
    let mut p: usize = start;
    proof {
        assert(data@.subrange(start as int, start as int) =~= Seq::<u8>::empty());
    }
    while p < end
        invariant
            n == data@.len(),
            start <= p <= end <= n,
            counts@.len() == 256,
            forall|b: int|
                0 <= b < 256 ==> #[trigger] counts@[b] == count_byte(
                    data@.subrange(start as int, p as int),
                    b as u8,
                ),
            forall|b: int| 0 <= b < 256 ==> #[trigger] counts@[b] <= p - start,
        decreases end - p,
    {
        let byte = data[p];
        let c = counts[byte as usize];
        counts.set(byte as usize, c + 1);
        proof {
            let pre = data@.subrange(start as int, p as int);
            let post = data@.subrange(start as int, p as int + 1);
            assert(post =~= pre.push(data@[p as int]));
            assert forall|b: int| 0 <= b < 256 implies #[trigger] counts@[b] == count_byte(
                post,
                b as u8,
            ) && counts@[b] <= p + 1 - start by {
                lemma_count_byte_push(pre, data@[p as int], b as u8);
            }
        }
        p = p + 1;
    }
    proof {
        assert(counts@ =~= hist_of(data@.subrange(start as int, end as int)));
    }
    counts
}

/// The entropy profile of a buffer: the histogram of the slice at byte
/// offset `j * stride` for each `j` with `j * stride < len`. The stride is
/// `spec_stride(len, ws)`, so the profile holds about 2000 slices at most;
/// an empty buffer yields an empty profile, and a buffer shorter than one
/// slice yields exactly one histogram of the partial slice.
pub fn entropy_window_histograms(data: &Vec<u8>, window_size: usize) -> (hists: Vec<Vec<usize>>)
    requires
        1 <= window_size <= 65536,
    ensures
        hists@.len() == spec_num_windows(data@.len() as int, window_size as int),
        hists@.len() <= 2000,
        data@.len() > 0 ==> hists@.len() >= 1,
        hists_view(hists@) == spec_entropy_histograms(data@, window_size as int),
{
    proof {
        lemma_profile_bounded(data@.len() as int, window_size as int);
    }
    let len = data.len();
    let ws = window_size;
    let step = if len / 2000 > ws {
        len / 2000
    } else {
        ws
    };
    proof {
        assert(len / 2000 + 65536 <= usize::MAX) by {
            let q = len as int / 2000;
            lemma_fundamental_div_mod(len as int, 2000);
            assert(2000 * q <= len as int);
        };
    }
    let stride = step - step % ws + ws;
    proof {
        let stepi = step as int;
        let wsi = ws as int;
        let q = stepi / wsi;
        lemma_fundamental_div_mod(stepi, wsi);
        assert(wsi * q == stepi - stepi % wsi);
        assert((q + 1) * wsi == q * wsi + wsi) by (nonlinear_arith);
        assert(q * wsi == wsi * q) by (nonlinear_arith);
        assert(stride as int == spec_stride(len as int, wsi));
        assert(stride >= ws);
    }
    let total = if len == 0 {
        0
    } else {
        (len - 1) / stride + 1
    };
    let mut hists: Vec<Vec<usize>> = Vec::new();
    let mut j: usize = 0;
    while j < total
        invariant
            len == data@.len(),
            1 <= ws <= 65536,
            ws <= stride,
            stride as int == spec_stride(len as int, ws as int),
            total as int == spec_num_windows(len as int, ws as int),
            j <= total,
            hists@.len() == j,
            forall|jj: int|
                0 <= jj < j ==> (#[trigger] hists@[jj])@ == hist_of(
                    window_at(data@, jj * (stride as int), ws as int),
                ),
        decreases total - j,
    {
        proof {
            let leni = len as int;
            let bi = stride as int;
            let ji = j as int;
            lemma_fundamental_div_mod(leni - 1, bi);
            assert(((leni - 1) / bi) * bi <= leni - 1) by (nonlinear_arith)
                requires
                    bi >= 1,
                    leni >= 1,
            ;
            assert(ji * bi <= ((leni - 1) / bi) * bi) by (nonlinear_arith)
                requires
                    ji <= (leni - 1) / bi,
                    bi >= 1,
                    ji >= 0,
            ;
        }
        let start = j * stride;
        let end = if len - start < ws {
            len
        } else {
            start + ws
        };
        let h = shannon_histogram(data, start, end);
        hists.push(h);
        j = j + 1;
    }
    proof {
        assert(hists_view(hists@) =~= spec_entropy_histograms(data@, ws as int));
    }
    hists
}

} // verus!
