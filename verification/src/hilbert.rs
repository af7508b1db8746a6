//! Spatial remapper: a fixed-order Hilbert curve maps the leading bytes of a
//! buffer onto a 512x512 grid so that nearby file offsets land on nearby
//! cells. The grid is produced as one row-major byte buffer.

use crate::spec_min;
use vstd::prelude::*;

verus! {

/// Side length of the spatial grid (curve order 9).
pub const HILBERT_SIZE: usize = 512;

/// Number of cells in the spatial grid.
pub const HILBERT_PIXELS: usize = 262144;

/// Powers of two, as the doubling scale factor of the curve walk takes them.
pub open spec fn is_pow2(s: int) -> bool
    decreases s,
{
    if s <= 0 {
        false
    } else if s == 1 {
        true
    } else {
        s % 2 == 0 && is_pow2(s / 2)
    }
}

/// A power of two below twice another power of two is at most that other one.
proof fn lemma_pow2_le(s: int, b: int)
    requires
        is_pow2(s),
        is_pow2(b),
        s < 2 * b,
    ensures
        s <= b,
    decreases s,
{
    if s > 1 {
        if b == 1 {
            assert(false);
        } else {
            lemma_pow2_le(s / 2, b / 2);
        }
    }
}

/// The grid side length is a power of two.
proof fn lemma_pow2_512()
    ensures
        is_pow2(512),
        is_pow2(256),
{
    reveal_with_fuel(is_pow2, 11);
}

/// The reflect/transpose correction of one curve step: within a quadrant of
/// side `s`, mirror and swap the running coordinate according to the two
/// quadrant bits `rx` and `ry`.
pub open spec fn spec_rot(s: int, x: int, y: int, rx: int, ry: int) -> (int, int) {
    if ry == 0 {
        if rx == 1 {
            (s - 1 - y, s - 1 - x)
        } else {
            (y, x)
        }
    } else {
        (x, y)
    }
}

/// The curve walk from scale `s` up to the grid side: at each step the two
/// quadrant bits of the remaining index `t` choose a quadrant, the running
/// coordinate is corrected and offset, and the index shrinks by a factor of
/// four. The two bits of `t` are taken arithmetically: `rx` is the second
/// bit, `ry` is the low bit xor `rx`.
pub open spec fn spec_d2xy_rec(s: int, t: int, x: int, y: int) -> (int, int)
    decreases (if s < 512 {
        512 - s
    } else {
        0
    }),
{
    if 1 <= s < 512 {
        let rx = (t / 2) % 2;
        let ry = (t % 2 + rx) % 2;
        let p = spec_rot(s, x, y, rx, ry);
        spec_d2xy_rec(2 * s, t / 4, p.0 + s * rx, p.1 + s * ry)
    } else {
        (x, y)
    }
}

/// Grid coordinate of curve index `d` on the 512x512 grid.
pub open spec fn spec_d2xy(d: int) -> (int, int) {
    spec_d2xy_rec(1, d, 0, 0)
}

/// The curve walk keeps both coordinates inside the grid.
proof fn lemma_d2xy_rec_bounds(s: int, t: int, x: int, y: int)
    requires
        is_pow2(s),
        s <= 512,
        0 <= x < s,
        0 <= y < s,
    ensures
        0 <= spec_d2xy_rec(s, t, x, y).0 < 512,
        0 <= spec_d2xy_rec(s, t, x, y).1 < 512,
    decreases (if s < 512 {
        512 - s
    } else {
        0
    }),
{
    if 1 <= s < 512 {
        let rx = (t / 2) % 2;
        let ry = (t % 2 + rx) % 2;
        let p = spec_rot(s, x, y, rx, ry);
        assert(0 <= p.0 < s && 0 <= p.1 < s);
        lemma_pow2_512();
        lemma_pow2_le(s, 256);
        if rx == 0 {
            assert(s * rx == 0);
        } else {
            assert(rx == 1);
            assert(s * rx == s);
        }
        if ry == 0 {
            assert(s * ry == 0);
        } else {
            assert(ry == 1);
            assert(s * ry == s);
        }
        assert(is_pow2(2 * s)) by {
            assert((2 * s) % 2 == 0);
            assert((2 * s) / 2 == s);
        }
        lemma_d2xy_rec_bounds(2 * s, t / 4, p.0 + s * rx, p.1 + s * ry);
    }
}

/// Every curve index lands on a coordinate inside the grid.
pub proof fn lemma_d2xy_bounds(d: int)
    ensures
        0 <= spec_d2xy(d).0 < 512,
        0 <= spec_d2xy(d).1 < 512,
{
    reveal_with_fuel(is_pow2, 2);
    lemma_d2xy_rec_bounds(1, d, 0, 0);
}

/// The curve walk is injective: two walks from the same scale that end on
/// the same cell started from the same remaining index and the same running
/// coordinate. The two quadrant bits can be read back off the result (each
/// bit decides whether its final coordinate lands above `s`), the
/// reflect/transpose correction is invertible, and the remaining quotient
/// is pinned by the recursive call.
proof fn lemma_d2xy_rec_injective(s: int, t1: int, x1: int, y1: int, t2: int, x2: int, y2: int)
    requires
        is_pow2(s),
        s <= 512,
        0 <= x1 < s,
        0 <= y1 < s,
        0 <= x2 < s,
        0 <= y2 < s,
        0 <= t1,
        0 <= t2,
        t1 * s * s < 262144,
        t2 * s * s < 262144,
        spec_d2xy_rec(s, t1, x1, y1) == spec_d2xy_rec(s, t2, x2, y2),
    ensures
        t1 == t2,
        x1 == x2,
        y1 == y2,
    decreases (if s < 512 {
        512 - s
    } else {
        0
    }),
{
    if s >= 512 {
        assert(s == 512);
        assert(t1 * s * s == t1 * 262144) by (nonlinear_arith)
            requires
                s == 512,
        ;
        assert(t2 * s * s == t2 * 262144) by (nonlinear_arith)
            requires
                s == 512,
        ;
        assert(t1 == 0 && t2 == 0);
    } else {
        let rx1 = (t1 / 2) % 2;
        let ry1 = (t1 % 2 + rx1) % 2;
        let p1 = spec_rot(s, x1, y1, rx1, ry1);
        let nx1 = p1.0 + s * rx1;
        let ny1 = p1.1 + s * ry1;
        let rx2 = (t2 / 2) % 2;
        let ry2 = (t2 % 2 + rx2) % 2;
        let p2 = spec_rot(s, x2, y2, rx2, ry2);
        let nx2 = p2.0 + s * rx2;
        let ny2 = p2.1 + s * ry2;
        assert(0 <= p1.0 < s && 0 <= p1.1 < s);
        assert(0 <= p2.0 < s && 0 <= p2.1 < s);
        lemma_quadrant_step_bounds(s, t1);
        lemma_quadrant_step_bounds(s, t2);
        if rx1 == 0 {
            assert(s * rx1 == 0) by (nonlinear_arith)
                requires
                    rx1 == 0,
            ;
        } else {
            assert(rx1 == 1);
            assert(s * rx1 == s) by (nonlinear_arith)
                requires
                    rx1 == 1,
            ;
        }
        if ry1 == 0 {
            assert(s * ry1 == 0) by (nonlinear_arith)
                requires
                    ry1 == 0,
            ;
        } else {
            assert(ry1 == 1);
            assert(s * ry1 == s) by (nonlinear_arith)
                requires
                    ry1 == 1,
            ;
        }
        if rx2 == 0 {
            assert(s * rx2 == 0) by (nonlinear_arith)
                requires
                    rx2 == 0,
            ;
        } else {
            assert(rx2 == 1);
            assert(s * rx2 == s) by (nonlinear_arith)
                requires
                    rx2 == 1,
            ;
        }
        if ry2 == 0 {
            assert(s * ry2 == 0) by (nonlinear_arith)
                requires
                    ry2 == 0,
            ;
        } else {
            assert(ry2 == 1);
            assert(s * ry2 == s) by (nonlinear_arith)
                requires
                    ry2 == 1,
            ;
        }
        assert(is_pow2(2 * s)) by {
            assert((2 * s) % 2 == 0);
            assert((2 * s) / 2 == s);
        }
        lemma_pow2_512();
        lemma_pow2_le(s, 256);
        lemma_d2xy_rec_injective(2 * s, t1 / 4, nx1, ny1, t2 / 4, nx2, ny2);
        // the quadrant bits can be read back off the equal results
        assert(rx1 == rx2 && ry1 == ry2);
        // the correction is invertible within the quadrant
        if ry1 == 0 {
            if rx1 == 1 {
                assert(p1.0 == s - 1 - y1 && p1.1 == s - 1 - x1);
            }
        }
        assert(x1 == x2 && y1 == y2);
        // the remaining index is its quotient and its two bits put back
        lemma_two_bit_recompose(t1);
        lemma_two_bit_recompose(t2);
        assert(t1 % 2 == t2 % 2);
        assert(t1 == t2);
    }
}

/// One quadrant step keeps the scaled index bound: `t/4` fits the doubled
/// scale whenever `t` fits the current one.
proof fn lemma_quadrant_step_bounds(s: int, t: int)
    requires
        1 <= s,
        0 <= t,
        t * s * s < 262144,
    ensures
        (t / 4) * (2 * s) * (2 * s) < 262144,
{
    let q = t / 4;
    assert(4 * q <= t);
    assert(q * (2 * s) * (2 * s) == (4 * q) * s * s) by (nonlinear_arith);
    assert((4 * q) * s * s <= t * s * s) by (nonlinear_arith)
        requires
            4 * q <= t,
            s >= 1,
    ;
}

/// A non-negative integer is its quotient by four and its two low bits.
proof fn lemma_two_bit_recompose(t: int)
    requires
        0 <= t,
    ensures
        t == 4 * (t / 4) + 2 * ((t / 2) % 2) + t % 2,
{
    vstd::arithmetic::div_mod::lemma_fundamental_div_mod(t, 2);
    vstd::arithmetic::div_mod::lemma_fundamental_div_mod(t / 2, 2);
    vstd::arithmetic::div_mod::lemma_div_denominator(t, 2, 2);
}

/// Row-major cell index of curve index `d`.
pub open spec fn hilbert_cell(d: int) -> int {
    let p = spec_d2xy(d);
    p.1 * 512 + p.0
}

/// Bijectivity law: on the grid's index range the curve is injective —
/// distinct curve indices land on distinct grid cells, so the grid is the
/// byte stream permuted, never overwritten.
pub proof fn lemma_hilbert_cell_injective(d1: int, d2: int)
    requires
        0 <= d1 < 262144,
        0 <= d2 < 262144,
        d1 != d2,
    ensures
        hilbert_cell(d1) != hilbert_cell(d2),
{
    lemma_d2xy_bounds(d1);
    lemma_d2xy_bounds(d2);
    if hilbert_cell(d1) == hilbert_cell(d2) {
        let a = spec_d2xy(d1);
        let b = spec_d2xy(d2);
        assert(a.0 == b.0 && a.1 == b.1);
        reveal_with_fuel(is_pow2, 2);
        assert(d1 * 1 * 1 == d1) by (nonlinear_arith);
        assert(d2 * 1 * 1 == d2) by (nonlinear_arith);
        lemma_d2xy_rec_injective(1, d1, 0, 0, d2, 0, 0);
        assert(false);
    }
}

/// Every curve index lands on a cell of the grid.
pub proof fn lemma_hilbert_cell_bounds(d: int)
    ensures
        0 <= hilbert_cell(d) < 262144,
{
    lemma_d2xy_bounds(d);
}

/// The grid after the first `m` bytes of `data` have been written along the
/// curve: cell `hilbert_cell(i)` holds `data[i]`, every other cell zero.
pub open spec fn hilbert_grid(data: Seq<u8>, m: int) -> Seq<u8>
    decreases m,
{
    if m <= 0 {
        Seq::new(262144, |j: int| 0u8)
    } else {
        hilbert_grid(data, m - 1).update(hilbert_cell(m - 1), data[m - 1])
    }
}

/// The grid always has exactly `HILBERT_PIXELS` cells.
pub proof fn lemma_hilbert_grid_len(data: Seq<u8>, m: int)
    ensures
        hilbert_grid(data, m).len() == 262144,
    decreases m,
{
    if m > 0 {
        lemma_hilbert_grid_len(data, m - 1);
        lemma_hilbert_cell_bounds(m - 1);
    }
}

/// The full spatial remap of a buffer: its first `min(len, HILBERT_PIXELS)`
/// bytes permuted into curve order, the rest of the grid zero.
pub open spec fn spec_hilbert_matrix(data: Seq<u8>) -> Seq<u8> {
    hilbert_grid(data, spec_min(data.len() as int, 262144))
}

/// Within the first `m` written bytes, byte `i` sits in its own cell: the
/// curve is injective, so no later write lands on an earlier byte's cell.
proof fn lemma_hilbert_grid_content(data: Seq<u8>, m: int, i: int)
    requires
        0 <= i < m,
        m <= 262144,
        m <= data.len(),
    ensures
        hilbert_grid(data, m)[hilbert_cell(i)] == data[i],
    decreases m,
{
    lemma_hilbert_grid_len(data, m - 1);
    lemma_hilbert_cell_bounds(m - 1);
    if i < m - 1 {
        lemma_hilbert_grid_content(data, m - 1, i);
        lemma_hilbert_cell_bounds(i);
        lemma_hilbert_cell_injective(i, m - 1);
    }
}

/// A cell that no written curve index names stays zero.
proof fn lemma_hilbert_grid_untouched(data: Seq<u8>, m: int, j: int)
    requires
        0 <= j < 262144,
        0 <= m <= 262144,
        forall|i: int| 0 <= i < m ==> hilbert_cell(i) != j,
    ensures
        hilbert_grid(data, m)[j] == 0,
    decreases m,
{
    if m > 0 {
        lemma_hilbert_grid_untouched(data, m - 1, j);
        lemma_hilbert_grid_len(data, m - 1);
        lemma_hilbert_cell_bounds(m - 1);
    }
}

/// Content law for the full remap: every mapped byte is readable back from
/// the cell its curve index names, and every cell no mapped index names
/// holds the zero sentinel.
pub proof fn lemma_hilbert_matrix_content(data: Seq<u8>, i: int)
    requires
        0 <= i < data.len(),
        i < 262144,
    ensures
        spec_hilbert_matrix(data)[hilbert_cell(i)] == data[i],
{
    lemma_hilbert_grid_content(data, spec_min(data.len() as int, 262144), i);
}

/// Sentinel law for the full remap: a cell named by no mapped curve index
/// is zero.
pub proof fn lemma_hilbert_matrix_unmapped(data: Seq<u8>, j: int)
    requires
        0 <= j < 262144,
        forall|i: int|
            0 <= i < spec_min(data.len() as int, 262144) ==> hilbert_cell(i) != j,
    ensures
        spec_hilbert_matrix(data)[j] == 0,
{
    lemma_hilbert_grid_untouched(data, spec_min(data.len() as int, 262144), j);
}

/// Executable reflect/transpose correction, pinned to `spec_rot`.
pub fn rot(n: usize, x: usize, y: usize, rx: usize, ry: usize) -> (r: (usize, usize))
    requires
        x < n,
        y < n,
    ensures
        r.0 as int == spec_rot(n as int, x as int, y as int, rx as int, ry as int).0,
        r.1 as int == spec_rot(n as int, x as int, y as int, rx as int, ry as int).1,
        r.0 < n,
        r.1 < n,
{
    if ry == 0 {
        if rx == 1 {
            return (n - 1 - y, n - 1 - x);
        }
        return (y, x);
    }
    (x, y)
}

/// Executable curve inversion: index `d` to grid coordinate, by the closed
/// iterative walk, pinned to `spec_d2xy`.
pub fn d2xy(n: usize, d: usize) -> (r: (usize, usize))
    requires
        n == HILBERT_SIZE,
    ensures
        r.0 as int == spec_d2xy(d as int).0,
        r.1 as int == spec_d2xy(d as int).1,
        r.0 < 512,
        r.1 < 512,
{
    let mut s: usize = 1;
    let mut t: usize = d;
    let mut x: usize = 0;
    let mut y: usize = 0;
    proof {
        reveal_with_fuel(is_pow2, 2);
    }
    while s < n
        invariant
            n == 512,
            1 <= s <= 512,
            is_pow2(s as int),
            x < s,
            y < s,
            spec_d2xy_rec(s as int, t as int, x as int, y as int) == spec_d2xy(d as int),
        decreases 512 - s,
    {
        let rx: usize = (t / 2) % 2;
        let ry: usize = (t % 2 + rx) % 2;
        let (nx, ny) = rot(s, x, y, rx, ry);
        proof {
            lemma_pow2_512();
            lemma_pow2_le(s as int, 256);
            if rx == 0 {
                assert(s * rx == 0);
            } else {
                assert(s as int * rx as int == s as int);
            }
            if ry == 0 {
                assert(s * ry == 0);
            } else {
                assert(ry == 1);
                assert(s as int * ry as int == s as int);
            }
            assert(is_pow2(2 * s as int)) by {
                assert((2 * s as int) % 2 == 0);
                assert((2 * s as int) / 2 == s as int);
            }
        }
        x = nx + s * rx;
        y = ny + s * ry;
        t = t / 4;
        s = s * 2;
    }
    (x, y)
}

/// Spatial remapping of a buffer: write byte `i` of `data` into the grid
/// cell that curve index `i` names, for every offset below
/// `min(len, HILBERT_PIXELS)`; cells beyond the mapped prefix stay zero.
pub fn generate_hilbert_matrix(data: &Vec<u8>) -> (matrix: Vec<u8>)
    ensures
        matrix@.len() == 262144,
        matrix@ == spec_hilbert_matrix(data@),
{
    let mut matrix: Vec<u8> = Vec::new();
    while matrix.len() < HILBERT_PIXELS
        invariant
            matrix@.len() <= 262144,
            forall|j: int| 0 <= j < matrix@.len() ==> matrix@[j] == 0u8,
        decreases 262144 - matrix@.len(),
    {
        matrix.push(0u8);
    }
    assert(matrix@ =~= hilbert_grid(data@, 0));
    let m = crate::min_usize(data.len(), HILBERT_PIXELS);
    let mut i: usize = 0;
    while i < m
        invariant
            m as int == spec_min(data@.len() as int, 262144),
            m <= data@.len(),
            i <= m,
            matrix@.len() == 262144,
            matrix@ == hilbert_grid(data@, i as int),
        decreases m - i,
    {
        let (x, y) = d2xy(HILBERT_SIZE, i);
        proof {
            lemma_hilbert_cell_bounds(i as int);
        }
        let idx = y * HILBERT_SIZE + x;
        matrix.set(idx, data[i]);
        proof {
            lemma_hilbert_grid_len(data@, i as int);
        }
        i = i + 1;
    }
    matrix
}

} // verus!
