use vstd::prelude::*;
use crate::block::{Block, clamp16, clamp_to_i16};
use crate::matrix::{mat, mat_entry, lemma_mat_bound};

verus! {

/// Largest input magnitude for which a 1D pass stays within 32-bit sums.
pub const PASS_INPUT_BOUND: i32 = 8388608;

/// The values of an `[i32; 8]` as integers.
pub open spec fn as_ints(a: [i32; 8]) -> Seq<int> {
    Seq::new(8, |i: int| a[i] as int)
}

/// `Σ_{n < len} mat(k, n) * v[n]`.
pub open spec fn fwd_prefix(k: int, v: Seq<int>, len: int) -> int
    decreases len,
{
    if len <= 0 {
        0
    } else {
        fwd_prefix(k, v, len - 1) + mat(k, len - 1) * v[len - 1]
    }
}

/// `Σ_{k < len} mat(k, n) * v[k]`: the matrix read transposed.
pub open spec fn inv_prefix(n: int, v: Seq<int>, len: int) -> int
    decreases len,
{
    if len <= 0 {
        0
    } else {
        inv_prefix(n, v, len - 1) + mat(len - 1, n) * v[len - 1]
    }
}

/// The forward 1D transform: `dst[k] = (Σ_n M[k][n] * src[n]) >> 4`.
pub open spec fn fwd_1d(v: Seq<int>) -> Seq<int> {
    Seq::new(8, |k: int| fwd_prefix(k, v, 8) / 16)
}

/// The inverse 1D transform: `dst[n] = (Σ_k M[k][n] * src[k]) >> 4`.
pub open spec fn inv_1d(v: Seq<int>) -> Seq<int> {
    Seq::new(8, |n: int| inv_prefix(n, v, 8) / 16)
}

/// Column `c` of an 8×8 grid.
pub open spec fn column(x: Seq<Seq<int>>, c: int) -> Seq<int> {
    Seq::new(8, |r: int| x[r][c])
}

/// Every value of a sequence of eight lies in `[-b, b]`.
pub open spec fn bounded8(v: Seq<int>, b: int) -> bool {
    v.len() == 8 && forall|n: int| 0 <= n < 8 ==> -b <= #[trigger] v[n] <= b
}

proof fn lemma_entry_product(m: int, x: int, b: int)
    requires
        -16 <= m <= 16,
        -b <= x <= b,
    ensures
        -16 * b <= m * x <= 16 * b,
{
    assert(-16 * b <= m * x <= 16 * b) by (nonlinear_arith)
        requires
            -16 <= m <= 16,
            -b <= x <= b,
    ;
}

proof fn lemma_prefix_bounds(i: int, v: Seq<int>, len: int, b: int)
    requires
        0 <= len <= 8,
        b >= 0,
        bounded8(v, b),
    ensures
        -(len * (16 * b)) <= fwd_prefix(i, v, len) <= len * (16 * b),
        -(len * (16 * b)) <= inv_prefix(i, v, len) <= len * (16 * b),
    decreases len,
{
    if len > 0 {
        lemma_prefix_bounds(i, v, len - 1, b);
        lemma_mat_bound(i, len - 1);
        lemma_mat_bound(len - 1, i);
        lemma_entry_product(mat(i, len - 1), v[len - 1], b);
        lemma_entry_product(mat(len - 1, i), v[len - 1], b);
        assert(len * (16 * b) == (len - 1) * (16 * b) + 16 * b) by (nonlinear_arith);
    }
}

/// A 1D pass on values within `[-b, b]` yields values within `[-8b, 8b]`.
pub proof fn lemma_pass_bounds(v: Seq<int>, b: int)
    requires
        b >= 0,
        bounded8(v, b),
    ensures
        bounded8(fwd_1d(v), 8 * b),
        bounded8(inv_1d(v), 8 * b),
{
    assert forall|k: int| 0 <= k < 8 implies -8 * b <= #[trigger] fwd_1d(v)[k] <= 8 * b by {
        lemma_prefix_bounds(k, v, 8, b);
    }
    assert forall|k: int| 0 <= k < 8 implies -8 * b <= #[trigger] inv_1d(v)[k] <= 8 * b by {
        lemma_prefix_bounds(k, v, 8, b);
    }
}

/// Computes `s >> 4`, which is the floor of `s / 16`.
fn shift_down4(s: i32) -> (r: i32)
    ensures
        r == s as int / 16,
{
    assert((s >> 4u32) as int == s as int / 16) by (bit_vector);
    s >> 4u32
}

/// Forward 1D transform of eight samples.
pub fn dst8_1d_forward(src: [i32; 8], dst: &mut [i32; 8])
    requires
        bounded8(as_ints(src), PASS_INPUT_BOUND as int),
    ensures
        as_ints(*final(dst)) == fwd_1d(as_ints(src)),
{
    let ghost v = as_ints(src);
    let mut k: usize = 0;
    while k < 8
        invariant
            0 <= k <= 8,
            v == as_ints(src),
            bounded8(v, PASS_INPUT_BOUND as int),
            forall|i: int| 0 <= i < k ==> dst[i] as int == #[trigger] fwd_1d(v)[i],
        decreases 8 - k,
    {
        let mut s: i32 = 0;
        let mut n: usize = 0;
        while n < 8
            invariant
                0 <= n <= 8,
                k < 8,
                v == as_ints(src),
                bounded8(v, PASS_INPUT_BOUND as int),
                s as int == fwd_prefix(k as int, v, n as int),
                -16 * n * PASS_INPUT_BOUND <= s <= 16 * n * PASS_INPUT_BOUND,
            decreases 8 - n,
        {
            let m = mat_entry(k, n);
            assert(v[n as int] == src[n as int]);
            proof {
                lemma_entry_product(m as int, v[n as int], PASS_INPUT_BOUND as int);
            }
            s = s + m * src[n];
            n = n + 1;
        }
        dst[k] = shift_down4(s);
        k = k + 1;
    }
    assert(as_ints(*dst) =~= fwd_1d(v));
}

/// Inverse 1D transform of eight coefficients.
pub fn dst8_1d_inverse(src: [i32; 8], dst: &mut [i32; 8])
    requires
        bounded8(as_ints(src), PASS_INPUT_BOUND as int),
    ensures
        as_ints(*final(dst)) == inv_1d(as_ints(src)),
{
    let ghost v = as_ints(src);
    let mut n: usize = 0;
    while n < 8
        invariant
            0 <= n <= 8,
            v == as_ints(src),
            bounded8(v, PASS_INPUT_BOUND as int),
            forall|i: int| 0 <= i < n ==> dst[i] as int == #[trigger] inv_1d(v)[i],
        decreases 8 - n,
    {
        let mut s: i32 = 0;
        let mut k: usize = 0;
        while k < 8
            invariant
                0 <= k <= 8,
                n < 8,
                v == as_ints(src),
                bounded8(v, PASS_INPUT_BOUND as int),
                s as int == inv_prefix(n as int, v, k as int),
                -16 * k * PASS_INPUT_BOUND <= s <= 16 * k * PASS_INPUT_BOUND,
            decreases 8 - k,
        {
            let m = mat_entry(k, n);
            assert(v[k as int] == src[k as int]);
            proof {
                lemma_entry_product(m as int, v[k as int], PASS_INPUT_BOUND as int);
            }
            s = s + m * src[k];
            k = k + 1;
        }
        dst[n] = shift_down4(s);
        n = n + 1;
    }
    assert(as_ints(*dst) =~= inv_1d(v));
}

/// The values of an `[[i32; 8]; 8]` as an 8×8 grid of integers.
pub open spec fn grid_of(a: [[i32; 8]; 8]) -> Seq<Seq<int>> {
    Seq::new(8, |i: int| as_ints(a[i]))
}

/// Every value of an 8×8 grid lies in `[-b, b]`.
pub open spec fn grid_bounded(x: Seq<Seq<int>>, b: int) -> bool {
    x.len() == 8 && forall|i: int| 0 <= i < 8 ==> bounded8(#[trigger] x[i], b)
}

/// The forward row pass: row `r` is the forward 1D transform of row `r` of `x`.
pub open spec fn forward_rows(x: Seq<Seq<int>>) -> Seq<Seq<int>> {
    Seq::new(8, |r: int| fwd_1d(x[r]))
}

/// The forward column pass: entry `c` is the forward 1D transform of column
/// `c` of the row pass.
pub open spec fn forward_cols(x: Seq<Seq<int>>) -> Seq<Seq<int>> {
    Seq::new(8, |c: int| fwd_1d(column(forward_rows(x), c)))
}

/// The 2D forward transform: each row through the forward 1D transform, then
/// each resulting column, each coefficient saturated to 16 bits.
pub open spec fn forward_2d(x: Seq<Seq<int>>) -> Seq<Seq<int>> {
    Seq::new(8, |r: int| Seq::new(8, |c: int| clamp16(forward_cols(x)[c][r])))
}

/// The 2D inverse transform: each row through the inverse 1D transform, then
/// each resulting column, each sample saturated to 16 bits.
pub open spec fn inverse_2d(x: Seq<Seq<int>>) -> Seq<Seq<int>> {
    let rows = Seq::new(8, |r: int| inv_1d(x[r]));
    Seq::new(8, |r: int| Seq::new(8, |c: int| clamp16(inv_1d(column(rows, c))[r])))
}

/// The rows of a block, widened to 32 bits.
fn block_rows(src: &Block) -> (rows: [[i32; 8]; 8])
    ensures
        grid_of(rows) == src@,
        grid_bounded(grid_of(rows), 32768),
{
    let mut rows: [[i32; 8]; 8] = [[0i32; 8]; 8];
    let mut r: usize = 0;
    while r < 8
        invariant
            0 <= r <= 8,
            forall|i: int| 0 <= i < r ==> #[trigger] as_ints(rows[i]) == src@[i],
        decreases 8 - r,
    {
        let mut row: [i32; 8] = [0i32; 8];
        let mut c: usize = 0;
        while c < 8
            invariant
                0 <= c <= 8,
                r < 8,
                forall|j: int| 0 <= j < c ==> row[j] as int == src.0[r as int][j] as int,
            decreases 8 - c,
        {
            row[c] = src.0[r][c] as i32;
            c = c + 1;
        }
        assert(as_ints(row) =~= src@[r as int]);
        rows[r] = row;
        r = r + 1;
    }
    assert(grid_of(rows) =~= src@);
    rows
}

/// Column `c` of an 8×8 array.
fn column_of(a: &[[i32; 8]; 8], c: usize) -> (col: [i32; 8])
    requires
        c < 8,
    ensures
        as_ints(col) == column(grid_of(*a), c as int),
{
    let mut col: [i32; 8] = [0i32; 8];
    let mut r: usize = 0;
    while r < 8
        invariant
            0 <= r <= 8,
            c < 8,
            forall|i: int| 0 <= i < r ==> col[i] as int == a[i][c as int] as int,
        decreases 8 - r,
    {
        col[r] = a[r][c];
        r = r + 1;
    }
    assert(as_ints(col) =~= column(grid_of(*a), c as int));
    col
}

/// The block whose entry `[r][c]` is entry `r` of column vector `c`,
/// saturated to 16 bits.
fn transpose_clamped(cols: &[[i32; 8]; 8]) -> (b: Block)
    ensures
        b@ == Seq::new(8, |r: int| Seq::new(8, |c: int| clamp16(grid_of(*cols)[c][r]))),
{
    let mut out: [[i16; 8]; 8] = [[0i16; 8]; 8];
    let mut r: usize = 0;
    while r < 8
        invariant
            0 <= r <= 8,
            forall|i: int, j: int|
                0 <= i < r && 0 <= j < 8 ==> out[i][j] as int == clamp16(
                    #[trigger] cols[j][i] as int,
                ),
        decreases 8 - r,
    {
        let mut row: [i16; 8] = [0i16; 8];
        let mut c: usize = 0;
        while c < 8
            invariant
                0 <= c <= 8,
                r < 8,
                forall|j: int| 0 <= j < c ==> row[j] as int == clamp16(cols[j][r as int] as int),
            decreases 8 - c,
        {
            row[c] = clamp_to_i16(cols[c][r]);
            c = c + 1;
        }
        out[r] = row;
        r = r + 1;
    }
    let b = Block(out);
    assert(b@ =~~= Seq::new(8, |r: int| Seq::new(8, |c: int| clamp16(grid_of(*cols)[c][r]))));
    b
}

/// Both forward passes of a block: the row pass and the column pass.
fn forward_passes(src: &Block) -> (r: ([[i32; 8]; 8], [[i32; 8]; 8]))
    ensures
        grid_of(r.0) == forward_rows(src@),
        grid_of(r.1) == forward_cols(src@),
{
    let rows_in = block_rows(src);
    let ghost x = src@;
    let ghost rows = forward_rows(x);
    let mut rows_out: [[i32; 8]; 8] = [[0i32; 8]; 8];
    let mut r: usize = 0;
    while r < 8
        invariant
            0 <= r <= 8,
            grid_of(rows_in) == x,
            grid_bounded(x, 32768),
            rows == forward_rows(x),
            forall|i: int| 0 <= i < r ==> #[trigger] as_ints(rows_out[i]) == rows[i],
        decreases 8 - r,
    {
        let mut out: [i32; 8] = [0i32; 8];
        assert(as_ints(rows_in[r as int]) == x[r as int]);
        assert(bounded8(x[r as int], 32768));
        dst8_1d_forward(rows_in[r], &mut out);
        rows_out[r] = out;
        r = r + 1;
    }
    assert(grid_of(rows_out) =~= rows);
    assert forall|i: int| 0 <= i < 8 implies bounded8(#[trigger] rows[i], 262144) by {
        lemma_pass_bounds(x[i], 32768);
    }
    let mut cols_out: [[i32; 8]; 8] = [[0i32; 8]; 8];
    let mut c: usize = 0;
    while c < 8
        invariant
            0 <= c <= 8,
            grid_of(rows_out) == rows,
            grid_bounded(rows, 262144),
            forall|i: int| 0 <= i < c ==> #[trigger] as_ints(cols_out[i]) == fwd_1d(column(rows, i)),
        decreases 8 - c,
    {
        let col = column_of(&rows_out, c);
        assert(bounded8(column(rows, c as int), 262144)) by {
            assert forall|n: int| 0 <= n < 8 implies -262144 <= #[trigger] column(rows, c as int)[n] <= 262144 by {
                assert(bounded8(rows[n], 262144));
            }
        }
        let mut out: [i32; 8] = [0i32; 8];
        dst8_1d_forward(col, &mut out);
        cols_out[c] = out;
        c = c + 1;
    }
    assert(grid_of(cols_out) =~= forward_cols(x));
    (rows_out, cols_out)
}

/// Forward 2D transform of a block: rows, then columns, saturated to 16 bits.
pub fn dst8_2d_forward(src: &Block, dst: &mut Block)
    ensures
        final(dst)@ == forward_2d(src@),
{
    let (_rows, cols) = forward_passes(src);
    let b = transpose_clamped(&cols);
    assert(b@ =~~= forward_2d(src@));
    *dst = b;
}

/// The smallest and largest forward-pass outputs seen over a run, a
/// diagnostic of how far coefficients stray before saturation.
#[derive(Clone, Copy, Debug, PartialEq, Eq)]
pub struct CoeffRange {
    pub min: i32,
    pub max: i32,
}

/// Every value of the 8×8 grid `x` lies within `range`.
pub open spec fn covers(range: CoeffRange, x: Seq<Seq<int>>) -> bool {
    forall|i: int, j: int| 0 <= i < 8 && 0 <= j < 8 ==> range.min <= #[trigger] x[i][j] <= range.max
}

/// `v` is one of the values of the 8×8 grid `x`.
pub open spec fn attained(v: int, x: Seq<Seq<int>>) -> bool {
    exists|i: int, j: int| 0 <= i < 8 && 0 <= j < 8 && v == #[trigger] x[i][j]
}

/// `after` is `before` widened by exactly the values of the grids `x` and
/// `y`: each bound is the old one or a value of `x` or `y`, whichever is
/// further out.
pub open spec fn widened(before: CoeffRange, after: CoeffRange, x: Seq<Seq<int>>, y: Seq<Seq<int>>) -> bool {
    &&& after.min <= before.min
    &&& after.max >= before.max
    &&& covers(after, x)
    &&& covers(after, y)
    &&& (after.min == before.min || attained(after.min as int, x) || attained(after.min as int, y))
    &&& (after.max == before.max || attained(after.max as int, x) || attained(after.max as int, y))
}

impl CoeffRange {
    /// The range of a run that has seen nothing yet: both bounds at zero.
    pub fn new() -> (r: CoeffRange)
        ensures
            r.min == 0,
            r.max == 0,
    {
        CoeffRange { min: 0, max: 0 }
    }

    /// Widens the range to take in every value of `a`.
    pub fn record(&mut self, a: &[[i32; 8]; 8])
        ensures
            widened(*old(self), *final(self), grid_of(*a), grid_of(*a)),
    {
        let ghost start = *self;
        let ghost x = grid_of(*a);
        let mut i: usize = 0;
        while i < 8
            invariant
                0 <= i <= 8,
                x == grid_of(*a),
                self.min <= start.min,
                self.max >= start.max,
                forall|r: int, c: int| 0 <= r < i && 0 <= c < 8 ==> self.min <= #[trigger] x[r][c] <= self.max,
                self.min == start.min || attained(self.min as int, x),
                self.max == start.max || attained(self.max as int, x),
            decreases 8 - i,
        {
            let mut j: usize = 0;
            while j < 8
                invariant
                    0 <= j <= 8,
                    i < 8,
                    x == grid_of(*a),
                    self.min <= start.min,
                    self.max >= start.max,
                    forall|r: int, c: int|
                        (0 <= r < i && 0 <= c < 8) || (r == i && 0 <= c < j) ==> self.min <= #[trigger] x[r][c] <= self.max,
                    self.min == start.min || attained(self.min as int, x),
                    self.max == start.max || attained(self.max as int, x),
                decreases 8 - j,
            {
                let v = a[i][j];
                assert(x[i as int][j as int] == v);
                if v < self.min {
                    self.min = v;
                }
                if v > self.max {
                    self.max = v;
                }
                j = j + 1;
            }
            i = i + 1;
        }
    }
}

/// Forward 2D transform of a block, as `dst8_2d_forward`, that also widens
/// `range` to take in every output of both 1D passes (before saturation).
pub fn dst8_2d_forward_tracked(src: &Block, dst: &mut Block, range: &mut CoeffRange)
    ensures
        final(dst)@ == forward_2d(src@),
        widened(*old(range), *final(range), forward_rows(src@), forward_cols(src@)),
{
    let (rows, cols) = forward_passes(src);
    range.record(&rows);
    range.record(&cols);
    let b = transpose_clamped(&cols);
    assert(b@ =~~= forward_2d(src@));
    *dst = b;
}

/// Inverse 2D transform of a block: rows, then columns, saturated to 16 bits.
pub fn dst8_2d_inverse(src: &Block, dst: &mut Block)
    ensures
        final(dst)@ == inverse_2d(src@),
{
    let rows_in = block_rows(src);
    let ghost x = src@;
    let ghost rows = Seq::new(8, |r: int| inv_1d(x[r]));
    let mut rows_out: [[i32; 8]; 8] = [[0i32; 8]; 8];
    let mut r: usize = 0;
    while r < 8
        invariant
            0 <= r <= 8,
            grid_of(rows_in) == x,
            grid_bounded(x, 32768),
            rows == Seq::new(8, |r: int| inv_1d(x[r])),
            forall|i: int| 0 <= i < r ==> #[trigger] as_ints(rows_out[i]) == rows[i],
        decreases 8 - r,
    {
        let mut out: [i32; 8] = [0i32; 8];
        assert(as_ints(rows_in[r as int]) == x[r as int]);
        assert(bounded8(x[r as int], 32768));
        dst8_1d_inverse(rows_in[r], &mut out);
        rows_out[r] = out;
        r = r + 1;
    }
    assert(grid_of(rows_out) =~= rows);
    assert forall|i: int| 0 <= i < 8 implies bounded8(#[trigger] rows[i], 262144) by {
        lemma_pass_bounds(x[i], 32768);
    }
    let mut cols_out: [[i32; 8]; 8] = [[0i32; 8]; 8];
    let mut c: usize = 0;
    while c < 8
        invariant
            0 <= c <= 8,
            grid_of(rows_out) == rows,
            grid_bounded(rows, 262144),
            forall|i: int| 0 <= i < c ==> #[trigger] as_ints(cols_out[i]) == inv_1d(column(rows, i)),
        decreases 8 - c,
    {
        let col = column_of(&rows_out, c);
        assert(bounded8(column(rows, c as int), 262144)) by {
            assert forall|n: int| 0 <= n < 8 implies -262144 <= #[trigger] column(rows, c as int)[n] <= 262144 by {
                assert(bounded8(rows[n], 262144));
            }
        }
        let mut out: [i32; 8] = [0i32; 8];
        dst8_1d_inverse(col, &mut out);
        cols_out[c] = out;
        c = c + 1;
    }
    let b = transpose_clamped(&cols_out);
    assert(b@ =~~= inverse_2d(x));
    *dst = b;
}

} // verus!
