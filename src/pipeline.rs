use vstd::prelude::*;
use crate::block::{Block, zero_grid, zero_row};
use crate::grid::{FRAME_HEIGHT, FRAME_WIDTH, ShapeError, grid_view, partition, partition_view};
use crate::quant::{dequantize, dequantized, quantize, quantized};
use crate::transform::{
    CoeffRange,
    attained,
    column,
    covers,
    dst8_2d_forward_tracked,
    forward_cols,
    forward_rows,
    widened,
    dst8_2d_inverse,
    forward_2d,
    fwd_1d,
    fwd_prefix,
    inv_1d,
    inv_prefix,
    inverse_2d,
};

verus! {

/// What the kernel makes of a block of samples: forward transform, quantize,
/// dequantize, inverse transform.
pub open spec fn kernel(x: Seq<Seq<int>>) -> Seq<Seq<int>> {
    inverse_2d(dequantized(quantized(forward_2d(x))))
}

/// `after` is `before` widened by exactly the forward-pass outputs of the
/// first `n` blocks of `xs`: each bound is the old one or such an output,
/// whichever is further out.
pub open spec fn widened_by_blocks(before: CoeffRange, after: CoeffRange, xs: Seq<Seq<Seq<int>>>, n: int) -> bool {
    &&& after.min <= before.min
    &&& after.max >= before.max
    &&& forall|i: int| 0 <= i < n ==> covers(after, forward_rows(#[trigger] xs[i])) && covers(after, forward_cols(xs[i]))
    &&& (after.min == before.min || exists|i: int| 0 <= i < n && (attained(after.min as int, forward_rows(#[trigger] xs[i])) || attained(after.min as int, forward_cols(xs[i]))))
    &&& (after.max == before.max || exists|i: int| 0 <= i < n && (attained(after.max as int, forward_rows(#[trigger] xs[i])) || attained(after.max as int, forward_cols(xs[i]))))
}

/// Runs one block through forward transform, quantization, dequantization
/// and inverse transform, widening `range` by the forward-pass outputs.
pub fn transform_block(src: &Block, range: &mut CoeffRange) -> (out: Block)
    ensures
        out@ == kernel(src@),
        widened(*old(range), *final(range), forward_rows(src@), forward_cols(src@)),
{
    let mut coeffs = Block::zero();
    dst8_2d_forward_tracked(src, &mut coeffs, range);
    quantize(&mut coeffs);
    dequantize(&mut coeffs);
    let mut out = Block::zero();
    dst8_2d_inverse(&coeffs, &mut out);
    out
}

/// Runs every block of a grid through the kernel, in grid index order,
/// widening `range` by every forward-pass output.
pub fn transform_grid(blocks: &Vec<Block>, range: &mut CoeffRange) -> (out: Vec<Block>)
    ensures
        out.len() == blocks.len(),
        forall|i: int| 0 <= i < blocks.len() ==> (#[trigger] out[i])@ == kernel(blocks[i]@),
        widened_by_blocks(*old(range), *final(range), grid_view(blocks@), blocks.len() as int),
{
    let ghost start = *range;
    let ghost xs = grid_view(blocks@);
    let mut out: Vec<Block> = Vec::new();
    let mut i: usize = 0;
    while i < blocks.len()
        invariant
            0 <= i <= blocks.len(),
            start == *old(range),
            xs == grid_view(blocks@),
            out.len() == i,
            forall|j: int| 0 <= j < i ==> (#[trigger] out[j])@ == kernel(blocks[j]@),
            widened_by_blocks(start, *range, xs, i as int),
        decreases blocks.len() - i,
    {
        let ghost before = *range;
        let b = transform_block(&blocks[i], range);
        assert(xs[i as int] == blocks[i as int]@);
        assert forall|j: int| 0 <= j < i + 1 implies covers(*range, forward_rows(#[trigger] xs[j])) && covers(
            *range,
            forward_cols(xs[j]),
        ) by {
            if j < i {
                assert(covers(before, forward_rows(xs[j])));
                assert(covers(before, forward_cols(xs[j])));
            }
        }
        out.push(b);
        i = i + 1;
    }
    out
}

proof fn lemma_zero_prefix(i: int, len: int)
    requires
        0 <= len <= 8,
    ensures
        fwd_prefix(i, zero_row(), len) == 0,
        inv_prefix(i, zero_row(), len) == 0,
    decreases len,
{
    if len > 0 {
        lemma_zero_prefix(i, len - 1);
    }
}

proof fn lemma_zero_passes()
    ensures
        fwd_1d(zero_row()) == zero_row(),
        inv_1d(zero_row()) == zero_row(),
{
    assert forall|k: int| 0 <= k < 8 implies #[trigger] fwd_1d(zero_row())[k] == 0
        && inv_1d(zero_row())[k] == 0 by {
        lemma_zero_prefix(k, 8);
    }
    assert(fwd_1d(zero_row()) =~= zero_row());
    assert(inv_1d(zero_row()) =~= zero_row());
}

/// The all-zero block stays all-zero through the forward transform,
/// quantization, dequantization and the inverse transform.
pub proof fn lemma_zero_block_stays_zero()
    ensures
        forward_2d(zero_grid()) == zero_grid(),
        quantized(zero_grid()) == zero_grid(),
        dequantized(zero_grid()) == zero_grid(),
        inverse_2d(zero_grid()) == zero_grid(),
        kernel(zero_grid()) == zero_grid(),
{
    lemma_zero_passes();
    assert(forall|r: int| 0 <= r < 8 ==> #[trigger] zero_grid()[r] == zero_row());
    let x = zero_grid();
    let frows = Seq::new(8, |r: int| fwd_1d(x[r]));
    let irows = Seq::new(8, |r: int| inv_1d(x[r]));
    assert(frows =~= x);
    assert(irows =~= x);
    assert forall|c: int| 0 <= c < 8 implies #[trigger] column(x, c) == zero_row() by {
        assert(column(x, c) =~= zero_row());
    }
    assert(forward_2d(zero_grid()) =~~= zero_grid());
    assert(inverse_2d(zero_grid()) =~~= zero_grid());
    assert(quantized(zero_grid()) =~~= zero_grid());
    assert(dequantized(zero_grid()) =~~= zero_grid());
}

/// Partitions a 720×480 row-major luma frame and runs every block through the
/// kernel. The result is the grid of reconstructed samples, before any
/// scaling to display intensities, and the range of all forward-pass
/// outputs, widened from zero.
pub fn process_frame(luma: &Vec<i16>, width: usize, height: usize) -> (r: Result<(Vec<Block>, CoeffRange), ShapeError>)
    ensures
        (width != FRAME_WIDTH || height != FRAME_HEIGHT) ==> r == Err::<(Vec<Block>, CoeffRange), ShapeError>(
            ShapeError::NotFrameSize,
        ),
        width == FRAME_WIDTH && height == FRAME_HEIGHT && luma.len() != width * height ==> r == Err::<
            (Vec<Block>, CoeffRange),
            ShapeError,
        >(ShapeError::LengthMismatch),
        width == FRAME_WIDTH && height == FRAME_HEIGHT && luma.len() == width * height ==> r is Ok,
        r is Ok ==> ({
            let g = partition_view(luma@, width as int, height as int);
            &&& r->Ok_0.0.len() == g.len()
            &&& forall|i: int| 0 <= i < g.len() ==> (#[trigger] r->Ok_0.0[i])@ == kernel(g[i])
            &&& widened_by_blocks((CoeffRange { min: 0, max: 0 }), r->Ok_0.1, g, g.len() as int)
        }),
{
    if width != FRAME_WIDTH || height != FRAME_HEIGHT {
        return Err(ShapeError::NotFrameSize);
    }
    match partition(luma, width, height) {
        Ok(blocks) => {
            let mut range = CoeffRange::new();
            let out = transform_grid(&blocks, &mut range);
            assert(grid_view(blocks@) == partition_view(luma@, width as int, height as int));
            assert forall|i: int| 0 <= i < blocks.len() implies blocks[i]@ == partition_view(
                luma@,
                width as int,
                height as int,
            )[i] by {
                assert(grid_view(blocks@)[i] == blocks[i]@);
            }
            assert(grid_view(blocks@) =~= partition_view(luma@, width as int, height as int));
            Ok((out, range))
        },
        Err(e) => Err(e),
    }
}

} // verus!
