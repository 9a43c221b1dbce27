use vstd::prelude::*;
use vstd::arithmetic::div_mod::lemma_fundamental_div_mod_converse;
use crate::block::Block;

verus! {

/// Width in pixels of the frames the kernel is built for.
pub const FRAME_WIDTH: usize = 720;

/// Height in pixels of the frames the kernel is built for.
pub const FRAME_HEIGHT: usize = 480;

/// Blocks per row of a frame.
pub const BLOCKS_WIDTH: usize = 90;

/// Block rows of a frame.
pub const BLOCKS_HEIGHT: usize = 60;

/// Why a buffer and its stated dimensions cannot be mapped to a block grid.
#[derive(Clone, Copy, Debug, PartialEq, Eq)]
pub enum ShapeError {
    /// The width or the height is not a multiple of 8.
    NotMultipleOfEight,
    /// The buffer does not hold one value per pixel, or the grid one block per tile.
    LengthMismatch,
    /// The output buffer would not fit in memory's address range.
    TooLarge,
    /// The frame is not 720×480.
    NotFrameSize,
}

/// Both dimensions are multiples of 8.
pub open spec fn dims_ok(w: int, h: int) -> bool {
    w % 8 == 0 && h % 8 == 0
}

/// Number of blocks in the grid of a `w`×`h` plane.
pub open spec fn block_count(w: int, h: int) -> int {
    (w / 8) * (h / 8)
}

/// Index of the block that owns pixel `(px, py)`.
pub open spec fn block_index(w: int, px: int, py: int) -> int {
    px / 8 + (py / 8) * (w / 8)
}

/// The luma value that lands at offset `(x, y)` of block `(bx, by)`.
pub open spec fn partition_cell(luma: Seq<i16>, w: int, bx: int, by: int, x: int, y: int) -> int {
    luma[(by * 8 + y) * w + bx * 8 + x] as int
}

/// The block grid of a `w`×`h` luma plane, stored row-major: block `id`
/// covers the tile `(id % (w / 8), id / (w / 8))`, and its entry `[x][y]` is
/// the pixel at offset `(x, y)` within that tile.
pub open spec fn partition_view(luma: Seq<i16>, w: int, h: int) -> Seq<Seq<Seq<int>>> {
    Seq::new(
        block_count(w, h) as nat,
        |id: int|
            Seq::new(
                8,
                |x: int| Seq::new(8, |y: int| partition_cell(luma, w, id % (w / 8), id / (w / 8), x, y)),
            ),
    )
}

/// The views of a sequence of blocks.
pub open spec fn grid_view(g: Seq<Block>) -> Seq<Seq<Seq<int>>> {
    Seq::new(g.len(), |i: int| g[i]@)
}

/// Saturation of an integer to the channel range `[0, 255]`.
pub open spec fn clamp255(v: int) -> int {
    if v < 0 {
        0
    } else if v > 255 {
        255
    } else {
        v
    }
}

/// The value that the grid holds for pixel `(px, py)` of a `w`-wide plane.
pub open spec fn sample_at(g: Seq<Seq<Seq<int>>>, w: int, px: int, py: int) -> int {
    g[block_index(w, px, py)][px % 8][py % 8]
}

/// The three-channel row-major pixel buffer rebuilt from a grid: each pixel's
/// value clamped to `[0, 255]` and repeated in all three channels.
pub open spec fn reconstruct_view(g: Seq<Seq<Seq<int>>>, w: int, h: int) -> Seq<int> {
    Seq::new((3 * w * h) as nat, |i: int| clamp255(sample_at(g, w, (i / 3) % w, (i / 3) / w)))
}

/// The values of a byte buffer as integers.
pub open spec fn bytes_view(b: Seq<u8>) -> Seq<int> {
    Seq::new(b.len(), |i: int| b[i] as int)
}

proof fn lemma_pixel_in_plane(px: int, py: int, w: int, h: int)
    requires
        0 <= px < w,
        0 <= py < h,
    ensures
        0 <= py * w + px < w * h,
{
    assert(0 <= py * w + px < w * h) by (nonlinear_arith)
        requires
            0 <= px < w,
            0 <= py < h,
    ;
}

proof fn lemma_tile_in_grid(bx: int, by: int, bw: int, bh: int)
    requires
        0 <= bx < bw,
        0 <= by < bh,
    ensures
        0 <= bx + by * bw < bw * bh,
{
    assert(0 <= bx + by * bw < bw * bh) by (nonlinear_arith)
        requires
            0 <= bx < bw,
            0 <= by < bh,
    ;
}

proof fn lemma_count_le_pixels(w: int, h: int)
    requires
        w >= 0,
        h >= 0,
    ensures
        0 <= (w / 8) * (h / 8) <= w * h,
{
    let a = w / 8;
    let b = h / 8;
    assert(0 <= a * b <= w * h) by (nonlinear_arith)
        requires
            0 <= a <= w,
            0 <= b <= h,
    ;
}

/// Block `id` of a grid `bw` tiles wide lies at tile `(id % bw, id / bw)`,
/// inside a grid `bh` tiles high.
proof fn lemma_tile_of_index(id: int, bw: int, bh: int)
    requires
        0 <= id < bw * bh,
        bw > 0,
    ensures
        0 <= id % bw < bw,
        0 <= id / bw < bh,
        id == id % bw + (id / bw) * bw,
{
    let q = id / bw;
    let r = id % bw;
    assert(id == bw * q + r && 0 <= r < bw) by {
        vstd::arithmetic::div_mod::lemma_fundamental_div_mod(id, bw);
    }
    assert(0 <= q < bh) by (nonlinear_arith)
        requires
            id == bw * q + r,
            0 <= r < bw,
            0 <= id < bw * bh,
            bw > 0,
    ;
    assert(id == r + q * bw) by (nonlinear_arith)
        requires
            id == bw * q + r,
    ;
}

/// Gathers the 8×8 tile `(bx, by)` of a `w`-wide luma plane.
fn gather_block(luma: &Vec<i16>, w: usize, h: usize, bx: usize, by: usize) -> (b: Block)
    requires
        dims_ok(w as int, h as int),
        luma.len() == w * h,
        bx < w / 8,
        by < h / 8,
    ensures
        forall|x: int, y: int|
            0 <= x < 8 && 0 <= y < 8 ==> #[trigger] b@[x][y] == partition_cell(luma@, w as int, bx as int, by as int, x, y),
{
    let mut cells: [[i16; 8]; 8] = [[0i16; 8]; 8];
    let mut x: usize = 0;
    while x < 8
        invariant
            0 <= x <= 8,
            dims_ok(w as int, h as int),
            luma.len() == w * h,
            bx < w / 8,
            by < h / 8,
            forall|i: int, j: int|
                0 <= i < x && 0 <= j < 8 ==> (#[trigger] cells[i][j]) as int == partition_cell(luma@, w as int, bx as int, by as int, i, j),
        decreases 8 - x,
    {
        let mut row: [i16; 8] = [0i16; 8];
        let mut y: usize = 0;
        while y < 8
            invariant
                0 <= y <= 8,
                x < 8,
                dims_ok(w as int, h as int),
                luma.len() == w * h,
                bx < w / 8,
                by < h / 8,
                forall|j: int| 0 <= j < y ==> (#[trigger] row[j]) as int == partition_cell(luma@, w as int, bx as int, by as int, x as int, j),
            decreases 8 - y,
        {
            proof {
                lemma_pixel_in_plane(bx * 8 + x, by * 8 + y, w as int, h as int);
            }
            let idx: usize = (by * 8 + y) * w + bx * 8 + x;
            row[y] = luma[idx];
            y = y + 1;
        }
        cells[x] = row;
        x = x + 1;
    }
    Block(cells)
}

/// Splits a `width`×`height` row-major luma plane into its grid of 8×8
/// blocks. Block `bx + by * (width / 8)` holds the pixels
/// `[bx*8, bx*8+8) × [by*8, by*8+8)`, pixel `(px, py)` at entry `[px % 8][py % 8]`.
pub fn partition(luma: &Vec<i16>, width: usize, height: usize) -> (r: Result<Vec<Block>, ShapeError>)
    ensures
        !dims_ok(width as int, height as int) ==> r == Err::<Vec<Block>, ShapeError>(
            ShapeError::NotMultipleOfEight,
        ),
        dims_ok(width as int, height as int) && luma.len() != width * height ==> r == Err::<
            Vec<Block>,
            ShapeError,
        >(ShapeError::LengthMismatch),
        dims_ok(width as int, height as int) && luma.len() == width * height ==> r is Ok,
        r is Ok ==> grid_view(r->Ok_0@) == partition_view(luma@, width as int, height as int),
{
    if width % 8 != 0 || height % 8 != 0 {
        return Err(ShapeError::NotMultipleOfEight);
    }
    match width.checked_mul(height) {
        Some(n) => {
            if n != luma.len() {
                return Err(ShapeError::LengthMismatch);
            }
        },
        None => {
            return Err(ShapeError::LengthMismatch);
        },
    }
    let bw: usize = width / 8;
    let bh: usize = height / 8;
    proof {
        lemma_count_le_pixels(width as int, height as int);
    }
    let count: usize = bw * bh;
    let mut blocks: Vec<Block> = Vec::new();
    let mut id: usize = 0;
    while id < count
        invariant
            0 <= id <= count,
            count == bw * bh,
            bw == width / 8,
            bh == height / 8,
            dims_ok(width as int, height as int),
            luma.len() == width * height,
            blocks.len() == id,
            forall|i: int| 0 <= i < id ==> (#[trigger] blocks[i])@ == partition_view(luma@, width as int, height as int)[i],
        decreases count - id,
    {
        proof {
            lemma_tile_of_index(id as int, bw as int, bh as int);
        }
        let b = gather_block(luma, width, height, id % bw, id / bw);
        assert(b@ =~~= partition_view(luma@, width as int, height as int)[id as int]);
        blocks.push(b);
        id = id + 1;
    }
    assert(grid_view(blocks@) =~= partition_view(luma@, width as int, height as int));
    Ok(blocks)
}

/// Saturates a sample to the channel range `[0, 255]`.
pub fn clamp_to_channel(v: i16) -> (c: u8)
    ensures
        c == clamp255(v as int),
{
    if v < 0 {
        0u8
    } else if v > 255 {
        255u8
    } else {
        v as u8
    }
}

/// Rebuilds a `width`×`height` three-channel row-major pixel buffer from a
/// block grid laid out as `partition` lays it out: each pixel's value is
/// clamped to `[0, 255]` and written to all three channels.
pub fn reconstruct(blocks: &Vec<Block>, width: usize, height: usize) -> (r: Result<Vec<u8>, ShapeError>)
    ensures
        !dims_ok(width as int, height as int) ==> r == Err::<Vec<u8>, ShapeError>(
            ShapeError::NotMultipleOfEight,
        ),
        dims_ok(width as int, height as int) && blocks.len() != block_count(width as int, height as int)
            ==> r == Err::<Vec<u8>, ShapeError>(ShapeError::LengthMismatch),
        dims_ok(width as int, height as int) && blocks.len() == block_count(width as int, height as int)
            && 3 * width * height > usize::MAX ==> r == Err::<Vec<u8>, ShapeError>(ShapeError::TooLarge),
        dims_ok(width as int, height as int) && blocks.len() == block_count(width as int, height as int)
            && 3 * width * height <= usize::MAX ==> r is Ok,
        r is Ok ==> bytes_view(r->Ok_0@) == reconstruct_view(grid_view(blocks@), width as int, height as int),
{
    if width % 8 != 0 || height % 8 != 0 {
        return Err(ShapeError::NotMultipleOfEight);
    }
    let bw: usize = width / 8;
    let bh: usize = height / 8;
    match bw.checked_mul(bh) {
        Some(n) => {
            if n != blocks.len() {
                return Err(ShapeError::LengthMismatch);
            }
        },
        None => {
            return Err(ShapeError::LengthMismatch);
        },
    }
    assert(3 * width * height == 3 * (width * height)) by (nonlinear_arith);
    let pixels: usize = match width.checked_mul(height) {
        Some(n) => n,
        None => {
            return Err(ShapeError::TooLarge);
        },
    };
    let bytes: usize = match pixels.checked_mul(3) {
        Some(n) => n,
        None => {
            return Err(ShapeError::TooLarge);
        },
    };
    let ghost g = grid_view(blocks@);
    let ghost w = width as int;
    let mut out: Vec<u8> = Vec::new();
    let mut p: usize = 0;
    while p < pixels
        invariant
            0 <= p <= pixels,
            pixels == width * height,
            3 * width * height <= usize::MAX,
            bw == width / 8,
            bh == height / 8,
            blocks.len() == bw * bh,
            dims_ok(width as int, height as int),
            g == grid_view(blocks@),
            w == width,
            out.len() == 3 * p,
            forall|i: int| 0 <= i < 3 * p ==> (#[trigger] out[i]) as int == clamp255(sample_at(g, w, (i / 3) % w, (i / 3) / w)),
        decreases pixels - p,
    {
        let px: usize = p % width;
        let py: usize = p / width;
        proof {
            assert(0 <= py < height) by (nonlinear_arith)
                requires
                    0 <= p < width * height,
                    py == p / width,
                    width > 0,
            ;
            lemma_tile_in_grid((px / 8) as int, (py / 8) as int, bw as int, bh as int);
        }
        let id: usize = px / 8 + (py / 8) * bw;
        let c = clamp_to_channel(blocks[id].0[px % 8][py % 8]);
        assert(c == clamp255(sample_at(g, w, px as int, py as int)));
        out.push(c);
        out.push(c);
        out.push(c);
        assert forall|i: int| 3 * p <= i < 3 * p + 3 implies (#[trigger] out[i]) as int == clamp255(
            sample_at(g, w, (i / 3) % w, (i / 3) / w),
        ) by {
            assert(i / 3 == p);
        }
        p = p + 1;
    }
    assert(bytes_view(out@) =~= reconstruct_view(g, w, height as int));
    Ok(out)
}

/// Partitioning a luma plane whose values lie in `[0, 255]` and rebuilding
/// the pixels from that grid at once gives each pixel's luma back, in all
/// three channels.
pub proof fn lemma_partition_then_reconstruct(luma: Seq<i16>, w: int, h: int)
    requires
        w >= 0,
        h >= 0,
        dims_ok(w, h),
        luma.len() == w * h,
        forall|i: int| 0 <= i < luma.len() ==> 0 <= #[trigger] luma[i] <= 255,
    ensures
        reconstruct_view(partition_view(luma, w, h), w, h) == Seq::new(
            (3 * w * h) as nat,
            |i: int| luma[i / 3] as int,
        ),
{
    let g = partition_view(luma, w, h);
    let bw = w / 8;
    let bh = h / 8;
    assert(3 * w * h == 3 * (w * h)) by (nonlinear_arith);
    assert forall|i: int| 0 <= i < 3 * w * h implies #[trigger] reconstruct_view(g, w, h)[i]
        == luma[i / 3] as int by {
        let p = i / 3;
        assert(0 <= p < w * h);
        assert(w > 0) by (nonlinear_arith)
            requires
                0 <= p < w * h,
                w >= 0,
                h >= 0,
        ;
        let px = p % w;
        let py = p / w;
        vstd::arithmetic::div_mod::lemma_fundamental_div_mod(p, w);
        assert(0 <= py < h) by (nonlinear_arith)
            requires
                0 <= p < w * h,
                p == w * py + px,
                0 <= px < w,
        ;
        let bx = px / 8;
        let by = py / 8;
        let x = px % 8;
        let y = py % 8;
        assert(0 <= bx < bw && 0 <= by < bh);
        let id = bx + by * bw;
        lemma_tile_in_grid(bx, by, bw, bh);
        lemma_fundamental_div_mod_converse(id, bw, by, bx);
        assert(block_index(w, px, py) == id);
        assert((by * 8 + y) * w + bx * 8 + x == p) by (nonlinear_arith)
            requires
                p == w * py + px,
                py == by * 8 + y,
                px == bx * 8 + x,
        ;
        assert(g[id][x][y] == partition_cell(luma, w, bx, by, x, y));
        assert(0 <= luma[p] <= 255);
    }
    assert(reconstruct_view(g, w, h) =~= Seq::new((3 * w * h) as nat, |i: int| luma[i / 3] as int));
}

} // verus!
