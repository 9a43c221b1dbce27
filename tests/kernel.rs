use dst8_codec::block::{clamp_to_i16, Block};
use dst8_codec::grid::{
    clamp_to_channel, partition, reconstruct, ShapeError, BLOCKS_HEIGHT, BLOCKS_WIDTH, FRAME_HEIGHT, FRAME_WIDTH,
};
use dst8_codec::matrix::mat_entry;
use dst8_codec::pipeline::{process_frame, transform_block, transform_grid};
use dst8_codec::quant::{dequantize, quantize};
use dst8_codec::transform::{
    dst8_1d_forward, dst8_1d_inverse, dst8_2d_forward, dst8_2d_forward_tracked, dst8_2d_inverse, CoeffRange,
};

const X: [[i16; 8]; 8] = [[-237, -383, 10, -271, 502, 408, 455, 265], [-83, -320, 487, -454, 286, 374, -508, 400], [33, -44, -303, 138, -450, -467, -460, -494], [268, -69, 352, -453, -58, 384, 503, -35], [195, -40, -64, 429, 81, -468, 340, -308], [-132, 95, -265, 169, 352, -124, 109, 69], [510, 293, -442, 471, -15, 315, 336, -158], [239, 255, -335, 386, -291, -177, 293, 246]];
const FWD_X: [[i16; 8]; 8] = [[541, -257, 274, 888, 692, 1704, -872, 535], [-1793, -291, -1144, -560, -2252, -2296, 3906, 2127], [990, -1712, 101, 440, 1016, -1268, 1020, -1370], [1636, -2444, -1784, -431, -78, -2123, 459, 2263], [1907, -2337, 1914, -558, -285, 979, -181, 1334], [1288, -2268, 995, 1777, -1441, 545, -20, 455], [-1743, 13, -743, -1011, 825, 118, -2291, -508], [-1213, 1665, -1340, 300, 1321, 2588, -2432, -1328]];
const FWD_128: [[i16; 8]; 8] = [[4050, 0, 1260, 0, 630, 0, 270, 0], [0, 0, 0, 0, 0, 0, 0, 0], [1260, 0, 392, 0, 196, 0, 84, 0], [0, 0, 0, 0, 0, 0, 0, 0], [630, 0, 196, 0, 98, 0, 42, 0], [0, 0, 0, 0, 0, 0, 0, 0], [270, 0, 84, 0, 42, 0, 18, 0], [0, 0, 0, 0, 0, 0, 0, 0]];
const QUANT_128: [[i16; 8]; 8] = [[126, 0, 39, 0, 19, 0, 8, 0], [0, 0, 0, 0, 0, 0, 0, 0], [39, 0, 12, 0, 6, 0, 2, 0], [0, 0, 0, 0, 0, 0, 0, 0], [19, 0, 6, 0, 3, 0, 1, 0], [0, 0, 0, 0, 0, 0, 0, 0], [8, 0, 2, 0, 1, 0, 0, 0], [0, 0, 0, 0, 0, 0, 0, 0]];
const DEQUANT_128: [[i16; 8]; 8] = [[4032, 0, 1248, 0, 608, 0, 256, 0], [0, 0, 0, 0, 0, 0, 0, 0], [1248, 0, 384, 0, 192, 0, 64, 0], [0, 0, 0, 0, 0, 0, 0, 0], [608, 0, 192, 0, 96, 0, 32, 0], [0, 0, 0, 0, 0, 0, 0, 0], [256, 0, 64, 0, 32, 0, 0, 0], [0, 0, 0, 0, 0, 0, 0, 0]];
const KERNEL_128: [[i16; 8]; 8] = [[2392, 2472, 2462, 2525, 2525, 2462, 2472, 2392], [2472, 2488, 2525, 2537, 2537, 2525, 2488, 2472], [2462, 2525, 2572, 2598, 2598, 2572, 2525, 2462], [2525, 2537, 2598, 2592, 2592, 2598, 2537, 2525], [2525, 2537, 2598, 2592, 2592, 2598, 2537, 2525], [2462, 2525, 2572, 2598, 2598, 2572, 2525, 2462], [2472, 2488, 2525, 2537, 2537, 2525, 2488, 2472], [2392, 2472, 2462, 2525, 2525, 2462, 2472, 2392]];
const INV_FWD_ONES: [[i16; 8]; 8] = [[7, 12, 16, 17, 17, 16, 12, 7], [10, 16, 20, 18, 18, 20, 16, 10], [10, 16, 18, 17, 17, 18, 16, 10], [11, 17, 19, 19, 19, 19, 17, 11], [11, 17, 19, 19, 19, 19, 17, 11], [10, 16, 18, 17, 17, 18, 16, 10], [10, 16, 20, 18, 18, 20, 16, 10], [7, 12, 16, 17, 17, 16, 12, 7]];

fn forward(b: &Block) -> Block {
    let mut out = Block::default();
    dst8_2d_forward(b, &mut out);
    out
}

fn inverse(b: &Block) -> Block {
    let mut out = Block::default();
    dst8_2d_inverse(b, &mut out);
    out
}

#[test]
fn zero_block_stays_zero_through_every_stage() {
    let zero = Block::default();
    assert_eq!(zero, Block([[0; 8]; 8]));
    let mut coeffs = forward(&zero);
    assert_eq!(coeffs, zero);
    quantize(&mut coeffs);
    assert_eq!(coeffs, zero);
    dequantize(&mut coeffs);
    assert_eq!(coeffs, zero);
    assert_eq!(inverse(&coeffs), zero);
    let mut range = CoeffRange::new();
    assert_eq!(transform_block(&zero, &mut range), zero);
    assert_eq!(range, CoeffRange { min: 0, max: 0 });
}

#[test]
fn one_d_passes_on_a_ramp() {
    let mut out = [0i32; 8];
    dst8_1d_forward([1, 2, 3, 4, 5, 6, 7, 8], &mut out);
    assert_eq!(out, [25, -13, 7, -6, 3, -3, 1, -1]);
    let mut back = [0i32; 8];
    dst8_1d_inverse([1, 2, 3, 4, 5, 6, 7, 8], &mut back);
    assert_eq!(back, [25, -13, 7, -6, 3, -3, 1, -1]);
}

#[test]
fn one_d_shift_rounds_towards_negative_infinity() {
    let mut out = [0i32; 8];
    dst8_1d_forward([-100, 50, -3, 7, 0, 0, 1000, -1000], &mut out);
    assert_eq!(out, [316, -388, -50, 601, -1422, 1624, -1743, 865]);
    let mut one = [0i32; 8];
    dst8_1d_forward([-1, 0, 0, 0, 0, 0, 0, 0], &mut one);
    assert_eq!(one, [-1, -1, -1, -1, -1, -1, -1, -1]);
}

#[test]
fn two_d_transforms_on_a_mixed_block() {
    assert_eq!(forward(&Block(X)), Block(FWD_X));
    // The basis matrix is symmetric, so the inverse of the same block agrees.
    assert_eq!(inverse(&Block(X)), Block(FWD_X));
}

#[test]
fn two_d_transforms_saturate_to_sixteen_bits() {
    let big = Block([[32767; 8]; 8]);
    let f = forward(&big);
    assert_eq!(f.0[0][0], 32767);
    assert_eq!(f.0[0][1], 0);
    let i = inverse(&big);
    assert_eq!(i.0[0][0], 32767);
    let small = Block([[-32768; 8]; 8]);
    assert_eq!(forward(&small).0[0][0], -32768);
}

#[test]
fn forward_then_inverse_scales_instead_of_restoring() {
    let ones = Block([[1; 8]; 8]);
    assert_eq!(inverse(&forward(&ones)), Block(INV_FWD_ONES));
}

#[test]
fn quantize_then_dequantize_clears_low_five_bits() {
    let mut c: i32 = -32768;
    while c <= 32767 {
        let v = c as i16;
        let mut b = Block([[v; 8]; 8]);
        quantize(&mut b);
        assert_eq!(b.0[3][5], v >> 5);
        dequantize(&mut b);
        assert_eq!(b.0[3][5], (v >> 5) << 5);
        assert_eq!(b.0[7][0], v & !31);
        c += 97;
    }
    let mut edge = Block([[0; 8]; 8]);
    edge.0[0][0] = -1;
    edge.0[0][1] = 31;
    edge.0[0][2] = 32;
    edge.0[0][3] = -33;
    edge.0[0][4] = 32767;
    edge.0[0][5] = -32768;
    quantize(&mut edge);
    assert_eq!(edge.0[0][..6], [-1, 0, 1, -2, 1023, -1024]);
    dequantize(&mut edge);
    assert_eq!(edge.0[0][..6], [-32, 0, 32, -64, 32736, -32768]);
}

#[test]
fn matrix_rows_are_near_orthogonal() {
    for k in 0..8 {
        for j in 0..8 {
            let mut dot = 0;
            for n in 0..8 {
                dot += mat_entry(k, n) * mat_entry(j, n);
            }
            if k == j {
                assert!((1154..=1176).contains(&dot));
            } else {
                assert!((-28..=28).contains(&dot));
            }
        }
    }
    assert_eq!(mat_entry(0, 0), 5);
    assert_eq!(mat_entry(3, 7), -16);
    assert_eq!(mat_entry(5, 2), 0);
}

#[test]
fn reconstruct_clamps_every_channel() {
    let mut b = Block([[0; 8]; 8]);
    b.0[0][0] = -5;
    b.0[1][0] = 300;
    b.0[2][0] = 32767;
    b.0[3][0] = -32768;
    b.0[4][0] = 100;
    b.0[5][0] = 255;
    let out = reconstruct(&vec![b], 8, 8).unwrap();
    assert_eq!(out.len(), 192);
    assert_eq!(&out[..18], &[0, 0, 0, 255, 255, 255, 255, 255, 255, 0, 0, 0, 100, 100, 100, 255, 255, 255]);
    assert_eq!(clamp_to_channel(-1), 0);
    assert_eq!(clamp_to_channel(256), 255);
    assert_eq!(clamp_to_channel(17), 17);
}

#[test]
fn constant_block_end_to_end() {
    let flat = Block([[128; 8]; 8]);
    let mut coeffs = forward(&flat);
    assert_eq!(coeffs, Block(FWD_128));
    let mut energy: i64 = 0;
    let mut first: i64 = 0;
    for r in 0..8 {
        for c in 0..8 {
            let e = (coeffs.0[r][c] as i64) * (coeffs.0[r][c] as i64);
            energy += e;
            if r == 0 || c == 0 {
                first += e;
            }
            assert!(coeffs.0[r][c].abs() <= coeffs.0[0][0]);
        }
    }
    assert!(first * 10 > energy * 9);
    quantize(&mut coeffs);
    assert_eq!(coeffs, Block(QUANT_128));
    dequantize(&mut coeffs);
    assert_eq!(coeffs, Block(DEQUANT_128));
    let recon = inverse(&coeffs);
    assert_eq!(recon, Block(KERNEL_128));
    let mut range = CoeffRange::new();
    assert_eq!(transform_block(&flat, &mut range), Block(KERNEL_128));
    assert_eq!(range, CoeffRange { min: 0, max: 4050 });
    for r in 0..8 {
        for c in 0..8 {
            let ratio = recon.0[r][c] as f64 / 128.0;
            assert!(ratio > 18.5 && ratio < 20.7);
        }
    }
    // Spot checks against the display scale table entries (0,0), (3,3) and (7,7).
    assert_eq!((recon.0[0][0] as f64 / 18.575) as i16, 128);
    assert_eq!((recon.0[3][3] as f64 / 20.39622641509434) as i16, 127);
    assert_eq!((recon.0[7][7] as f64 / 19.36764705882353) as i16, 123);
}

fn plane(w: usize, h: usize) -> Vec<i16> {
    let mut v = Vec::new();
    for i in 0..w * h {
        v.push(((i * 7 + i / 5) % 256) as i16);
    }
    v
}

#[test]
fn partition_then_reconstruct_is_identity() {
    let luma = plane(24, 16);
    let grid = partition(&luma, 24, 16).unwrap();
    assert_eq!(grid.len(), 6);
    let out = reconstruct(&grid, 24, 16).unwrap();
    assert_eq!(out.len(), 3 * 24 * 16);
    for (i, l) in luma.iter().enumerate() {
        assert_eq!(out[3 * i] as i16, *l);
        assert_eq!(out[3 * i + 1] as i16, *l);
        assert_eq!(out[3 * i + 2] as i16, *l);
    }
}

#[test]
fn partition_places_pixels_by_tile_and_offset() {
    let luma = plane(24, 16);
    let grid = partition(&luma, 24, 16).unwrap();
    for py in 0..16 {
        for px in 0..24 {
            let id = px / 8 + (py / 8) * 3;
            assert_eq!(grid[id].0[px % 8][py % 8], luma[py * 24 + px]);
        }
    }
    assert_eq!(grid[4].0[2][5], luma[13 * 24 + 10]);
}

#[test]
fn partition_and_reconstruct_reject_bad_shapes() {
    assert_eq!(partition(&vec![0; 80], 10, 8), Err(ShapeError::NotMultipleOfEight));
    assert_eq!(partition(&vec![0; 80], 8, 10), Err(ShapeError::NotMultipleOfEight));
    assert_eq!(partition(&vec![0; 63], 8, 8), Err(ShapeError::LengthMismatch));
    assert_eq!(partition(&vec![0; 0], usize::MAX - 7, usize::MAX - 7), Err(ShapeError::LengthMismatch));
    assert_eq!(partition(&vec![], 0, 0), Ok(vec![]));
    let b = Block::default();
    assert_eq!(reconstruct(&vec![b], 12, 8), Err(ShapeError::NotMultipleOfEight));
    assert_eq!(reconstruct(&vec![b, b], 8, 8), Err(ShapeError::LengthMismatch));
    assert_eq!(reconstruct(&vec![], 8, 8), Err(ShapeError::LengthMismatch));
}

#[test]
fn process_frame_checks_the_frame() {
    assert_eq!(process_frame(&vec![0; 64], 8, 8), Err(ShapeError::NotFrameSize));
    assert_eq!(process_frame(&vec![0; 10], FRAME_WIDTH, FRAME_HEIGHT), Err(ShapeError::LengthMismatch));
}

#[test]
fn process_frame_on_a_flat_frame() {
    let luma = vec![128i16; FRAME_WIDTH * FRAME_HEIGHT];
    let (grid, range) = process_frame(&luma, FRAME_WIDTH, FRAME_HEIGHT).unwrap();
    assert_eq!(range, CoeffRange { min: 0, max: 4050 });
    assert_eq!(grid.len(), BLOCKS_WIDTH * BLOCKS_HEIGHT);
    assert_eq!((BLOCKS_WIDTH, BLOCKS_HEIGHT), (FRAME_WIDTH / 8, FRAME_HEIGHT / 8));
    for b in grid.iter() {
        assert_eq!(*b, Block(KERNEL_128));
    }
}

#[test]
fn transform_grid_keeps_block_order() {
    let blocks = vec![Block([[128; 8]; 8]), Block::default(), Block(X)];
    let mut range = CoeffRange::new();
    let out = transform_grid(&blocks, &mut range);
    assert_eq!(out.len(), 3);
    assert_eq!(out[0], Block(KERNEL_128));
    assert_eq!(out[1], Block::default());
    let mut other = CoeffRange::new();
    assert_eq!(out[2], transform_block(&Block(X), &mut other));
    assert_eq!(other, CoeffRange { min: -2444, max: 3906 });
    assert_eq!(range, CoeffRange { min: -2444, max: 4050 });
}

#[test]
fn tracked_forward_reports_unsaturated_extremes() {
    let big = Block([[32767; 8]; 8]);
    let mut out = Block::default();
    let mut range = CoeffRange::new();
    dst8_2d_forward_tracked(&big, &mut out, &mut range);
    assert_eq!(out, forward(&big));
    assert_eq!(range, CoeffRange { min: 0, max: 1036766 });
    let mut wide = CoeffRange { min: -5000000, max: 5000000 };
    dst8_2d_forward_tracked(&Block(X), &mut out, &mut wide);
    assert_eq!(out, Block(FWD_X));
    assert_eq!(wide, CoeffRange { min: -5000000, max: 5000000 });
}

#[test]
fn coeff_range_record_widens_only() {
    let mut range = CoeffRange::new();
    let mut a = [[0i32; 8]; 8];
    a[2][3] = 17;
    a[7][7] = -4;
    range.record(&a);
    assert_eq!(range, CoeffRange { min: -4, max: 17 });
    a[2][3] = 3;
    range.record(&a);
    assert_eq!(range, CoeffRange { min: -4, max: 17 });
}

#[test]
fn clamp_to_i16_saturates() {
    assert_eq!(clamp_to_i16(40000), 32767);
    assert_eq!(clamp_to_i16(-40000), -32768);
    assert_eq!(clamp_to_i16(-7), -7);
}
