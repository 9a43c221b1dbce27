use vstd::prelude::*;
use crate::block::Block;

verus! {

/// Smallest quantized coefficient that dequantization can expand into 16 bits.
pub const QUANT_MIN: i16 = -1024;

/// Largest quantized coefficient that dequantization can expand into 16 bits.
pub const QUANT_MAX: i16 = 1023;

/// Each coefficient shifted right by five bits (floor division by 32).
pub open spec fn quantized(x: Seq<Seq<int>>) -> Seq<Seq<int>> {
    Seq::new(8, |i: int| Seq::new(8, |j: int| x[i][j] / 32))
}

/// Each coefficient shifted left by five bits (multiplied by 32).
pub open spec fn dequantized(x: Seq<Seq<int>>) -> Seq<Seq<int>> {
    Seq::new(8, |i: int| Seq::new(8, |j: int| x[i][j] * 32))
}

/// Every value of an 8×8 grid is a coefficient that dequantization accepts.
pub open spec fn in_quant_range(x: Seq<Seq<int>>) -> bool {
    forall|i: int, j: int| 0 <= i < 8 && 0 <= j < 8 ==> QUANT_MIN <= #[trigger] x[i][j] <= QUANT_MAX
}

fn shift_right5(v: i16) -> (r: i16)
    ensures
        r == v as int / 32,
        QUANT_MIN <= r <= QUANT_MAX,
{
    assert((v >> 5u32) as int == v as int / 32) by (bit_vector);
    v >> 5u32
}

fn shift_left5(v: i16) -> (r: i16)
    requires
        QUANT_MIN <= v <= QUANT_MAX,
    ensures
        r == v as int * 32,
{
    assert((v << 5u32) as int == v as int * 32) by (bit_vector)
        requires
            -1024 <= v <= 1023,
    ;
    v << 5u32
}

fn quantize_row(row: [i16; 8]) -> (r: [i16; 8])
    ensures
        forall|j: int| 0 <= j < 8 ==> #[trigger] r[j] as int == row[j] as int / 32,
{
    let mut r: [i16; 8] = row;
    let mut j: usize = 0;
    while j < 8
        invariant
            0 <= j <= 8,
            forall|b: int| 0 <= b < 8 ==> #[trigger] r[b] as int == if b < j {
                row[b] as int / 32
            } else {
                row[b] as int
            },
        decreases 8 - j,
    {
        r[j] = shift_right5(r[j]);
        j = j + 1;
    }
    r
}

fn dequantize_row(row: [i16; 8]) -> (r: [i16; 8])
    requires
        forall|j: int| 0 <= j < 8 ==> QUANT_MIN <= #[trigger] row[j] <= QUANT_MAX,
    ensures
        forall|j: int| 0 <= j < 8 ==> #[trigger] r[j] as int == row[j] as int * 32,
{
    let mut r: [i16; 8] = row;
    let mut j: usize = 0;
    while j < 8
        invariant
            0 <= j <= 8,
            forall|b: int| 0 <= b < 8 ==> QUANT_MIN <= #[trigger] row[b] <= QUANT_MAX,
            forall|b: int| 0 <= b < 8 ==> #[trigger] r[b] as int == if b < j {
                row[b] as int * 32
            } else {
                row[b] as int
            },
        decreases 8 - j,
    {
        r[j] = shift_left5(r[j]);
        j = j + 1;
    }
    r
}

/// Coarsens every coefficient of the block by an arithmetic right shift of five bits.
pub fn quantize(block: &mut Block)
    ensures
        final(block)@ == quantized(old(block)@),
        in_quant_range(final(block)@),
{
    let ghost x = block@;
    let mut i: usize = 0;
    while i < 8
        invariant
            0 <= i <= 8,
            x == old(block)@,
            forall|a: int, b: int|
                0 <= a < 8 && 0 <= b < 8 ==> (#[trigger] block.0[a][b]) as int == if a < i {
                    x[a][b] / 32
                } else {
                    x[a][b]
                },
        decreases 8 - i,
    {
        block.0[i] = quantize_row(block.0[i]);
        i = i + 1;
    }
    assert(block@ =~~= quantized(x));
}

/// Expands every quantized coefficient of the block by a left shift of five
/// bits; the discarded bits are not recovered.
pub fn dequantize(block: &mut Block)
    requires
        in_quant_range(old(block)@),
    ensures
        final(block)@ == dequantized(old(block)@),
{
    let ghost x = block@;
    let mut i: usize = 0;
    while i < 8
        invariant
            0 <= i <= 8,
            x == old(block)@,
            in_quant_range(x),
            forall|a: int, b: int|
                0 <= a < 8 && 0 <= b < 8 ==> (#[trigger] block.0[a][b]) as int == if a < i {
                    x[a][b] * 32
                } else {
                    x[a][b]
                },
        decreases 8 - i,
    {
        assert forall|b: int| 0 <= b < 8 implies QUANT_MIN <= #[trigger] block.0[i as int][b] <= QUANT_MAX by {
            assert(block@[i as int][b] == x[i as int][b]);
        }
        block.0[i] = dequantize_row(block.0[i]);
        i = i + 1;
    }
    assert(block@ =~~= dequantized(x));
}

/// Quantizing then dequantizing a coefficient `c` gives `(c >> 5) << 5`: `c`
/// with its five low bits cleared, whatever block it stands in.
pub proof fn lemma_quantize_round_trip(b: Block, i: int, j: int)
    requires
        0 <= i < 8,
        0 <= j < 8,
    ensures
        in_quant_range(quantized(b@)),
        dequantized(quantized(b@))[i][j] == ((b.0[i][j] >> 5u32) << 5u32) as int,
        dequantized(quantized(b@))[i][j] == b@[i][j] - (b.0[i][j] & 31i16) as int,
{
    let c = b.0[i][j];
    assert(((c >> 5u32) << 5u32) as int == (c as int / 32) * 32) by (bit_vector);
    assert((c & 31i16) as int == c as int % 32) by (bit_vector);
    assert forall|a: int, d: int| 0 <= a < 8 && 0 <= d < 8 implies QUANT_MIN <= #[trigger] quantized(b@)[a][d] <= QUANT_MAX by {
        let e = b.0[a][d];
        assert(-1024 <= e as int / 32 <= 1023) by (bit_vector);
    }
}

} // verus!
