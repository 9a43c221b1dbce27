use vstd::prelude::*;

verus! {

/// Smallest value a block sample can hold.
pub const SAMPLE_MIN: i32 = -32768;

/// Largest value a block sample can hold.
pub const SAMPLE_MAX: i32 = 32767;

/// An 8×8 grid of signed 16-bit values: raw luma samples, transform
/// coefficients or reconstructed samples, depending on the pipeline stage.
#[derive(Clone, Copy, Debug, PartialEq, Eq)]
pub struct Block(pub [[i16; 8]; 8]);

impl View for Block {
    type V = Seq<Seq<int>>;

    /// The 8×8 values as mathematical integers, indexed `[i][j]` as the array is.
    open spec fn view(&self) -> Seq<Seq<int>> {
        Seq::new(8, |i: int| Seq::new(8, |j: int| self.0[i][j] as int))
    }
}

/// Eight zeros.
pub open spec fn zero_row() -> Seq<int> {
    Seq::new(8, |j: int| 0int)
}

/// The 8×8 grid of zeros.
pub open spec fn zero_grid() -> Seq<Seq<int>> {
    Seq::new(8, |i: int| zero_row())
}

/// Saturation of an integer to the signed 16-bit range.
pub open spec fn clamp16(x: int) -> int {
    if x < SAMPLE_MIN {
        SAMPLE_MIN as int
    } else if x > SAMPLE_MAX {
        SAMPLE_MAX as int
    } else {
        x
    }
}

/// Saturates `x` to the signed 16-bit range.
pub fn clamp_to_i16(x: i32) -> (r: i16)
    ensures
        r == clamp16(x as int),
{
    if x < SAMPLE_MIN {
        -32768i16
    } else if x > SAMPLE_MAX {
        32767i16
    } else {
        x as i16
    }
}

impl Block {
    /// The all-zero block.
    pub fn zero() -> (b: Block)
        ensures
            b@ == zero_grid(),
    {
        let b = Block([[0i16; 8]; 8]);
        assert(b@ =~~= zero_grid());
        b
    }
}

impl Default for Block {
    fn default() -> (b: Block)
        ensures
            b@ == zero_grid(),
    {
        Block::zero()
    }
}

} // verus!
