//! An 8×8 block integer transform kernel: partition a luma plane into blocks,
//! transform, quantize, dequantize, inverse transform and reconstruct pixels.
pub mod block;
pub mod grid;
pub mod matrix;
pub mod pipeline;
pub mod quant;
pub mod transform;
