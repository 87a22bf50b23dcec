//! Building blocks of a lossless compressor for 3-D fields of 32-bit floats:
//! a Lorenz predictor's index arithmetic, reversible residual transforms between
//! a true value and its prediction, and the bit packing of residuals.
pub mod shape;
pub mod prediction;
pub mod residuals;
pub mod compress;
pub mod encode;
