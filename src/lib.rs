//! In-place radix-2 decimation-in-time FFT kernels for complex fixed-point samples.
//!
//! The modules `i16` and `i32` transform buffers of a power-of-two length, stored as
//! interleaved `(re, im)` pairs or as separate real and imaginary arrays, without
//! allocating. Twiddle factors come from a quarter-period sine table (`trig`). Before
//! each butterfly stage the buffer is scanned, and the stage's inputs are shifted right
//! by the fewest bits (none, one or two) that keep every output of the stage in range.
//! The total number of bits shifted out is returned as the exponent: output `v` stands
//! for `v * 2^range / MAX`. Each transform is proved equal to the stage model in `kernel`.
use vstd::prelude::*;

pub mod fixed;
pub mod i16;
pub mod i32;
pub mod kernel;
pub mod lanes;
pub mod reorder;
pub mod report;
pub mod trig;

verus! {

} // verus!
