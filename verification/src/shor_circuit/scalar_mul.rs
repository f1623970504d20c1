//! Parameters of the windowed scalar multiplication of the single-scalar
//! circuit.
use vstd::prelude::*;

verus! {

/// Windowed double-and-add scalar multiplication: the scalar is processed
/// in w-bit windows.
pub struct WindowedScalarMul {
    /// Window size in bits.
    pub window_size: usize,
    /// Number of bits in the scalar.
    pub scalar_bits: usize,
}

impl WindowedScalarMul {
    /// Parameters for `scalar_bits`-bit scalars in `window_size`-bit windows;
    /// the window size must divide the scalar width.
    pub fn new(window_size: usize, scalar_bits: usize) -> (r: Self)
        requires
            window_size > 0,
            scalar_bits % window_size == 0,
        ensures
            r.window_size == window_size,
            r.scalar_bits == scalar_bits,
    {
        Self { window_size, scalar_bits }
    }

    /// Number of windows to process.
    pub fn num_windows(&self) -> (r: usize)
        requires
            self.window_size > 0,
        ensures
            r == self.scalar_bits / self.window_size,
    {
        self.scalar_bits / self.window_size
    }
}

} // verus!
