use vstd::prelude::*;

verus! {

/// The fixed-point representation of the real number 1.0.
///
/// A real quantity `x` (an epsilon, an attributable value, a noise scale) is
/// held as the integer `x * UNIT`, so six decimal places are exact.
pub const UNIT: u64 = 1_000_000;

/// L1 and L2 norms.
#[derive(Debug, Clone, Copy, PartialEq, Eq, Structural)]
pub enum NormType {
    L1,
    L2,
}

/// Noise scale of the mechanism. Only Laplace noise is supported.
#[derive(Debug, Clone, Copy, PartialEq, Eq, Structural)]
pub enum NoiseScale {
    /// The `b` parameter of `Lap(b)`, in fixed point.
    Laplace(u64),
}

} // verus!
