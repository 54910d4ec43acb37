//! The envelope of the dense kernels.
use vstd::prelude::*;

verus! {

/// Most extra groupings that the dense kernels hold.
pub const MAX_EXTRA_GROUPINGS: usize = 6;

/// Widest primary block (intercept and slopes) that the dense kernels hold.
pub const MAX_PRIMARY_Q: usize = 8;

/// Most crossed levels, over all crossed groupings, that the dense kernels take:
/// their tail is cubic in this sum.
pub const MAX_CROSSED_LEVELS: usize = 256;

/// Most nodes of the adaptive quadrature.
pub const MAX_NAGQ: u8 = 25;

/// Most variance parameters of a design that the dense kernels hold: a full
/// primary block and one parameter for each extra grouping.
pub const MAX_THETA: usize = 42;

} // verus!
