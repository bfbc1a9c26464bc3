//! What can go wrong in a curve operation.
use vstd::prelude::*;

verus! {

/// Why a curve operation produced no result.
#[derive(Debug, Clone, Copy, PartialEq, Eq, Structural)]
pub enum PrecompileError {
    /// A limb array has the wrong length for its operand.
    Size,
    /// A byte buffer that should hold one field element is not 32 bytes long.
    Encoding,
    /// The arithmetic engine rejected its input (a point off the curve or outside
    /// its subgroup, a scalar out of range, a malformed buffer).
    Curve,
}

} // verus!
