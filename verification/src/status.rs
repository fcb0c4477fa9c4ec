//! Faults of the render context.
//!
//! The context fails loudly rather than render incorrectly: unsupported
//! requests and scope-pairing violations abort the render pass with one of
//! these errors instead of silently drawing wrong pixels.

use vstd::prelude::*;

verus! {

/// Why a render-context operation was refused.
#[derive(Clone, Copy, PartialEq, Eq, Structural, Debug)]
pub enum RenderError {
    /// `restore` was called with no unmatched `save`, or the transform
    /// stack lost its root scope.
    StackUnderflow,
    /// `save` was called with the transform stack already at its maximum
    /// depth.
    StackOverflow,
    /// The requested operation (clipping, a non-translation transform) has
    /// no correct implementation and is rejected rather than approximated.
    Unsupported,
    /// A path closed before any of its points was recorded.
    ClosePathNoStart,
}

} // verus!
