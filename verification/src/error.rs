//! Failures of the plot renderer.

use vstd::prelude::*;

verus! {

/// Why no picture was produced.
#[derive(Clone, Copy, Debug, PartialEq, Eq, Structural)]
pub enum RenderError {
    /// There was nothing to draw: the input held no point.
    InvalidInput,
    /// The drawing backend reported a failure. The renderer hands such a
    /// report on at once; the bitmap backend that it draws with makes none.
    Backend,
}

} // verus!
