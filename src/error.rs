//! The ways normalisation can fail.

use vstd::prelude::*;

verus! {

#[derive(Clone, Copy, Debug, PartialEq, Eq, Structural)]
pub enum NormalizeError {
    /// The padding leaves no interior on the canvas: `2 * padding` is not
    /// below both canvas sides.
    InvalidConfiguration,
    /// The region to scale has zero width or height (nothing was detected).
    InvalidGeometry,
    /// The object to paste is larger than the canvas.
    OutOfBounds,
}

} // verus!
