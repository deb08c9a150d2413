//! The ways in which a request to the library can fail.

use vstd::prelude::*;

verus! {

/// Why an operation gave no result.
#[derive(Clone, Copy, Debug, PartialEq, Eq, Structural)]
pub enum Error {
    /// The image has no pixels, or its buffer does not hold three bytes for each pixel.
    InvalidImage,
    /// The geometry engine's output does not describe a hull or a triangulation.
    HullConstructionFailed,
    /// The palette's colors are not exactly the vertices of the palette's convex hull.
    RedundantPalette,
    /// The palette has fewer than four colors.
    PaletteTooSmall,
    /// A reconstruction palette differs in size from the decomposition palette.
    PaletteSizeMismatch,
    /// A channel index is not below the number of channels.
    OutOfRange,
}

} // verus!
