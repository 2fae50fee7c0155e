use crate::geometry::Point;
use vstd::prelude::*;

verus! {

/// Failures of configuration and of output conversion.
#[derive(Debug, Clone, Copy, PartialEq, Eq, Structural)]
pub enum AllColorsError {
    /// A point lies outside the grid.
    InvalidPoint(Point),
    /// A coordinate pair lies outside the grid (or is negative).
    OutOfBounds(isize, isize),
    /// A cell still had no color when the grid was converted.
    MissingColor(Point),
    /// The grid has a zero width or height, or its area does not fit in `usize`.
    InvalidSize,
    /// The number of colors differs from the number of grid cells.
    ColorCountMismatch,
    /// More initial points than colors.
    TooManyInitialPoints,
    /// The same initial point was given twice.
    DuplicateInitialPoint(Point),
}

} // verus!
