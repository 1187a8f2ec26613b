//! Why a statistic could not be computed.

use vstd::prelude::*;

verus! {

/// The reason a statistic is missing.
#[derive(Clone, Copy, Debug, PartialEq, Eq, Structural)]
pub enum StatError {
    /// There is no point, or no usable pair of points, to compute from.
    EmptyInput,
    /// A point whose timestamp is needed has none.
    MissingTimestamp,
    /// No point carries an elevation.
    MissingElevation,
    /// No time elapsed between the first and the last point.
    DegenerateDuration,
    /// No value carries half of the total weight, so there is no median.
    /// This takes a negative weight: time that ran backwards.
    NoMedian,
}

/// Why a piece of text could not be read.
#[derive(Debug, PartialEq, Eq)]
pub enum ParseError {
    /// The text is none of the words accepted in its place.
    UnknownWord,
    /// A list holds an empty item.
    EmptyValue,
    /// A list holds this item, which names nothing.
    UnexpectedValue(String),
}

} // verus!
