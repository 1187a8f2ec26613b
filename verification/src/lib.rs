//! Statistics over recorded GPS tracks, in exact fixed-point arithmetic.
//!
//! Every quantity is an integer: distances and elevations are micrometres,
//! instants and durations are milliseconds, and speeds are millimetres per
//! second (which is micrometres per millisecond, so a speed is a plain
//! quotient of a distance by a duration).

pub mod analyze;
pub mod args;
pub mod dist;
pub mod elev;
pub mod error;
pub mod sort;
pub mod speed;
pub mod text;
pub mod track;
pub mod util;

pub use crate::analyze::Stats;
pub use crate::error::{ParseError, StatError};
pub use crate::track::{Position, RawPoint, WaypointExt};
