//! Distance along a track.

use crate::error::{ParseError, StatError};
use crate::text::str_equals;
use crate::track::WaypointExt;
use vstd::prelude::*;

verus! {

/// A unit of distance.
#[derive(PartialEq, Eq, Clone, Copy, Debug, Structural)]
pub enum Units {
    Metres,
    Feet,
}

impl Units {
    /// The unit that `word` names, if any.
    pub open spec fn parsed(word: Seq<char>) -> Option<Self> {
        if word == "m"@ {
            Some(Units::Metres)
        } else if word == "ft"@ {
            Some(Units::Feet)
        } else {
            None
        }
    }

    /// The text that names this unit.
    pub open spec fn name(self) -> Seq<char> {
        match self {
            Units::Metres => "m"@,
            Units::Feet => "ft"@,
        }
    }

    /// Reads `m` or `ft`.
    pub fn from_str(s: &str) -> (r: Result<Self, ParseError>)
        ensures
            r == match Self::parsed(s@) {
                Some(units) => Ok::<Self, ParseError>(units),
                None => Err::<Self, ParseError>(ParseError::UnknownWord),
            },
    {
        if str_equals(s, "m") {
            Ok(Units::Metres)
        } else if str_equals(s, "ft") {
            Ok(Units::Feet)
        } else {
            Err(ParseError::UnknownWord)
        }
    }

    /// The text that names this unit: `m` or `ft`.
    pub fn symbol(&self) -> (s: &'static str)
        ensures
            s@ == self.name(),
    {
        match self {
            Units::Metres => "m",
            Units::Feet => "ft",
        }
    }
}

impl Default for Units {
    fn default() -> (units: Self)
        ensures
            units == Units::Metres,
    {
        Units::Metres
    }
}

/// The distance travelled along the whole of `track`: the running distance
/// of its last point. An empty track has none.
pub open spec fn total_distance(track: Seq<WaypointExt>) -> Result<u64, StatError> {
    if track.len() == 0 {
        Err(StatError::EmptyInput)
    } else {
        Ok(track.last().dist)
    }
}

/// The distance travelled along the whole of `track`, in micrometres.
pub fn total(track: &[WaypointExt]) -> (r: Result<u64, StatError>)
    ensures
        r == total_distance(track@),
{
    let n = track.len();
    if n == 0 {
        Err(StatError::EmptyInput)
    } else {
        Ok(track[n - 1].dist)
    }
}

} // verus!
