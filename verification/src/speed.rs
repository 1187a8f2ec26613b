//! Mean and median speed along a track.

use crate::analyze::{elapsed_time, time_total};
use crate::dist::{total, total_distance};
use crate::error::{ParseError, StatError};
use crate::text::str_equals;
use crate::track::{divide, quotient, WaypointExt};
use crate::util::{weighted_median, weighted_median_of};
use vstd::prelude::*;

verus! {

/// A unit of speed or of pace.
#[derive(Clone, Copy, PartialEq, Eq, Debug, Structural)]
pub enum Units {
    KmPerH,
    MiPerH,
    MPerS,
    FtPerS,
    MinPerMi,
    MinPerKm,
}

impl Units {
    /// The unit that `word` names, if any.
    pub open spec fn parsed(word: Seq<char>) -> Option<Self> {
        if word == "km/h"@ {
            Some(Units::KmPerH)
        } else if word == "mi/h"@ {
            Some(Units::MiPerH)
        } else if word == "m/s"@ {
            Some(Units::MPerS)
        } else if word == "ft/s"@ {
            Some(Units::FtPerS)
        } else if word == "min/mi"@ {
            Some(Units::MinPerMi)
        } else if word == "min/km"@ {
            Some(Units::MinPerKm)
        } else {
            None
        }
    }

    /// The text that names this unit.
    pub open spec fn name(self) -> Seq<char> {
        match self {
            Units::KmPerH => "km/h"@,
            Units::MiPerH => "mi/h"@,
            Units::MPerS => "m/s"@,
            Units::FtPerS => "ft/s"@,
            Units::MinPerMi => "min/mi"@,
            Units::MinPerKm => "min/km"@,
        }
    }

    /// Reads one of `km/h`, `mi/h`, `m/s`, `ft/s`, `min/mi` and `min/km`.
    pub fn from_str(s: &str) -> (r: Result<Self, ParseError>)
        ensures
            r == match Self::parsed(s@) {
                Some(units) => Ok::<Self, ParseError>(units),
                None => Err::<Self, ParseError>(ParseError::UnknownWord),
            },
    {
        if str_equals(s, "km/h") {
            Ok(Units::KmPerH)
        } else if str_equals(s, "mi/h") {
            Ok(Units::MiPerH)
        } else if str_equals(s, "m/s") {
            Ok(Units::MPerS)
        } else if str_equals(s, "ft/s") {
            Ok(Units::FtPerS)
        } else if str_equals(s, "min/mi") {
            Ok(Units::MinPerMi)
        } else if str_equals(s, "min/km") {
            Ok(Units::MinPerKm)
        } else {
            Err(ParseError::UnknownWord)
        }
    }

    /// The text that names this unit.
    pub fn symbol(&self) -> (s: &'static str)
        ensures
            s@ == self.name(),
    {
        match self {
            Units::KmPerH => "km/h",
            Units::MiPerH => "mi/h",
            Units::MPerS => "m/s",
            Units::FtPerS => "ft/s",
            Units::MinPerMi => "min/mi",
            Units::MinPerKm => "min/km",
        }
    }
}

/// The mean speed along `track`: the distance travelled divided by the time
/// elapsed. There is none where either is missing, nor where no time
/// elapsed.
pub open spec fn mean_speed(track: Seq<WaypointExt>) -> Result<i128, StatError> {
    match (total_distance(track), elapsed_time(track)) {
        (Ok(d), Ok(t)) => if t == 0 {
            Err(StatError::DegenerateDuration)
        } else {
            Ok(quotient(d, t as int) as i128)
        },
        (Err(e), _) => Err(e),
        (_, Err(e)) => Err(e),
    }
}

/// The speed of a point paired with the time for which it was held. A point
/// gives such a pair where it has a speed and a time to the next point, and
/// that time is not zero.
pub open spec fn weighted_speed(p: WaypointExt) -> Option<(i128, i64)> {
    match (p.speed, p.inter_time) {
        (Some(s), Some(t)) => if t != 0 {
            Some((s, t))
        } else {
            None
        },
        _ => None,
    }
}

/// The pairs of speed and time that the points of `track` give, in order.
pub open spec fn weighted_speeds(track: Seq<WaypointExt>) -> Seq<(i128, i64)>
    decreases track.len(),
{
    if track.len() == 0 {
        Seq::empty()
    } else {
        match weighted_speed(track.last()) {
            Some(pair) => weighted_speeds(track.drop_last()).push(pair),
            None => weighted_speeds(track.drop_last()),
        }
    }
}

/// The median speed along `track`: the median of the speeds of its points,
/// each weighted by the time for which it was held.
pub open spec fn median_speed(track: Seq<WaypointExt>) -> Result<i128, StatError> {
    weighted_median_of(weighted_speeds(track))
}

/// The mean speed along `track`, in millimetres per second. It is negative
/// where the last point was taken before the first.
pub fn mean(track: &[WaypointExt]) -> (r: Result<i128, StatError>)
    ensures
        r == mean_speed(track@),
{
    let dist = match total(track) {
        Ok(d) => d,
        Err(e) => {
            return Err(e);
        },
    };
    let time = match time_total(track) {
        Ok(t) => t,
        Err(e) => {
            return Err(e);
        },
    };
    if time == 0 {
        Err(StatError::DegenerateDuration)
    } else {
        Ok(divide(dist, time))
    }
}

/// The time-weighted median speed along `track`, in millimetres per second.
/// Points without a speed or without a time to the next point are passed
/// over, and so are those whose time to the next point is zero.
pub fn median(track: &[WaypointExt]) -> (r: Result<i128, StatError>)
    ensures
        r == median_speed(track@),
{
    let mut pairs: Vec<(i128, i64)> = Vec::new();
    let mut i: usize = 0;
    while i < track.len()
        invariant
            i <= track@.len(),
            pairs@ == weighted_speeds(track@.take(i as int)),
        decreases track.len() - i,
    {
        proof {
            let next = track@.take(i + 1);
            assert(next.drop_last() =~= track@.take(i as int));
            assert(next.last() == track@[i as int]);
        }
        match (track[i].speed, track[i].inter_time) {
            (Some(s), Some(t)) => {
                if t != 0 {
                    pairs.push((s, t));
                }
            },
            _ => {},
        }
        i += 1;
    }
    assert(track@.take(i as int) =~= track@);
    weighted_median(pairs.as_slice())
}

} // verus!
