//! The statistics of a track, each computed and reported on its own.

use crate::args::Args;
use crate::dist;
use crate::elev;
use crate::error::StatError;
use crate::speed;
use crate::track::WaypointExt;
use vstd::prelude::*;

verus! {

/// When the first point of `track` was taken.
pub open spec fn first_time(track: Seq<WaypointExt>) -> Result<i64, StatError> {
    if track.len() == 0 {
        Err(StatError::EmptyInput)
    } else {
        match track.first().time {
            Some(t) => Ok(t),
            None => Err(StatError::MissingTimestamp),
        }
    }
}

/// When the last point of `track` was taken.
pub open spec fn last_time(track: Seq<WaypointExt>) -> Result<i64, StatError> {
    if track.len() == 0 {
        Err(StatError::EmptyInput)
    } else {
        match track.last().time {
            Some(t) => Ok(t),
            None => Err(StatError::MissingTimestamp),
        }
    }
}

/// The time from the first point of `track` to its last.
pub open spec fn elapsed_time(track: Seq<WaypointExt>) -> Result<i128, StatError> {
    match (first_time(track), last_time(track)) {
        (Ok(t), Ok(u)) => Ok((u - t) as i128),
        (Err(e), _) => Err(e),
        (_, Err(e)) => Err(e),
    }
}

/// When the first point of `track` was taken, in milliseconds since the
/// Unix epoch.
pub fn time_start(track: &[WaypointExt]) -> (r: Result<i64, StatError>)
    ensures
        r == first_time(track@),
{
    if track.len() == 0 {
        Err(StatError::EmptyInput)
    } else {
        match track[0].time {
            Some(t) => Ok(t),
            None => Err(StatError::MissingTimestamp),
        }
    }
}

/// When the last point of `track` was taken, in milliseconds since the
/// Unix epoch.
pub fn time_end(track: &[WaypointExt]) -> (r: Result<i64, StatError>)
    ensures
        r == last_time(track@),
{
    let n = track.len();
    if n == 0 {
        Err(StatError::EmptyInput)
    } else {
        match track[n - 1].time {
            Some(t) => Ok(t),
            None => Err(StatError::MissingTimestamp),
        }
    }
}

/// The time from the first point of `track` to its last, in milliseconds.
/// It is negative where the last point was taken before the first.
pub fn time_total(track: &[WaypointExt]) -> (r: Result<i128, StatError>)
    ensures
        r == elapsed_time(track@),
{
    match time_start(track) {
        Ok(t) => match time_end(track) {
            Ok(u) => Ok(u as i128 - t as i128),
            Err(e) => Err(e),
        },
        Err(e) => Err(e),
    }
}

/// The statistics of one track. A statistic that was not asked for is
/// `None`; one that was asked for holds its value or the reason it has none.
/// No statistic's failure keeps another from being computed.
#[derive(Clone, Copy, Debug, PartialEq, Eq)]
pub struct Stats {
    /// Distance travelled, in micrometres.
    pub total_dist: Option<Result<u64, StatError>>,
    /// Time from the first point to the last, in milliseconds.
    pub total_time: Option<Result<i128, StatError>>,
    /// Mean speed, in millimetres per second.
    pub avg_speed: Option<Result<i128, StatError>>,
    /// Time-weighted median speed, in millimetres per second.
    pub median_speed: Option<Result<i128, StatError>>,
    /// Greatest elevation, in micrometres.
    pub max_elev: Option<Result<i64, StatError>>,
    /// Least elevation, in micrometres.
    pub min_elev: Option<Result<i64, StatError>>,
}

/// `r` is what is reported for the greatest elevation on `track`.
pub open spec fn reports_highest(track: Seq<WaypointExt>, r: Result<i64, StatError>) -> bool {
    match r {
        Ok(m) => elev::is_highest(track, m),
        Err(e) => e == StatError::MissingElevation && !elev::has_elevation(track),
    }
}

/// `r` is what is reported for the least elevation on `track`.
pub open spec fn reports_lowest(track: Seq<WaypointExt>, r: Result<i64, StatError>) -> bool {
    match r {
        Ok(m) => elev::is_lowest(track, m),
        Err(e) => e == StatError::MissingElevation && !elev::has_elevation(track),
    }
}

impl Stats {
    /// Computes the statistics of `track` that `args.mask` asks for, and no
    /// others. What a statistic comes to does not depend on which others
    /// are asked for.
    pub fn from_track(track: &[WaypointExt], args: &Args) -> (stats: Self)
        ensures
            stats.total_dist == if args.mask.total_dist {
                Some(dist::total_distance(track@))
            } else {
                None
            },
            stats.total_time == if args.mask.total_time {
                Some(elapsed_time(track@))
            } else {
                None
            },
            stats.avg_speed == if args.mask.avg_speed {
                Some(speed::mean_speed(track@))
            } else {
                None
            },
            stats.median_speed == if args.mask.median_speed {
                Some(speed::median_speed(track@))
            } else {
                None
            },
            stats.max_elev is Some <==> args.mask.max_elev,
            stats.max_elev matches Some(r) ==> reports_highest(track@, r),
            stats.min_elev is Some <==> args.mask.min_elev,
            stats.min_elev matches Some(r) ==> reports_lowest(track@, r),
    {
        let total_dist = if args.mask.total_dist {
            Some(dist::total(track))
        } else {
            None
        };
        let total_time = if args.mask.total_time {
            Some(time_total(track))
        } else {
            None
        };
        let avg_speed = if args.mask.avg_speed {
            Some(speed::mean(track))
        } else {
            None
        };
        let median_speed = if args.mask.median_speed {
            Some(speed::median(track))
        } else {
            None
        };
        let max_elev = if args.mask.max_elev {
            match elev::max(track) {
                Some(m) => Some(Ok(m)),
                None => Some(Err(StatError::MissingElevation)),
            }
        } else {
            None
        };
        let min_elev = if args.mask.min_elev {
            match elev::min(track) {
                Some(m) => Some(Ok(m)),
                None => Some(Err(StatError::MissingElevation)),
            }
        } else {
            None
        };
        Stats { total_dist, total_time, avg_speed, median_speed, max_elev, min_elev }
    }
}

} // verus!
