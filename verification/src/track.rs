//! Recorded points, and the pass that derives running distance, speed and
//! time to the next point from them.

use vstd::prelude::*;

verus! {

/// A place on the globe, in degrees scaled by ten million.
#[derive(Clone, Copy, Debug, PartialEq, Eq)]
pub struct Position {
    pub lat: i64,
    pub lon: i64,
}

/// A point as it was recorded.
#[derive(Clone, Copy, Debug, PartialEq, Eq)]
pub struct RawPoint {
    /// Where the point was taken.
    pub point: Position,
    /// Elevation, in micrometres.
    pub elev: Option<i64>,
    /// When the point was taken, in milliseconds since the Unix epoch.
    pub time: Option<i64>,
    /// Geodesic distance from this point to the next one, in micrometres.
    /// It is not read on the last point of a track.
    pub leg: u64,
}

/// A recorded point together with what the track says about it.
#[derive(Clone, Copy, Debug, PartialEq, Eq)]
pub struct WaypointExt {
    /// Where the point was taken.
    pub point: Position,
    /// Speed from this point to the next, in millimetres per second. It is
    /// negative where the next point was taken before this one.
    pub speed: Option<i128>,
    /// Elevation, in micrometres.
    pub elev: Option<i64>,
    /// Distance travelled along the track up to this point, in micrometres.
    pub dist: u64,
    /// When the point was taken, in milliseconds since the Unix epoch.
    pub time: Option<i64>,
    /// Time from this point to the next, in milliseconds. It is negative
    /// where the next point was taken before this one.
    pub inter_time: Option<i64>,
}

/// The length of the first `n` legs of `points`.
pub open spec fn path_length(points: Seq<RawPoint>, n: int) -> nat
    decreases n,
{
    if n <= 0 {
        0
    } else {
        path_length(points, n - 1) + points[n - 1].leg as nat
    }
}

/// The length of the whole track: all legs but the one recorded on the last
/// point, which leads nowhere.
pub open spec fn track_length(points: Seq<RawPoint>) -> nat {
    path_length(points, points.len() - 1)
}

/// The time from one instant to another, where both are known.
pub open spec fn time_between(from: Option<i64>, to: Option<i64>) -> Option<int> {
    match (from, to) {
        (Some(a), Some(b)) => Some(b - a),
        _ => None,
    }
}

/// The time from point `i` of `points` to the next; none on the last point.
pub open spec fn time_to_next(points: Seq<RawPoint>, i: int) -> Option<int> {
    if i + 1 < points.len() {
        time_between(points[i].time, points[i + 1].time)
    } else {
        None
    }
}

/// Whether the first `n` points are each so near in time to the next that
/// the time between them can be held in 64 bits.
pub open spec fn steps_fit(points: Seq<RawPoint>, n: int) -> bool {
    forall|i: int|
        0 <= i < n ==> (#[trigger] time_to_next(points, i) matches Some(t) ==> i64::MIN <= t
            <= i64::MAX)
}

/// Whether the track can be derived within machine limits: its length and
/// the time from each point to the next can each be held in 64 bits.
pub open spec fn measurable(points: Seq<RawPoint>) -> bool {
    track_length(points) <= u64::MAX && steps_fit(points, points.len() as int)
}

/// `dist` divided by a `time` other than zero, rounded towards zero.
pub open spec fn quotient(dist: u64, time: int) -> int {
    if time > 0 {
        dist as int / time
    } else {
        -(dist as int / -time)
    }
}

/// The speed at which `leg` is covered in `time`: their quotient, with the
/// sign of the time. There is none where the time is unknown or zero.
pub open spec fn speed_over(leg: u64, time: Option<int>) -> Option<i128> {
    match time {
        Some(t) => if t != 0 {
            Some(quotient(leg, t) as i128)
        } else {
            None
        },
        None => None,
    }
}

/// What the track says about point `i` of `points`.
pub open spec fn enriched(points: Seq<RawPoint>, i: int) -> WaypointExt {
    WaypointExt {
        point: points[i].point,
        speed: speed_over(points[i].leg, time_to_next(points, i)),
        elev: points[i].elev,
        dist: path_length(points, i) as u64,
        time: points[i].time,
        inter_time: match time_to_next(points, i) {
            Some(t) => Some(t as i64),
            None => None,
        },
    }
}

/// A longer stretch of legs is no shorter.
pub proof fn lemma_path_length_monotone(points: Seq<RawPoint>, i: int, j: int)
    requires
        i <= j,
    ensures
        path_length(points, i) <= path_length(points, j),
    decreases j - i,
{
    if i < j {
        lemma_path_length_monotone(points, i, j - 1);
    }
}

/// The distance travelled never falls from one derived point to a later
/// one, and the last derived point has the whole track behind it.
pub proof fn lemma_derived_distances(points: Seq<RawPoint>, i: int, j: int)
    requires
        0 <= i <= j < points.len(),
        track_length(points) <= u64::MAX,
    ensures
        enriched(points, 0).dist == 0,
        enriched(points, i).dist <= enriched(points, j).dist,
        enriched(points, points.len() - 1).dist == track_length(points),
{
    lemma_path_length_monotone(points, i, j);
    lemma_path_length_monotone(points, j, points.len() - 1);
}

/// `dist` divided by `time`, rounded towards zero.
pub(crate) fn divide(dist: u64, time: i128) -> (q: i128)
    requires
        time != 0,
        time > i128::MIN,
    ensures
        q == quotient(dist, time as int),
{
    if time > 0 {
        (dist as u128 / time as u128) as i128
    } else {
        -((dist as u128 / (-time) as u128) as i128)
    }
}

/// Whether the track can be derived within machine limits.
pub fn is_measurable(points: &[RawPoint]) -> (ok: bool)
    ensures
        ok == measurable(points@),
{
    let n = points.len();
    let mut sum: u64 = 0;
    let mut i: usize = 0;
    while i + 1 < n
        invariant
            n == points@.len(),
            i < n || i == 0,
            sum == path_length(points@, i as int),
            steps_fit(points@, i as int),
        decreases n - i,
    {
        match sum.checked_add(points[i].leg) {
            Some(next) => {
                sum = next;
            },
            None => {
                proof {
                    lemma_path_length_monotone(points@, i + 1, n - 1);
                }
                return false;
            },
        }
        match (points[i].time, points[i + 1].time) {
            (Some(a), Some(b)) => {
                if b.checked_sub(a).is_none() {
                    assert(time_to_next(points@, i as int) == Some(b - a));
                    return false;
                }
            },
            _ => {},
        }
        i += 1;
    }
    assert forall|k: int| 0 <= k < n implies (#[trigger] time_to_next(points@, k) matches Some(t)
        ==> i64::MIN <= t <= i64::MAX) by {
        if k < i {
            assert(steps_fit(points@, i as int));
        }
    }
    true
}

impl WaypointExt {
    /// Derives, for each recorded point, the distance travelled up to it, the
    /// time to the next point and the speed over that leg.
    ///
    /// The result has one entry per point, in the same order. The first entry
    /// has travelled nothing; the last has the whole length of the track behind
    /// it and no next point, hence neither time nor speed. A point has a
    /// time to the next where both were stamped, and a speed where that time
    /// is not zero.
    pub fn prepare_track(points: &[RawPoint]) -> (track: Vec<Self>)
        requires
            measurable(points@),
        ensures
            track@.len() == points@.len(),
            forall|i: int| 0 <= i < track@.len() ==> track@[i] == enriched(points@, i),
            forall|i: int, j: int| 0 <= i <= j < track@.len() ==> track@[i].dist <= track@[j].dist,
            track@.len() > 0 ==> track@[0].dist == 0,
            track@.len() > 0 ==> track@.last().dist == track_length(points@),
            track@.len() > 0 ==> track@.last().speed is None && track@.last().inter_time is None,
    {
        let n = points.len();
        let mut track: Vec<WaypointExt> = Vec::new();
        let mut dist: u64 = 0;
        let mut i: usize = 0;
        while i < n
            invariant
                n == points@.len(),
                i <= n,
                measurable(points@),
                track@.len() == i,
                i < n ==> dist == path_length(points@, i as int),
                forall|k: int| 0 <= k < i ==> track@[k] == enriched(points@, k),
            decreases n - i,
        {
            let p = points[i];
            proof {
                assert(time_to_next(points@, i as int) matches Some(t) ==> i64::MIN <= t
                    <= i64::MAX);
            }
            let inter_time = if i + 1 < n {
                match (p.time, points[i + 1].time) {
                    (Some(a), Some(b)) => Some(b - a),
                    _ => None,
                }
            } else {
                None
            };
            let speed = match inter_time {
                Some(t) => if t != 0 {
                    Some(divide(p.leg, t as i128))
                } else {
                    None
                },
                None => None,
            };
            track.push(
                WaypointExt { point: p.point, speed, elev: p.elev, dist, time: p.time, inter_time },
            );
            if i + 1 < n {
                proof {
                    lemma_path_length_monotone(points@, i + 1, n - 1);
                }
                dist = dist + p.leg;
            }
            i += 1;
        }
        proof {
            assert forall|a: int, b: int| 0 <= a <= b < track@.len() implies track@[a].dist
                <= track@[b].dist by {
                lemma_path_length_monotone(points@, a, b);
                lemma_path_length_monotone(points@, b, n - 1);
            }
            if n > 0 {
                lemma_path_length_monotone(points@, 0, n - 1);
            }
        }
        track
    }
}

} // verus!
