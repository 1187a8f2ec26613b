//! Elevation extrema of a track.

use crate::track::WaypointExt;
use vstd::prelude::*;

verus! {

/// Whether some point of `track` carries an elevation.
pub open spec fn has_elevation(track: Seq<WaypointExt>) -> bool {
    exists|i: int| 0 <= i < track.len() && (#[trigger] track[i]).elev is Some
}

/// `m` is the greatest elevation that a point of `track` carries.
pub open spec fn is_highest(track: Seq<WaypointExt>, m: i64) -> bool {
    &&& exists|i: int| 0 <= i < track.len() && (#[trigger] track[i]).elev == Some(m)
    &&& forall|i: int|
        0 <= i < track.len() ==> ((#[trigger] track[i]).elev matches Some(e) ==> e <= m)
}

/// `m` is the least elevation that a point of `track` carries.
pub open spec fn is_lowest(track: Seq<WaypointExt>, m: i64) -> bool {
    &&& exists|i: int| 0 <= i < track.len() && (#[trigger] track[i]).elev == Some(m)
    &&& forall|i: int|
        0 <= i < track.len() ==> ((#[trigger] track[i]).elev matches Some(e) ==> e >= m)
}

/// The greatest elevation on `track`, in micrometres. Points without an
/// elevation are passed over; where no point has one there is no maximum.
pub fn max(track: &[WaypointExt]) -> (r: Option<i64>)
    ensures
        r is None <==> !has_elevation(track@),
        r matches Some(m) ==> is_highest(track@, m),
{
    let n = track.len();
    let mut best: Option<i64> = None;
    let ghost mut at: int = 0;
    let mut i: usize = 0;
    while i < n
        invariant
            i <= n == track@.len(),
            best is None ==> forall|k: int| 0 <= k < i ==> (#[trigger] track@[k]).elev is None,
            best matches Some(m) ==> 0 <= at < i && track@[at].elev == Some(m) && forall|k: int|
                0 <= k < i ==> ((#[trigger] track@[k]).elev matches Some(e) ==> e <= m),
        decreases n - i,
    {
        if let Some(e) = track[i].elev {
            let higher = match best {
                Some(m) => e > m,
                None => true,
            };
            if higher {
                best = Some(e);
                proof {
                    at = i as int;
                }
            }
        }
        i += 1;
    }
    proof {
        if best is Some {
            assert(track@[at].elev is Some);
        }
    }
    best
}

/// The least elevation on `track`, in micrometres. Points without an
/// elevation are passed over; where no point has one there is no minimum.
pub fn min(track: &[WaypointExt]) -> (r: Option<i64>)
    ensures
        r is None <==> !has_elevation(track@),
        r matches Some(m) ==> is_lowest(track@, m),
{
    let n = track.len();
    let mut best: Option<i64> = None;
    let ghost mut at: int = 0;
    let mut i: usize = 0;
    while i < n
        invariant
            i <= n == track@.len(),
            best is None ==> forall|k: int| 0 <= k < i ==> (#[trigger] track@[k]).elev is None,
            best matches Some(m) ==> 0 <= at < i && track@[at].elev == Some(m) && forall|k: int|
                0 <= k < i ==> ((#[trigger] track@[k]).elev matches Some(e) ==> e >= m),
        decreases n - i,
    {
        if let Some(e) = track[i].elev {
            let lower = match best {
                Some(m) => e < m,
                None => true,
            };
            if lower {
                best = Some(e);
                proof {
                    at = i as int;
                }
            }
        }
        i += 1;
    }
    proof {
        if best is Some {
            assert(track@[at].elev is Some);
        }
    }
    best
}

/// On a track where a single point carries an elevation, that elevation is
/// both the greatest and the least, and nothing else is.
pub proof fn lemma_lone_elevation(track: Seq<WaypointExt>, k: int, e: i64)
    requires
        0 <= k < track.len(),
        track[k].elev == Some(e),
        forall|i: int| 0 <= i < track.len() && i != k ==> (#[trigger] track[i]).elev is None,
    ensures
        has_elevation(track),
        is_highest(track, e),
        is_lowest(track, e),
        forall|m: i64| is_highest(track, m) || is_lowest(track, m) ==> m == e,
{
    assert(track[k].elev is Some);
}

} // verus!
