use std::path::PathBuf;
use trackstats::analyze::{time_end, time_start, time_total};
use trackstats::args::{Args, StatsMask};
use trackstats::{dist, elev, speed};
use trackstats::{Position, RawPoint, StatError, Stats, WaypointExt};

fn raw(time: Option<i64>, elev: Option<i64>, leg: u64) -> RawPoint {
    RawPoint { point: Position { lat: 0, lon: 0 }, elev, time, leg }
}

fn derived(dist: u64, time: Option<i64>, elev: Option<i64>) -> WaypointExt {
    WaypointExt {
        point: Position { lat: 0, lon: 0 },
        speed: None,
        elev,
        dist,
        time,
        inter_time: None,
    }
}

fn args(mask: StatsMask) -> Args {
    Args {
        path: PathBuf::from("walk.gpx"),
        track: None,
        pretty: false,
        dist_units: dist::Units::Metres,
        speed_units: speed::Units::KmPerH,
        mask,
    }
}

fn walk() -> Vec<WaypointExt> {
    WaypointExt::prepare_track(&[
        raw(Some(0), Some(100_000_000), 10_000_000),
        raw(Some(10_000), None, 30_000_000),
        raw(Some(20_000), Some(90_000_000), 20_000_000),
        raw(Some(40_000), Some(120_000_000), 0),
    ])
}

#[test]
fn total_distance_is_the_running_distance_of_the_last_point() {
    let track = walk();
    assert_eq!(dist::total(&track), Ok(60_000_000));
    assert_eq!(dist::total(&track), Ok(track.last().unwrap().dist));
    assert_eq!(dist::total(&track[..1]), Ok(0));
}

#[test]
fn total_distance_of_nothing_is_an_error() {
    assert_eq!(dist::total(&[]), Err(StatError::EmptyInput));
}

#[test]
fn start_end_and_total_time() {
    let track = walk();
    assert_eq!(time_start(&track), Ok(0));
    assert_eq!(time_end(&track), Ok(40_000));
    assert_eq!(time_total(&track), Ok(40_000));
}

#[test]
fn times_of_nothing_are_errors() {
    assert_eq!(time_start(&[]), Err(StatError::EmptyInput));
    assert_eq!(time_end(&[]), Err(StatError::EmptyInput));
    assert_eq!(time_total(&[]), Err(StatError::EmptyInput));
}

#[test]
fn times_need_the_timestamps_of_both_ends() {
    let no_start = [derived(0, None, None), derived(5, Some(9), None)];
    assert_eq!(time_start(&no_start), Err(StatError::MissingTimestamp));
    assert_eq!(time_end(&no_start), Ok(9));
    assert_eq!(time_total(&no_start), Err(StatError::MissingTimestamp));
    let no_end = [derived(0, Some(3), None), derived(5, None, None)];
    assert_eq!(time_start(&no_end), Ok(3));
    assert_eq!(time_end(&no_end), Err(StatError::MissingTimestamp));
    assert_eq!(time_total(&no_end), Err(StatError::MissingTimestamp));
    let only_middle = [derived(0, Some(3), None), derived(1, None, None), derived(5, Some(8), None)];
    assert_eq!(time_total(&only_middle), Ok(5));
}

#[test]
fn total_time_may_be_negative_and_wide() {
    let back = [derived(0, Some(50), None), derived(5, Some(20), None)];
    assert_eq!(time_total(&back), Ok(-30));
    let wide = [derived(0, Some(i64::MIN), None), derived(5, Some(i64::MAX), None)];
    assert_eq!(time_total(&wide), Ok(u64::MAX as i128));
}

#[test]
fn mean_speed_is_distance_over_time() {
    assert_eq!(speed::mean(&walk()), Ok(1_500));
    let slow = [derived(0, Some(0), None), derived(10, Some(3), None)];
    assert_eq!(speed::mean(&slow), Ok(3));
    let back = [derived(0, Some(3), None), derived(10, Some(0), None)];
    assert_eq!(speed::mean(&back), Ok(-3));
}

#[test]
fn mean_speed_without_elapsed_time_is_degenerate() {
    let track = WaypointExt::prepare_track(&[
        raw(Some(7_000), None, 25_000_000),
        raw(Some(7_000), None, 0),
    ]);
    assert_eq!(dist::total(&track), Ok(25_000_000));
    assert_eq!(speed::mean(&track), Err(StatError::DegenerateDuration));
    let still = [derived(0, Some(7), None)];
    assert_eq!(speed::mean(&still), Err(StatError::DegenerateDuration));
}

#[test]
fn mean_speed_fails_as_its_inputs_do() {
    assert_eq!(speed::mean(&[]), Err(StatError::EmptyInput));
    let untimed = [derived(0, None, None), derived(10, Some(3), None)];
    assert_eq!(speed::mean(&untimed), Err(StatError::MissingTimestamp));
}

#[test]
fn median_speed_weighs_each_speed_by_its_time() {
    // Speeds 1000, 3000 and 1000 mm/s, held for 10, 10 and 20 seconds.
    assert_eq!(speed::median(&walk()), Ok(1_000));
    let track = WaypointExt::prepare_track(&[
        raw(Some(0), None, 1_000_000),
        raw(Some(1_000), None, 30_000_000),
        raw(Some(11_000), None, 0),
    ]);
    // Speeds 1000 for 1 s and 3000 for 10 s: an even count.
    assert_eq!(speed::median(&track), Ok(3_000));
}

fn held(speed: Option<i128>, inter_time: Option<i64>) -> WaypointExt {
    WaypointExt { speed, inter_time, ..derived(0, None, None) }
}

#[test]
fn median_speed_passes_over_points_without_speed_or_time() {
    let track = WaypointExt::prepare_track(&[
        raw(Some(0), None, 4_000_000),
        raw(Some(2_000), None, 9_000_000),
        raw(Some(2_000), None, 1_000_000),
        raw(None, None, 1_000_000),
        raw(Some(9_000), None, 8_000_000),
        raw(Some(13_000), None, 0),
    ]);
    // Speeds 2000 for 2 s and 2000 for 4 s; the still pair and the pairs
    // without both timestamps give nothing.
    assert_eq!(speed::median(&track), Ok(2_000));
    assert_eq!(speed::median(&[held(Some(9), None)]), Err(StatError::EmptyInput));
    assert_eq!(speed::median(&[held(None, Some(5))]), Err(StatError::EmptyInput));
    assert_eq!(speed::median(&[held(Some(9), Some(0))]), Err(StatError::EmptyInput));
    assert_eq!(speed::median(&[held(Some(9), Some(i64::MAX))]), Ok(9));
    assert_eq!(
        speed::median(&[held(Some(9), None), held(Some(4), Some(1)), held(None, Some(7))]),
        Ok(4)
    );
}

#[test]
fn median_speed_counts_time_that_ran_backwards() {
    let track = [
        held(Some(1_000), Some(-1_000)),
        held(Some(2_000), Some(1_000)),
        held(Some(3_000), Some(1_000)),
    ];
    assert_eq!(speed::median(&track), Ok(3_000));
    let track = [
        held(Some(1_000), Some(-1_000)),
        held(Some(5_000), Some(0)),
        held(Some(2_000), Some(1_000)),
        held(Some(3_000), Some(1_000)),
    ];
    assert_eq!(speed::median(&track), Ok(3_000));
    let track = WaypointExt::prepare_track(&[
        raw(Some(5_000), None, 10_000_000),
        raw(Some(3_000), None, 6_000_000),
        raw(Some(5_000), None, 8_000_000),
        raw(Some(7_000), None, 0),
    ]);
    // Speeds -5000 for -2 s, 3000 for 2 s and 4000 for 2 s.
    assert_eq!(track[0].speed, Some(-5_000));
    assert_eq!(speed::median(&track), Ok(4_000));
}

#[test]
fn median_speed_of_time_that_mostly_ran_backwards_is_an_error() {
    assert_eq!(speed::median(&[held(Some(-9), Some(-5))]), Err(StatError::NoMedian));
    let track = WaypointExt::prepare_track(&[
        raw(Some(0), None, 4_000_000),
        raw(Some(2_000), None, 8_000_000),
        raw(Some(-2_000), None, 0),
    ]);
    assert_eq!(speed::median(&track), Err(StatError::NoMedian));
    let stats = Stats::from_track(&track, &args(StatsMask::all()));
    assert_eq!(stats.median_speed, Some(Err(StatError::NoMedian)));
    assert_eq!(stats.total_dist, Some(Ok(12_000_000)));
    assert_eq!(stats.total_time, Some(Ok(-2_000)));
    assert_eq!(stats.avg_speed, Some(Ok(-6_000)));
}

#[test]
fn median_speed_without_pairs_is_an_error() {
    assert_eq!(speed::median(&[]), Err(StatError::EmptyInput));
    let track = WaypointExt::prepare_track(&[raw(Some(0), None, 5)]);
    assert_eq!(speed::median(&track), Err(StatError::EmptyInput));
    let untimed = WaypointExt::prepare_track(&[raw(None, None, 5), raw(None, None, 5)]);
    assert_eq!(speed::median(&untimed), Err(StatError::EmptyInput));
}

#[test]
fn elevation_extrema_pass_over_missing_values() {
    let track = walk();
    assert_eq!(elev::max(&track), Some(120_000_000));
    assert_eq!(elev::min(&track), Some(90_000_000));
    let below = [derived(0, None, Some(-5)), derived(1, None, Some(-400)), derived(2, None, None)];
    assert_eq!(elev::max(&below), Some(-5));
    assert_eq!(elev::min(&below), Some(-400));
}

#[test]
fn a_lone_elevation_is_both_extrema() {
    let track = [
        derived(0, None, None),
        derived(1, None, Some(431_000_000)),
        derived(2, None, None),
    ];
    assert_eq!(elev::max(&track), Some(431_000_000));
    assert_eq!(elev::min(&track), Some(431_000_000));
}

#[test]
fn no_elevation_no_extrema() {
    assert_eq!(elev::max(&[]), None);
    assert_eq!(elev::min(&[]), None);
    let flat = [derived(0, None, None), derived(1, None, None)];
    assert_eq!(elev::max(&flat), None);
    assert_eq!(elev::min(&flat), None);
}

#[test]
fn all_statistics_of_a_walk() {
    let stats = Stats::from_track(&walk(), &args(StatsMask::all()));
    assert_eq!(
        stats,
        Stats {
            total_dist: Some(Ok(60_000_000)),
            total_time: Some(Ok(40_000)),
            avg_speed: Some(Ok(1_500)),
            median_speed: Some(Ok(1_000)),
            max_elev: Some(Ok(120_000_000)),
            min_elev: Some(Ok(90_000_000)),
        }
    );
}

#[test]
fn each_statistic_fails_on_its_own() {
    let track = WaypointExt::prepare_track(&[
        raw(None, None, 10_000_000),
        raw(Some(5_000), None, 10_000_000),
        raw(Some(9_000), None, 0),
    ]);
    let stats = Stats::from_track(&track, &args(StatsMask::all()));
    assert_eq!(
        stats,
        Stats {
            total_dist: Some(Ok(20_000_000)),
            total_time: Some(Err(StatError::MissingTimestamp)),
            avg_speed: Some(Err(StatError::MissingTimestamp)),
            median_speed: Some(Ok(2_500)),
            max_elev: Some(Err(StatError::MissingElevation)),
            min_elev: Some(Err(StatError::MissingElevation)),
        }
    );
}

#[test]
fn statistics_of_nothing() {
    let stats = Stats::from_track(&[], &args(StatsMask::all()));
    assert_eq!(
        stats,
        Stats {
            total_dist: Some(Err(StatError::EmptyInput)),
            total_time: Some(Err(StatError::EmptyInput)),
            avg_speed: Some(Err(StatError::EmptyInput)),
            median_speed: Some(Err(StatError::EmptyInput)),
            max_elev: Some(Err(StatError::MissingElevation)),
            min_elev: Some(Err(StatError::MissingElevation)),
        }
    );
}

#[test]
fn two_points_at_one_instant_have_a_distance_but_no_mean_speed() {
    let track = WaypointExt::prepare_track(&[
        raw(Some(1_000), None, 12_000_000),
        raw(Some(1_000), None, 0),
    ]);
    let stats = Stats::from_track(&track, &args(StatsMask::all()));
    assert_eq!(stats.total_dist, Some(Ok(12_000_000)));
    assert_eq!(stats.total_time, Some(Ok(0)));
    assert_eq!(stats.avg_speed, Some(Err(StatError::DegenerateDuration)));
    assert_eq!(stats.median_speed, Some(Err(StatError::EmptyInput)));
}

#[test]
fn a_mask_only_hides_statistics() {
    let track = walk();
    let full = Stats::from_track(&track, &args(StatsMask::all()));
    for bits in 0..64u32 {
        let mask = StatsMask {
            total_dist: bits & 1 != 0,
            total_time: bits & 2 != 0,
            avg_speed: bits & 4 != 0,
            median_speed: bits & 8 != 0,
            max_elev: bits & 16 != 0,
            min_elev: bits & 32 != 0,
        };
        let stats = Stats::from_track(&track, &args(mask));
        assert_eq!(stats.total_dist, if mask.total_dist { full.total_dist } else { None });
        assert_eq!(stats.total_time, if mask.total_time { full.total_time } else { None });
        assert_eq!(stats.avg_speed, if mask.avg_speed { full.avg_speed } else { None });
        assert_eq!(stats.median_speed, if mask.median_speed { full.median_speed } else { None });
        assert_eq!(stats.max_elev, if mask.max_elev { full.max_elev } else { None });
        assert_eq!(stats.min_elev, if mask.min_elev { full.min_elev } else { None });
    }
}

#[test]
fn mean_speed_does_not_need_its_inputs_shown() {
    let mask = StatsMask { avg_speed: true, ..StatsMask::default() };
    let stats = Stats::from_track(&walk(), &args(mask));
    assert_eq!(stats.avg_speed, Some(Ok(1_500)));
    assert_eq!(stats.total_dist, None);
    assert_eq!(stats.total_time, None);
}
