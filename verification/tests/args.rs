use std::path::PathBuf;
use trackstats::args::{Args, Pretty, Raw, StatsMask};
use trackstats::{dist, speed, ParseError};

fn raw() -> Raw {
    Raw {
        path: PathBuf::from("walk.gpx"),
        track: None,
        pretty: None,
        dist_units: None,
        speed_units: None,
        output: None,
    }
}

#[test]
fn groups_of_statistics() {
    let none = StatsMask::default();
    assert!(!none.has_seg(0));
    assert!(!none.has_seg(1));
    let all = StatsMask::all();
    assert!(all.has_seg(0));
    assert!(all.has_seg(1));
    assert!(!all.has_seg(2));
    assert!(!all.has_seg(usize::MAX));
    for mask in [
        StatsMask { total_dist: true, ..none },
        StatsMask { total_time: true, ..none },
        StatsMask { avg_speed: true, ..none },
        StatsMask { median_speed: true, ..none },
    ] {
        assert!(mask.has_seg(0));
        assert!(!mask.has_seg(1));
    }
    for mask in [StatsMask { max_elev: true, ..none }, StatsMask { min_elev: true, ..none }] {
        assert!(!mask.has_seg(0));
        assert!(mask.has_seg(1));
    }
}

#[test]
fn the_full_mask_asks_for_everything() {
    assert_eq!(
        StatsMask::all(),
        StatsMask {
            total_dist: true,
            total_time: true,
            avg_speed: true,
            median_speed: true,
            max_elev: true,
            min_elev: true,
        }
    );
}

#[test]
fn reading_when_to_print_names() {
    assert_eq!(Pretty::from_str("always"), Ok(Pretty::Always));
    assert_eq!(Pretty::from_str("auto"), Ok(Pretty::Auto));
    assert_eq!(Pretty::from_str("never"), Ok(Pretty::Never));
    assert_eq!(Pretty::from_str(""), Err(ParseError::UnknownWord));
    assert_eq!(Pretty::from_str("Always"), Err(ParseError::UnknownWord));
    assert_eq!(Pretty::from_str("never "), Err(ParseError::UnknownWord));
}

#[test]
fn reading_units_of_distance() {
    assert_eq!(dist::Units::from_str("m"), Ok(dist::Units::Metres));
    assert_eq!(dist::Units::from_str("ft"), Ok(dist::Units::Feet));
    assert_eq!(dist::Units::from_str("km"), Err(ParseError::UnknownWord));
    assert_eq!(dist::Units::from_str(""), Err(ParseError::UnknownWord));
    assert_eq!(dist::Units::default(), dist::Units::Metres);
}

#[test]
fn reading_units_of_speed() {
    assert_eq!(speed::Units::from_str("km/h"), Ok(speed::Units::KmPerH));
    assert_eq!(speed::Units::from_str("mi/h"), Ok(speed::Units::MiPerH));
    assert_eq!(speed::Units::from_str("m/s"), Ok(speed::Units::MPerS));
    assert_eq!(speed::Units::from_str("ft/s"), Ok(speed::Units::FtPerS));
    assert_eq!(speed::Units::from_str("min/mi"), Ok(speed::Units::MinPerMi));
    assert_eq!(speed::Units::from_str("min/km"), Ok(speed::Units::MinPerKm));
    assert_eq!(speed::Units::from_str("kmh"), Err(ParseError::UnknownWord));
    assert_eq!(speed::Units::from_str("m"), Err(ParseError::UnknownWord));
}

#[test]
fn the_name_of_a_unit_reads_back() {
    for units in [dist::Units::Metres, dist::Units::Feet] {
        assert_eq!(dist::Units::from_str(units.symbol()), Ok(units));
    }
    assert_eq!(dist::Units::Metres.symbol(), "m");
    assert_eq!(dist::Units::Feet.symbol(), "ft");
    for units in [
        speed::Units::KmPerH,
        speed::Units::MiPerH,
        speed::Units::MPerS,
        speed::Units::FtPerS,
        speed::Units::MinPerMi,
        speed::Units::MinPerKm,
    ] {
        assert_eq!(speed::Units::from_str(units.symbol()), Ok(units));
    }
    assert_eq!(speed::Units::MinPerKm.symbol(), "min/km");
}

#[test]
fn reading_a_list_of_statistics() {
    let none = StatsMask::default();
    assert_eq!(StatsMask::from_str("total-dist"), Ok(StatsMask { total_dist: true, ..none }));
    assert_eq!(StatsMask::from_str("total-time"), Ok(StatsMask { total_time: true, ..none }));
    assert_eq!(StatsMask::from_str("avg-speed"), Ok(StatsMask { avg_speed: true, ..none }));
    assert_eq!(StatsMask::from_str("median-speed"), Ok(StatsMask { median_speed: true, ..none }));
    assert_eq!(StatsMask::from_str("max-elev"), Ok(StatsMask { max_elev: true, ..none }));
    assert_eq!(StatsMask::from_str("min-elev"), Ok(StatsMask { min_elev: true, ..none }));
    assert_eq!(
        StatsMask::from_str("min-elev,total-dist,min-elev"),
        Ok(StatsMask { total_dist: true, min_elev: true, ..none })
    );
    assert_eq!(
        StatsMask::from_str("total-dist,total-time,avg-speed,median-speed,max-elev,min-elev"),
        Ok(StatsMask::all())
    );
}

#[test]
fn a_list_with_an_empty_item_is_refused() {
    assert_eq!(StatsMask::from_str(""), Err(ParseError::EmptyValue));
    assert_eq!(StatsMask::from_str(","), Err(ParseError::EmptyValue));
    assert_eq!(StatsMask::from_str("total-dist,"), Err(ParseError::EmptyValue));
    assert_eq!(StatsMask::from_str(",total-dist"), Err(ParseError::EmptyValue));
    assert_eq!(StatsMask::from_str("total-dist,,max-elev"), Err(ParseError::EmptyValue));
}

#[test]
fn a_list_with_an_unknown_item_is_refused_by_its_text() {
    assert_eq!(
        StatsMask::from_str("speed"),
        Err(ParseError::UnexpectedValue("speed".to_string()))
    );
    assert_eq!(
        StatsMask::from_str("total-dist, max-elev"),
        Err(ParseError::UnexpectedValue(" max-elev".to_string()))
    );
    assert_eq!(
        StatsMask::from_str("max-elev,höhe,min-elev"),
        Err(ParseError::UnexpectedValue("höhe".to_string()))
    );
}

#[test]
fn the_first_fault_of_a_list_is_reported() {
    assert_eq!(
        StatsMask::from_str("max-elev,first,,second"),
        Err(ParseError::UnexpectedValue("first".to_string()))
    );
    assert_eq!(StatsMask::from_str("max-elev,,first"), Err(ParseError::EmptyValue));
}

#[test]
fn defaults_without_choices() {
    for tty in [false, true] {
        let args = Args::resolve(raw(), tty);
        assert_eq!(args.path, PathBuf::from("walk.gpx"));
        assert_eq!(args.track, None);
        assert_eq!(args.pretty, tty);
        assert_eq!(args.dist_units, dist::Units::Metres);
        assert_eq!(args.speed_units, speed::Units::KmPerH);
        assert_eq!(args.mask, StatsMask::all());
    }
}

#[test]
fn choices_are_kept() {
    let mask = StatsMask { max_elev: true, ..StatsMask::default() };
    let given = Raw {
        path: PathBuf::from("ride.gpx"),
        track: Some(2),
        pretty: Some(Pretty::Never),
        dist_units: Some(dist::Units::Metres),
        speed_units: Some(speed::Units::MinPerKm),
        output: Some(mask),
    };
    let args = Args::resolve(given, true);
    assert_eq!(args.path, PathBuf::from("ride.gpx"));
    assert_eq!(args.track, Some(2));
    assert!(!args.pretty);
    assert_eq!(args.dist_units, dist::Units::Metres);
    assert_eq!(args.speed_units, speed::Units::MinPerKm);
    assert_eq!(args.mask, mask);
}

#[test]
fn speed_units_follow_distance_units() {
    let feet = Raw { dist_units: Some(dist::Units::Feet), ..raw() };
    assert_eq!(Args::resolve(feet, false).speed_units, speed::Units::MiPerH);
    let metres = Raw { dist_units: Some(dist::Units::Metres), ..raw() };
    assert_eq!(Args::resolve(metres, false).speed_units, speed::Units::KmPerH);
    let both = Raw {
        dist_units: Some(dist::Units::Feet),
        speed_units: Some(speed::Units::MPerS),
        ..raw()
    };
    assert_eq!(Args::resolve(both, false).speed_units, speed::Units::MPerS);
}

#[test]
fn printing_names_is_decided_by_the_choice_before_the_terminal() {
    for tty in [false, true] {
        let always = Raw { pretty: Some(Pretty::Always), ..raw() };
        assert!(Args::resolve(always, tty).pretty);
        let never = Raw { pretty: Some(Pretty::Never), ..raw() };
        assert!(!Args::resolve(never, tty).pretty);
        let auto = Raw { pretty: Some(Pretty::Auto), ..raw() };
        assert_eq!(Args::resolve(auto, tty).pretty, tty);
    }
}

#[test]
fn filling_in_defaults_asks_the_terminal_only_when_needed() {
    let always = Raw { pretty: Some(Pretty::Always), ..raw() };
    assert!(Args::from(always).pretty);
    let never = Raw { pretty: Some(Pretty::Never), ..raw() };
    assert!(!Args::from(never).pretty);
    let open = Args::from(Raw { dist_units: Some(dist::Units::Feet), ..raw() });
    assert_eq!(open.dist_units, dist::Units::Feet);
    assert_eq!(open.speed_units, speed::Units::MiPerH);
    assert_eq!(open.mask, StatsMask::all());
}
