//! What the user asked for: which statistics, in which units, how printed.

use crate::dist;
use crate::error::ParseError;
use crate::speed;
use crate::text::{split_commas, str_equals};
use std::path::PathBuf;
use vstd::prelude::*;

verus! {

/// `std::path::PathBuf`: a path in the file system. Nothing is known of
/// what it holds; it is carried through as it was given.
#[verifier::external_type_specification]
#[verifier::external_body]
pub struct ExPathBuf(PathBuf);

/// When to print the names and units of the statistics.
#[derive(Debug, Clone, Copy, PartialEq, Eq, Structural)]
pub enum Pretty {
    Always,
    Auto,
    Never,
}

impl Pretty {
    /// What a word says about printing names and units, if anything.
    pub open spec fn parsed(word: Seq<char>) -> Option<Self> {
        if word == "always"@ {
            Some(Pretty::Always)
        } else if word == "auto"@ {
            Some(Pretty::Auto)
        } else if word == "never"@ {
            Some(Pretty::Never)
        } else {
            None
        }
    }

    /// Reads one of `always`, `auto` and `never`.
    pub fn from_str(s: &str) -> (r: Result<Self, ParseError>)
        ensures
            r == match Self::parsed(s@) {
                Some(pretty) => Ok::<Self, ParseError>(pretty),
                None => Err::<Self, ParseError>(ParseError::UnknownWord),
            },
    {
        if str_equals(s, "always") {
            Ok(Pretty::Always)
        } else if str_equals(s, "auto") {
            Ok(Pretty::Auto)
        } else if str_equals(s, "never") {
            Ok(Pretty::Never)
        } else {
            Err(ParseError::UnknownWord)
        }
    }
}

/// Which statistics to compute and show.
#[derive(Clone, Copy, PartialEq, Eq, Default, Debug, Structural)]
pub struct StatsMask {
    pub total_dist: bool,
    pub total_time: bool,
    pub avg_speed: bool,
    pub median_speed: bool,
    pub max_elev: bool,
    pub min_elev: bool,
}

impl StatsMask {
    /// The mask that asks for every statistic.
    pub open spec fn every() -> Self {
        StatsMask {
            total_dist: true,
            total_time: true,
            avg_speed: true,
            median_speed: true,
            max_elev: true,
            min_elev: true,
        }
    }

    /// The mask that asks for every statistic.
    pub fn all() -> (mask: Self)
        ensures
            mask == Self::every(),
    {
        StatsMask {
            total_dist: true,
            total_time: true,
            avg_speed: true,
            median_speed: true,
            max_elev: true,
            min_elev: true,
        }
    }

    /// The mask that asks for nothing.
    pub open spec fn nothing() -> Self {
        StatsMask {
            total_dist: false,
            total_time: false,
            avg_speed: false,
            median_speed: false,
            max_elev: false,
            min_elev: false,
        }
    }

    /// Whether `word` names a statistic.
    pub open spec fn names_statistic(word: Seq<char>) -> bool {
        ||| word == "total-dist"@
        ||| word == "total-time"@
        ||| word == "avg-speed"@
        ||| word == "median-speed"@
        ||| word == "max-elev"@
        ||| word == "min-elev"@
    }

    /// This mask with the statistic that `word` names asked for as well.
    pub open spec fn with_word(self, word: Seq<char>) -> Self {
        if word == "total-dist"@ {
            StatsMask { total_dist: true, ..self }
        } else if word == "total-time"@ {
            StatsMask { total_time: true, ..self }
        } else if word == "avg-speed"@ {
            StatsMask { avg_speed: true, ..self }
        } else if word == "median-speed"@ {
            StatsMask { median_speed: true, ..self }
        } else if word == "max-elev"@ {
            StatsMask { max_elev: true, ..self }
        } else if word == "min-elev"@ {
            StatsMask { min_elev: true, ..self }
        } else {
            self
        }
    }

    /// The mask that asks for the statistics that `words` name.
    pub open spec fn of_words(words: Seq<Seq<char>>) -> Self
        decreases words.len(),
    {
        if words.len() == 0 {
            Self::nothing()
        } else {
            Self::of_words(words.drop_last()).with_word(words.last())
        }
    }

    /// The place of the first of `words` that names no statistic.
    pub open spec fn first_unknown(words: Seq<Seq<char>>) -> Option<int>
        decreases words.len(),
    {
        if words.len() == 0 {
            None
        } else {
            match Self::first_unknown(words.drop_last()) {
                Some(k) => Some(k),
                None => if Self::names_statistic(words.last()) {
                    None
                } else {
                    Some(words.len() - 1)
                },
            }
        }
    }

    /// The first unknown word is a word of the list that names nothing, and
    /// every word before it names a statistic.
    pub proof fn lemma_first_unknown(words: Seq<Seq<char>>)
        ensures
            match Self::first_unknown(words) {
                Some(k) => 0 <= k < words.len() && !Self::names_statistic(words[k]) && forall|j: int|
                    0 <= j < k ==> Self::names_statistic(#[trigger] words[j]),
                None => forall|j: int|
                    0 <= j < words.len() ==> Self::names_statistic(#[trigger] words[j]),
            },
        decreases words.len(),
    {
        if words.len() > 0 {
            let before = words.drop_last();
            Self::lemma_first_unknown(before);
            assert forall|j: int| 0 <= j < before.len() implies before[j] == words[j] by {}
        }
    }

    /// Whether `r` is what reading the list `words` comes to: the mask of
    /// all its words, or the first word that names nothing.
    pub open spec fn reads_as(words: Seq<Seq<char>>, r: Result<Self, ParseError>) -> bool {
        match Self::first_unknown(words) {
            None => r == Ok::<Self, ParseError>(Self::of_words(words)),
            Some(k) => if words[k].len() == 0 {
                r == Err::<Self, ParseError>(ParseError::EmptyValue)
            } else {
                r matches Err(ParseError::UnexpectedValue(word)) && word@ == words[k]
            },
        }
    }

    /// Takes one word of a list into account: the mask read so far gains
    /// the statistic it names, or the word is kept as the first fault.
    fn absorb(
        self,
        fault: Option<ParseError>,
        word: &str,
        Ghost(before): Ghost<Seq<Seq<char>>>,
    ) -> (r: (Self, Option<ParseError>))
        requires
            Self::reads_as(
                before,
                match fault {
                    Some(e) => Err(e),
                    None => Ok(self),
                },
            ),
        ensures
            Self::reads_as(
                before.push(word@),
                match r.1 {
                    Some(e) => Err(e),
                    None => Ok(r.0),
                },
            ),
    {
        proof {
            assert(before.push(word@).drop_last() =~= before);
            Self::lemma_first_unknown(before);
        }
        if fault.is_some() {
            return (self, fault);
        }
        let mut mask = self;
        if str_equals(word, "total-dist") {
            mask.total_dist = true;
        } else if str_equals(word, "total-time") {
            mask.total_time = true;
        } else if str_equals(word, "avg-speed") {
            mask.avg_speed = true;
        } else if str_equals(word, "median-speed") {
            mask.median_speed = true;
        } else if str_equals(word, "max-elev") {
            mask.max_elev = true;
        } else if str_equals(word, "min-elev") {
            mask.min_elev = true;
        } else if word.unicode_len() == 0 {
            return (self, Some(ParseError::EmptyValue));
        } else {
            return (self, Some(ParseError::UnexpectedValue(word.to_owned())));
        }
        (mask, None)
    }

    /// Reads a comma-separated list of statistics: `total-dist`,
    /// `total-time`, `avg-speed`, `median-speed`, `max-elev`, `min-elev`, in
    /// any order and any number of times. The first item that is none of
    /// these is the fault: an empty one as such, another by its text.
    pub fn from_str(s: &str) -> (r: Result<Self, ParseError>)
        ensures
            Self::reads_as(split_commas(s@), r),
    {
        let n = s.unicode_len();
        let mut mask = StatsMask {
            total_dist: false,
            total_time: false,
            avg_speed: false,
            median_speed: false,
            max_elev: false,
            min_elev: false,
        };
        let mut fault: Option<ParseError> = None;
        let mut start: usize = 0;
        let mut i: usize = 0;
        proof {
            assert(s@.take(0).len() == 0);
            assert(split_commas(s@.take(0)).drop_last() =~= Seq::<Seq<char>>::empty());
            assert(split_commas(s@.take(0)).last() =~= s@.subrange(0, 0));
        }
        while i < n
            invariant
                n == s@.len(),
                start <= i <= n,
                split_commas(s@.take(i as int)).len() > 0,
                split_commas(s@.take(i as int)).last() == s@.subrange(start as int, i as int),
                Self::reads_as(
                    split_commas(s@.take(i as int)).drop_last(),
                    match fault {
                        Some(e) => Err(e),
                        None => Ok(mask),
                    },
                ),
            decreases n - i,
        {
            let ghost seen = split_commas(s@.take(i as int));
            proof {
                assert(s@.take(i + 1).drop_last() =~= s@.take(i as int));
                assert(s@.take(i + 1).last() == s@[i as int]);
            }
            if s.get_char(i) == ',' {
                let word = s.substring_char(start, i);
                let next = mask.absorb(fault, word, Ghost(seen.drop_last()));
                mask = next.0;
                fault = next.1;
                start = i + 1;
                proof {
                    assert(seen.drop_last().push(word@) =~= seen);
                    assert(seen.push(Seq::<char>::empty()).drop_last() =~= seen);
                    assert(s@.subrange(i + 1, i + 1) =~= Seq::<char>::empty());
                }
            } else {
                proof {
                    let grown = seen.drop_last().push(seen.last().push(s@[i as int]));
                    assert(grown.drop_last() =~= seen.drop_last());
                    assert(seen.last().push(s@[i as int]) =~= s@.subrange(start as int, i + 1));
                }
            }
            i += 1;
        }
        let ghost words = split_commas(s@);
        assert(s@.take(n as int) =~= s@);
        let word = s.substring_char(start, n);
        let last = mask.absorb(fault, word, Ghost(words.drop_last()));
        assert(words.drop_last().push(word@) =~= words);
        match last.1 {
            Some(e) => Err(e),
            None => Ok(last.0),
        }
    }

    /// Whether any statistic of group `i` is asked for. Group 0 holds the
    /// distance, time and speed statistics, group 1 the elevations; there
    /// is no other group.
    pub open spec fn in_seg(self, i: int) -> bool {
        if i == 0 {
            self.total_dist || self.total_time || self.avg_speed || self.median_speed
        } else if i == 1 {
            self.max_elev || self.min_elev
        } else {
            false
        }
    }

    /// Whether any statistic of group `i` is asked for.
    pub fn has_seg(&self, i: usize) -> (r: bool)
        ensures
            r == self.in_seg(i as int),
    {
        if i == 0 {
            self.total_dist || self.total_time || self.avg_speed || self.median_speed
        } else if i == 1 {
            self.max_elev || self.min_elev
        } else {
            false
        }
    }
}

/// The command line as it was given.
pub struct Raw {
    /// The file to analyse.
    pub path: PathBuf,
    /// Which track of the file to analyse, counted from zero.
    pub track: Option<usize>,
    /// When to print names and units.
    pub pretty: Option<Pretty>,
    /// The units of distance.
    pub dist_units: Option<dist::Units>,
    /// The units of speed.
    pub speed_units: Option<speed::Units>,
    /// Which statistics to show.
    pub output: Option<StatsMask>,
}

/// The command line with every default filled in.
pub struct Args {
    pub path: PathBuf,
    pub track: Option<usize>,
    pub pretty: bool,
    pub dist_units: dist::Units,
    pub speed_units: speed::Units,
    pub mask: StatsMask,
}

/// Whether standard output is a terminal, as `atty::is` answers for
/// `atty::Stream::Stdout`. The answer depends on where the program runs, so
/// nothing is said of it.
#[verifier::external_body]
fn stdout_is_terminal() -> (tty: bool) {
    atty::is(atty::Stream::Stdout)
}

impl Args {
    /// The command line `raw` with its defaults filled in, where `tty` says
    /// whether the output goes to a terminal. Names and units are printed
    /// when asked for, never when refused, and otherwise on a terminal only.
    /// Distances default to metres; speeds default to kilometres per hour
    /// with metres and to miles per hour with feet. Every statistic is shown
    /// unless a choice was made.
    pub open spec fn resolved(raw: Raw, tty: bool) -> Args {
        let dist_units = match raw.dist_units {
            Some(units) => units,
            None => dist::Units::Metres,
        };
        Args {
            path: raw.path,
            track: raw.track,
            pretty: match raw.pretty {
                Some(Pretty::Always) => true,
                Some(Pretty::Never) => false,
                _ => tty,
            },
            dist_units,
            speed_units: match raw.speed_units {
                Some(units) => units,
                None => match dist_units {
                    dist::Units::Metres => speed::Units::KmPerH,
                    dist::Units::Feet => speed::Units::MiPerH,
                },
            },
            mask: match raw.output {
                Some(mask) => mask,
                None => StatsMask::every(),
            },
        }
    }

    /// Whether the terminal decides if names and units are printed.
    pub open spec fn asks_terminal(raw: Raw) -> bool {
        raw.pretty is None || raw.pretty == Some(Pretty::Auto)
    }

    /// Fills in the defaults of `raw_args`, given whether the output goes
    /// to a terminal.
    pub fn resolve(raw_args: Raw, tty: bool) -> (args: Self)
        ensures
            args == Self::resolved(raw_args, tty),
    {
        let pretty = match raw_args.pretty {
            Some(Pretty::Always) => true,
            Some(Pretty::Never) => false,
            _ => tty,
        };
        let dist_units = match raw_args.dist_units {
            Some(units) => units,
            None => dist::Units::Metres,
        };
        let speed_units = match raw_args.speed_units {
            Some(units) => units,
            None => match dist_units {
                dist::Units::Metres => speed::Units::KmPerH,
                dist::Units::Feet => speed::Units::MiPerH,
            },
        };
        let mask = match raw_args.output {
            Some(mask) => mask,
            None => StatsMask::all(),
        };
        Args { path: raw_args.path, track: raw_args.track, pretty, dist_units, speed_units, mask }
    }

    /// Fills in the defaults of `raw_args`. Where the choice of printing
    /// names and units is left open, it is made by whether standard output
    /// is a terminal; otherwise the terminal is not asked.
    pub fn from(raw_args: Raw) -> (args: Self)
        ensures
            args == Self::resolved(raw_args, true) || args == Self::resolved(raw_args, false),
            !Self::asks_terminal(raw_args) ==> args == Self::resolved(raw_args, true),
    {
        let tty = match raw_args.pretty {
            Some(Pretty::Always) => true,
            Some(Pretty::Never) => false,
            _ => stdout_is_terminal(),
        };
        Self::resolve(raw_args, tty)
    }
}

} // verus!
