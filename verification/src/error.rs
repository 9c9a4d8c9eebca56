//! The library's error type and the parsing of day-count durations.

use crate::text::{append, chars_of, decimal, push_decimal, parse_bounded, parse_bounded_range, string_of_range, to_owned, trim, trim_bounds};
use vstd::prelude::*;

verus! {

/// What a library operation reports when it refuses its input.
#[derive(Debug)]
pub enum Error {
    /// An argument was semantically invalid (a bad duration, target or date).
    InvalidArgument(String),
    /// An exclude pattern is not a valid glob; `detail` is globset's
    /// account of why.
    InvalidGlob { pattern: String, detail: String },
    /// A fuse's date is not a calendar date: its text, and the file and
    /// line where it stands.
    InvalidDate { date_str: String, file: String, line: usize },
}

pub type Result<T> = std::result::Result<T, Error>;

/// The text of `Error::InvalidGlob { pattern, detail }`.
pub open spec fn invalid_glob_text(pattern: Seq<char>, detail: Seq<char>) -> Seq<char> {
    "Invalid glob pattern '"@ + pattern + "': "@ + detail
}

/// The text of `Error::InvalidDate { date_str, file, line }`.
pub open spec fn invalid_date_text(date_str: Seq<char>, file: Seq<char>, line: nat) -> Seq<char> {
    "Invalid date '"@ + date_str + "' at "@ + file + ":"@ + decimal(line) + " (expected YYYY-MM-DD)"@
}

/// The text of `Error::InvalidArgument(m)`.
pub open spec fn invalid_argument_text(m: Seq<char>) -> Seq<char> {
    "Invalid argument: "@ + m
}

impl Error {
    /// The human-readable text of this error.
    pub fn message(&self) -> (r: String)
        ensures
            match self {
                Error::InvalidArgument(m) => r@ == invalid_argument_text(m@),
                Error::InvalidGlob { pattern, detail } => r@ == invalid_glob_text(pattern@, detail@),
                Error::InvalidDate { date_str, file, line } => r@ == invalid_date_text(
                    date_str@,
                    file@,
                    *line as nat,
                ),
            },
    {
        match self {
            Error::InvalidArgument(m) => {
                let mut r = to_owned("Invalid argument: ");
                append(&mut r, m.as_str());
                r
            },
            Error::InvalidGlob { pattern, detail } => {
                let mut r = to_owned("Invalid glob pattern '");
                append(&mut r, pattern.as_str());
                append(&mut r, "': ");
                append(&mut r, detail.as_str());
                r
            },
            Error::InvalidDate { date_str, file, line } => {
                let mut r = to_owned("Invalid date '");
                append(&mut r, date_str.as_str());
                append(&mut r, "' at ");
                append(&mut r, file.as_str());
                append(&mut r, ":");
                push_decimal(&mut r, *line as u128);
                append(&mut r, " (expected YYYY-MM-DD)");
                r
            },
        }
    }

    /// The message carried by an invalid-argument error. Any other error
    /// gives the empty text, which no refusal of this library carries, so
    /// `e.detail() == m` for a message `m` also says that `e` is an
    /// invalid-argument error.
    pub open spec fn detail(self) -> Seq<char> {
        match self {
            Error::InvalidArgument(m) => m@,
            Error::InvalidGlob { .. } => Seq::empty(),
            Error::InvalidDate { .. } => Seq::empty(),
        }
    }
}

/// The widest fuse window accepted, in days (ten years).
pub const MAX_FUSE_DAYS: u32 = 3650;

pub open spec fn not_a_duration_message(t: Seq<char>) -> Seq<char> {
    "'"@ + t + "' is not a valid duration — expected a format like '30d'"@
}

pub open spec fn too_long_message(t: Seq<char>) -> Seq<char> {
    "'"@ + t + "' exceeds the maximum allowed fuse window of 3650d (10 years)"@
}

/// What `parse_duration_days` gives for `s`: the day count, or the message
/// of the error.
pub open spec fn duration_days(s: Seq<char>) -> std::result::Result<u32, Seq<char>> {
    let t = trim(s);
    if t.len() > 0 && t.last() == 'd' {
        match parse_bounded(t.drop_last(), u32::MAX as nat) {
            Some(v) => if v <= MAX_FUSE_DAYS {
                Ok(v as u32)
            } else {
                Err(too_long_message(t))
            },
            None => Err(not_a_duration_message(t)),
        }
    } else {
        Err(not_a_duration_message(t))
    }
}

/// Parses a duration such as `"30d"` into a number of days. Surrounding
/// whitespace is ignored; only day units are accepted, at most 3650 days.
pub fn parse_duration_days(s: &str) -> (r: Result<u32>)
    ensures
        match (r, duration_days(s@)) {
            (Ok(v), Ok(w)) => v == w,
            (Err(e), Err(m)) => e.detail() == m,
            _ => false,
        },
{
    let v = chars_of(s);
    let (b, e) = trim_bounds(&v, 0, v.len());
    assert(v@.subrange(0, v@.len() as int) =~= s@);
    let ghost t = v@.subrange(b as int, e as int);
    let t_str = string_of_range(&v, b, e);
    if e > b && v[e - 1] == 'd' {
        assert(t.last() == v@[e - 1]);
        assert(t.drop_last() =~= v@.subrange(b as int, e - 1));
        match parse_bounded_range(&v, b, e - 1, u32::MAX as u64) {
            Some(days) => {
                if days > MAX_FUSE_DAYS as u64 {
                    let mut m = to_owned("'");
                    append(&mut m, t_str.as_str());
                    append(&mut m, "' exceeds the maximum allowed fuse window of 3650d (10 years)");
                    Err(Error::InvalidArgument(m))
                } else {
                    Ok(days as u32)
                }
            },
            None => {
                let mut m = to_owned("'");
                append(&mut m, t_str.as_str());
                append(&mut m, "' is not a valid duration — expected a format like '30d'");
                Err(Error::InvalidArgument(m))
            },
        }
    } else {
        let mut m = to_owned("'");
        append(&mut m, t_str.as_str());
        append(&mut m, "' is not a valid duration — expected a format like '30d'");
        Err(Error::InvalidArgument(m))
    }
}

} // verus!
