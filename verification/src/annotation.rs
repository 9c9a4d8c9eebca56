//! Fuses and their status relative to a given day.

use crate::date::{formatted_ymd, Date};
use crate::text::{append, decimal, push_char, push_decimal, to_owned};
use vstd::prelude::*;

verus! {

/// The status of a fuse relative to a given "today".
#[derive(Clone, Copy, Debug, PartialEq, Eq, Structural)]
pub enum Status {
    /// The deadline has already passed.
    Detonated,
    /// The deadline is today or within the configured warning window.
    Ticking,
    /// The deadline is comfortably in the future.
    Inert,
}

pub open spec fn status_name(s: Status) -> Seq<char> {
    match s {
        Status::Detonated => "detonated"@,
        Status::Ticking => "ticking"@,
        Status::Inert => "inert"@,
    }
}

/// The status of a fuse dated `date` seen from `today` with a warning window
/// of `fuse_days` days.
pub open spec fn status_for(date: int, today: int, fuse_days: int) -> Status {
    if date < today {
        Status::Detonated
    } else if date - today <= fuse_days {
        Status::Ticking
    } else {
        Status::Inert
    }
}

/// A fuse is detonated once its date has passed, ticking from `fuse_days`
/// days before its date through the date itself, and inert before that;
/// moving a date later never makes a fuse more urgent.
pub proof fn law_status_window(date: int, later: int, today: int, fuse_days: int)
    requires
        fuse_days >= 0,
    ensures
        status_for(date, today, fuse_days) == Status::Detonated <==> date < today,
        status_for(date, today, fuse_days) == Status::Ticking <==> today <= date <= today + fuse_days,
        status_for(date, today, fuse_days) == Status::Inert <==> today + fuse_days < date,
        date <= later && status_for(later, today, fuse_days) == Status::Detonated ==> status_for(date, today, fuse_days)
            == Status::Detonated,
        date <= later && status_for(date, today, fuse_days) == Status::Inert ==> status_for(later, today, fuse_days)
            == Status::Inert,
{
}

impl Status {
    /// The lower-case name of the status.
    pub fn as_str(&self) -> (r: &'static str)
        ensures
            r@ == status_name(*self),
    {
        match self {
            Status::Detonated => "detonated",
            Status::Ticking => "ticking",
            Status::Inert => "inert",
        }
    }
}

/// A single fuse found in a source file.
#[derive(Debug)]
pub struct Fuse {
    /// Path of the file holding the fuse, relative to the scan root.
    pub file: String,
    /// 1-based line number within the file.
    pub line: usize,
    /// The tag keyword in upper case, e.g. `TODO`.
    pub tag: String,
    /// The expiry date.
    pub date: Date,
    /// Owner from the second bracket group, e.g. `[alice]`.
    pub owner: Option<String>,
    /// The message after the colon.
    pub message: String,
    /// Status relative to the "today" used while scanning.
    pub status: Status,
    /// Owner inferred from git blame when no explicit owner is present.
    pub blamed_owner: Option<String>,
}

/// The text of an optional string.
pub open spec fn opt_text(o: Option<String>) -> Option<Seq<char>> {
    match o {
        Some(s) => Some(s@),
        None => None,
    }
}

pub fn copy_opt_string(o: &Option<String>) -> (r: Option<String>)
    ensures
        r == *o,
{
    match o {
        Some(s) => Some(s.clone()),
        None => None,
    }
}

/// `file:line`.
pub open spec fn location_text(file: Seq<char>, line: nat) -> Seq<char> {
    file + seq![':'] + decimal(line)
}

impl Fuse {
    /// An identical copy of this fuse.
    pub fn duplicate(&self) -> (r: Fuse)
        ensures
            r == *self,
    {
        Fuse {
            file: self.file.clone(),
            line: self.line,
            tag: self.tag.clone(),
            date: self.date,
            owner: copy_opt_string(&self.owner),
            message: self.message.clone(),
            status: self.status,
            blamed_owner: copy_opt_string(&self.blamed_owner),
        }
    }

    /// Days until (positive) or since (negative) the expiry date.
    pub fn days_from_today(&self, today: &Date) -> (r: i64)
        ensures
            r == self.date@ - today@,
    {
        self.date.days_since(today)
    }

    pub fn is_detonated(&self) -> (r: bool)
        ensures
            r == (self.status == Status::Detonated),
    {
        self.status == Status::Detonated
    }

    pub fn is_ticking(&self) -> (r: bool)
        ensures
            r == (self.status == Status::Ticking),
    {
        self.status == Status::Ticking
    }

    /// The status of a fuse dated `date` seen from `today`: detonated before
    /// today, ticking from today to `fuse_days` days ahead, inert beyond.
    pub fn compute_status(date: &Date, today: &Date, fuse_days: u32) -> (r: Status)
        ensures
            r == status_for(date@, today@, fuse_days as int),
    {
        if date.before(today) {
            Status::Detonated
        } else {
            let days_remaining = date.days_since(today);
            if days_remaining <= fuse_days as i64 {
                Status::Ticking
            } else {
                Status::Inert
            }
        }
    }

    /// `file:line`, e.g. `src/main.rs:42`.
    pub fn location(&self) -> (r: String)
        ensures
            r@ == location_text(self.file@, self.line as nat),
    {
        let mut r = to_owned(self.file.as_str());
        push_char(&mut r, ':');
        push_decimal(&mut r, self.line as u128);
        r
    }

    /// The expiry date as `YYYY-MM-DD`.
    pub fn date_str(&self) -> (r: String)
        ensures
            r@ == formatted_ymd(self.date@ as i32),
    {
        self.date.format()
    }
}

} // verus!
