use timebomb::annotation::{Fuse, Status};
use timebomb::date::Date;

fn date(s: &str) -> Date {
    Date::parse(s).unwrap()
}

fn make_fuse(expiry: &str, status: Status) -> Fuse {
    Fuse {
        file: "src/foo.rs".to_string(),
        line: 10,
        tag: "TODO".to_string(),
        date: date(expiry),
        owner: None,
        message: "some message".to_string(),
        status,
        blamed_owner: None,
    }
}

#[test]
fn test_status_detonated() {
    let today = date("2025-06-01");
    let status = Fuse::compute_status(&date("2025-01-01"), &today, 14);
    assert_eq!(status, Status::Detonated);
}

#[test]
fn test_status_ticking_boundary() {
    let today = date("2025-06-01");
    let status = Fuse::compute_status(&date("2025-06-15"), &today, 14);
    assert_eq!(status, Status::Ticking);
}

#[test]
fn test_status_ticking_within_window() {
    let today = date("2025-06-01");
    let status = Fuse::compute_status(&date("2025-06-10"), &today, 14);
    assert_eq!(status, Status::Ticking);
}

#[test]
fn test_status_inert() {
    let today = date("2025-06-01");
    let status = Fuse::compute_status(&date("2025-12-31"), &today, 14);
    assert_eq!(status, Status::Inert);
}

#[test]
fn test_status_expire_today_is_ticking() {
    let today = date("2025-06-01");
    let status = Fuse::compute_status(&date("2025-06-01"), &today, 0);
    assert_eq!(status, Status::Ticking);
}

#[test]
fn status_one_day_past_window_is_inert() {
    let today = date("2025-06-01");
    assert_eq!(Fuse::compute_status(&date("2025-06-16"), &today, 14), Status::Inert);
    assert_eq!(Fuse::compute_status(&date("2025-05-31"), &today, 14), Status::Detonated);
}

#[test]
fn test_days_from_today_positive() {
    let today = date("2025-06-01");
    let fuse = make_fuse("2025-06-11", Status::Inert);
    assert_eq!(fuse.days_from_today(&today), 10);
}

#[test]
fn test_days_from_today_negative() {
    let today = date("2025-06-01");
    let fuse = make_fuse("2025-05-20", Status::Detonated);
    assert_eq!(fuse.days_from_today(&today), -12);
}

#[test]
fn test_location() {
    let fuse = make_fuse("2099-01-01", Status::Inert);
    assert_eq!(fuse.location(), "src/foo.rs:10");
}

#[test]
fn test_date_str() {
    let fuse = make_fuse("2099-03-15", Status::Inert);
    assert_eq!(fuse.date_str(), "2099-03-15");
}

#[test]
fn test_is_detonated() {
    let fuse = make_fuse("2020-01-01", Status::Detonated);
    assert!(fuse.is_detonated());
    assert!(!fuse.is_ticking());
}

#[test]
fn test_is_ticking() {
    let fuse = make_fuse("2025-06-10", Status::Ticking);
    assert!(fuse.is_ticking());
    assert!(!fuse.is_detonated());
}

#[test]
fn test_status_display() {
    assert_eq!(Status::Detonated.as_str(), "detonated");
    assert_eq!(Status::Ticking.as_str(), "ticking");
    assert_eq!(Status::Inert.as_str(), "inert");
}

#[test]
fn test_compute_status_zero_fuse_window() {
    let today = date("2025-06-01");
    let status = Fuse::compute_status(&date("2025-06-02"), &today, 0);
    assert_eq!(status, Status::Inert);
}

#[test]
fn duplicate_copies_every_field() {
    let mut f = make_fuse("2030-01-01", Status::Inert);
    f.owner = Some("alice".to_string());
    f.blamed_owner = Some("bob".to_string());
    let g = f.duplicate();
    assert_eq!(g.file, f.file);
    assert_eq!(g.line, f.line);
    assert_eq!(g.tag, f.tag);
    assert_eq!(g.date, f.date);
    assert_eq!(g.owner, f.owner);
    assert_eq!(g.message, f.message);
    assert_eq!(g.status, f.status);
    assert_eq!(g.blamed_owner, f.blamed_owner);
}

#[test]
fn date_parse_rejects_impossible_dates() {
    assert!(Date::parse("2025-02-30").is_none());
    assert!(Date::parse("2025-13-01").is_none());
    assert!(Date::parse("not a date").is_none());
    assert_eq!(Date::parse("2024-02-29").unwrap().format(), "2024-02-29");
}

#[test]
fn date_arithmetic_and_month() {
    let d = date("2025-12-31");
    assert_eq!(d.add_days(1).unwrap().format(), "2026-01-01");
    assert_eq!(d.format_month(), "2025-12");
    assert_eq!(date("1970-01-02").epoch_days(), 1);
    assert_eq!(date("2025-06-11").days_since(&date("2025-06-01")), 10);
    assert!(date("2025-06-01").before(&date("2025-06-02")));
    assert!(date("2025-06-01").same_as(&date("2025-06-01")));
}
