use timebomb::config::Config;
use timebomb::date::Date;
use timebomb::scanner::scan_content;
use timebomb::snooze::{append_reason, parse_target, resolve_new_date, snooze_content, snooze_line};

fn date(s: &str) -> Date {
    Date::parse(s).unwrap()
}

fn today() -> Date {
    date("2025-06-01")
}

/// Delays the fuse at `file:line` of `content` the way `delay` does.
fn delay(
    content: &str,
    target: &str,
    date_str: Option<&str>,
    in_days: Option<u32>,
    reason: Option<&str>,
) -> Result<String, timebomb::error::Error> {
    let (file, line) = parse_target(target)?;
    let new_date = resolve_new_date(date_str, in_days, &today())?;
    Ok(snooze_content(content, &file, line, &new_date, reason)?.content)
}

#[test]
fn snooze_test_parse_target_valid() {
    let (path, line) = parse_target("src/foo.rs:10").unwrap();
    assert_eq!(path, "src/foo.rs");
    assert_eq!(line, 10);
}

#[test]
fn test_parse_target_nested_path() {
    let (path, line) = parse_target("a/b/c.rs:1").unwrap();
    assert_eq!(path, "a/b/c.rs");
    assert_eq!(line, 1);
}

#[test]
fn test_parse_target_no_colon() {
    let result = parse_target("src/foo.rs");
    assert!(result.is_err());
    let msg = result.unwrap_err().message();
    assert!(msg.contains("file:LINE") || msg.contains("form"));
}

#[test]
fn test_parse_target_line_zero() {
    let result = parse_target("src/foo.rs:0");
    assert!(result.is_err());
    let msg = result.unwrap_err().message();
    assert!(msg.contains(">= 1") || msg.contains("must be"));
}

#[test]
fn test_parse_target_non_numeric() {
    let result = parse_target("src/foo.rs:abc");
    assert!(result.is_err());
    let msg = result.unwrap_err().message();
    assert!(msg.contains("valid line number") || msg.contains("abc"));
}

#[test]
fn test_resolve_new_date_from_str() {
    assert_eq!(resolve_new_date(Some("2026-06-01"), None, &today()).unwrap(), date("2026-06-01"));
}

#[test]
fn test_resolve_new_date_from_in_days() {
    assert_eq!(resolve_new_date(None, Some(30), &today()).unwrap(), date("2025-07-01"));
}

#[test]
fn test_resolve_new_date_neither() {
    let result = resolve_new_date(None, None, &today());
    assert!(result.is_err());
    let msg = result.unwrap_err().message();
    assert!(msg.contains("--date") || msg.contains("--in-days") || msg.contains("required"));
}

#[test]
fn test_resolve_new_date_prefers_date_str() {
    assert_eq!(resolve_new_date(Some("2026-06-01"), Some(30), &today()).unwrap(), date("2026-06-01"));
}

#[test]
fn test_resolve_new_date_invalid_date_str() {
    assert!(resolve_new_date(Some("not-a-date"), None, &today()).is_err());
}

#[test]
fn test_snooze_line_basic() {
    let result = snooze_line("    // TODO[2025-01-15]: remove legacy oauth flow", &date("2026-03-01")).unwrap();
    assert_eq!(result, "    // TODO[2026-03-01]: remove legacy oauth flow");
}

#[test]
fn test_snooze_line_no_bracket() {
    assert!(snooze_line("    // TODO: plain comment with no date", &date("2026-01-01")).is_none());
}

#[test]
fn test_snooze_line_only_replaces_first_bracket() {
    let result = snooze_line("    // TODO[2025-01-15][alice]: remove legacy oauth flow", &date("2026-03-01")).unwrap();
    assert_eq!(result, "    // TODO[2026-03-01][alice]: remove legacy oauth flow");
    assert!(result.contains("[alice]"));
    assert!(!result.contains("2025-01-15"));
}

#[test]
fn test_snooze_line_preserves_rest_of_line() {
    let result = snooze_line("    // FIXME[2025-03-10]: this is the message text, do not change", &date("2026-12-01")).unwrap();
    assert!(result.contains("this is the message text, do not change"));
    assert!(result.contains("2026-12-01"));
    assert!(!result.contains("2025-03-10"));
}

#[test]
fn test_append_reason_basic() {
    assert_eq!(append_reason("    // TODO[2026-01-01]: msg", "reason"), "    // TODO[2026-01-01]: msg [snoozed: reason]");
}

#[test]
fn test_append_reason_trims_trailing_whitespace() {
    assert_eq!(append_reason("    // TODO[2026-01-01]: msg   ", "because"), "    // TODO[2026-01-01]: msg [snoozed: because]");
}

#[test]
fn test_append_reason_trims_trailing_newline() {
    assert_eq!(append_reason("    // TODO[2026-01-01]: msg\n", "upstream"), "    // TODO[2026-01-01]: msg [snoozed: upstream]");
}

#[test]
fn test_run_snooze_rewrites_file() {
    let content = "fn foo() {}\n// TODO[2025-01-15]: remove me\nfn bar() {}\n";
    let updated = delay(content, "test.rs:2", Some("2026-06-01"), None, None).unwrap();
    assert_eq!(updated, "fn foo() {}\n// TODO[2026-06-01]: remove me\nfn bar() {}\n");
}

#[test]
fn test_run_snooze_no_annotation_on_line() {
    let result = delay("fn foo() {}\nfn bar() {}\n", "test.rs:1", Some("2026-06-01"), None, None);
    assert!(result.is_err());
    let msg = result.unwrap_err().message();
    assert!(msg.contains("no timebomb date bracket found") || msg.contains("date bracket"));
}

#[test]
fn test_run_snooze_line_out_of_range() {
    let result = delay("fn foo() {}\nfn bar() {}\n", "test.rs:99", Some("2026-06-01"), None, None);
    assert!(result.is_err());
    let msg = result.unwrap_err().message();
    assert!(msg.contains("99") && (msg.contains("does not exist") || msg.contains("out of range")));
}

#[test]
fn test_run_snooze_with_reason() {
    let content = "fn alpha() {}\n// TODO[2025-01-15]: remove legacy oauth flow\nfn beta() {}\n";
    let updated = delay(content, "test.rs:2", Some("2026-03-01"), None, Some("blocked on upstream release")).unwrap();
    assert!(updated.contains("2026-03-01"));
    assert!(updated.contains("[snoozed: blocked on upstream release]"));
    assert!(!updated.contains("2025-01-15"));
}

#[test]
fn test_run_snooze_uses_in_days() {
    let updated = delay("// TODO[2025-01-15]: something\n", "test.rs:1", None, Some(30), None).unwrap();
    assert!(updated.contains("2025-07-01"));
}

#[test]
fn test_run_snooze_line_1_of_1() {
    let updated = delay("// TODO[2024-12-31]: single line\n", "single.rs:1", Some("2026-01-01"), None, None).unwrap();
    assert!(updated.contains("2026-01-01"));
    assert!(!updated.contains("2024-12-31"));
    assert_eq!(updated, "// TODO[2026-01-01]: single line\n");
}

#[test]
fn snooze_content_reports_old_and_new_line() {
    let edit = snooze_content("a\n// TODO[2025-01-15]: x\n", "f.rs", 2, &date("2027-01-01"), None).unwrap();
    assert_eq!(edit.old_line, "// TODO[2025-01-15]: x");
    assert_eq!(edit.new_line, "// TODO[2027-01-01]: x");
}

// -- delaying, then sweeping -------------------------------------------------

#[test]
fn delayed_fuse_is_swept_with_its_new_date() {
    let content = "fn a() {}\n// HACK[2020-01-01][bob]: shim for old clients\nfn b() {}\n";
    let new_date = date("2027-02-03");
    let out = snooze_content(content, "a.rs", 2, &new_date, None).unwrap().content;
    let fuses = scan_content(&out, "a.rs", &Config::default(), &today());
    assert_eq!(fuses.len(), 1);
    assert_eq!(fuses[0].line, 2);
    assert_eq!(fuses[0].date, new_date);
    assert_eq!(fuses[0].tag, "HACK");
    assert_eq!(fuses[0].owner.as_deref(), Some("bob"));
    assert_eq!(fuses[0].message, "shim for old clients");
}

#[test]
fn delayed_fuse_with_reason_keeps_its_message_before_the_reason() {
    let content = "# TODO[2020-01-01]: retire this   \n";
    let new_date = date("2026-12-31");
    let out = snooze_content(content, "x.py", 1, &new_date, Some("waiting on vendor")).unwrap().content;
    assert_eq!(out, "# TODO[2026-12-31]: retire this [snoozed: waiting on vendor]\n");
    let fuses = scan_content(&out, "x.py", &Config::default(), &today());
    assert_eq!(fuses.len(), 1);
    assert_eq!(fuses[0].date, new_date);
    assert_eq!(fuses[0].message, "retire this [snoozed: waiting on vendor]");
}

#[test]
fn delay_moves_the_first_date_bracket_on_the_line() {
    // An earlier bracket on the line is the one moved; the fuse keeps its date.
    let line = "see [2020-01-01] TODO[2026-01-01]: x";
    let out = snooze_line(line, &date("2030-05-05")).unwrap();
    assert_eq!(out, "see [2030-05-05] TODO[2026-01-01]: x");
}

#[test]
fn snooze_line_replaces_a_bracket_of_non_ascii_digits() {
    let line = "// TODO[\u{662}\u{660}\u{662}\u{666}-01-01]: x";
    let result = snooze_line(line, &date("2026-03-01")).unwrap();
    assert_eq!(result, "// TODO[2026-03-01]: x");
}
