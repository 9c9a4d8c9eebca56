use timebomb::annotation::{Fuse, Status};
use timebomb::config::Config;
use timebomb::date::Date;
use timebomb::scanner::{
    file_verdict, scan_content, scan_content_report, sort_by_date, sweep_result, FileVerdict, ScanResult,
};

fn today() -> Date {
    Date::parse("2025-06-01").unwrap()
}

fn default_config() -> Config {
    Config::default()
}

fn config_with_fuse(days: u32) -> Config {
    Config { fuse_days: days, ..Config::default() }
}

/// The annotated part of the sample Rust fixture.
const SAMPLE_RS: &str = "\
fn main() {
    // ── Expired annotations (date in the past) ────────────────────────────────

    // TODO[2020-01-01]: remove legacy authentication module
    let _legacy = true;

    // FIXME[2019-06-15]: upstream bug workaround, revert after upgrade
    let _workaround = 42;

    // HACK[2018-03-10]: temporary patch for prod incident #4471
    let _patch = \"hack\";

    // TEMP[2020-12-31]: remove after Q4 migration completes
    let _temp = vec![1, 2, 3];

    // REMOVEME[2021-05-01]: feature flag for experiment A/B, experiment ended
    let _flag = false;

    // TODO[2020-01-01][alice]: remove after alice's team finishes refactor
    let _owned = \"owned\";

    // TODO[2025-06-10]: rotate API keys before deadline
    let _keys = \"rotate\";

    // FIXME[2025-06-08]: temporary disable of rate limiting, re-enable after deploy
    let _rate_limit = true;

    // TODO[2099-01-01]: revisit this algorithm when hardware improves
    let _algo = 0;

    // FIXME[2099-12-31]: long-term tech debt, tracked in issue #9999
    let _debt = \"future\";

    // HACK[2088-07-04]: can be removed once the platform team ships new API
    let _platform = ();

    // TODO[2099-01-01][bob]: bob will handle this in the next major version
    let _bobs_work = \"pending\";

    // TODO: this is a plain TODO with no date — must NOT be matched
    // FIXME: another plain one
    // NOTE[2020-01-01]: NOTE is not in the default tag list — must NOT be matched
    // TODO [2020-01-01]: space between tag and bracket — must NOT be matched
}
";

fn sample_fuses(cfg: &Config) -> Vec<Fuse> {
    scan_content(SAMPLE_RS, "tests/fixtures/sample.rs", cfg, &today())
}

fn make_fuse(file: &str, line: usize, tag: &str, date: &str, status: Status, msg: &str) -> Fuse {
    Fuse {
        file: file.to_string(),
        line,
        tag: tag.to_string(),
        date: Date::parse(date).unwrap(),
        owner: None,
        message: msg.to_string(),
        status,
        blamed_owner: None,
    }
}

#[test]
fn test_scan_finds_expired_todo() {
    let src = "// TODO[2020-01-01]: remove this old code\n";
    let anns = scan_content(src, "foo.rs", &default_config(), &today());
    assert_eq!(anns.len(), 1);
    assert_eq!(anns[0].tag, "TODO");
    assert_eq!(anns[0].status, Status::Detonated);
    assert_eq!(anns[0].line, 1);
    assert_eq!(anns[0].message, "remove this old code");
}

#[test]
fn test_scan_finds_future_fixme() {
    let anns = scan_content("# FIXME[2099-01-01]: will still be relevant\n", "foo.py", &default_config(), &today());
    assert_eq!(anns.len(), 1);
    assert_eq!(anns[0].tag, "FIXME");
    assert_eq!(anns[0].status, Status::Inert);
}

#[test]
fn test_scan_ignores_plain_todo() {
    let anns = scan_content("// TODO: fix this someday\n// FIXME: also this\n", "foo.rs", &default_config(), &today());
    assert!(anns.is_empty(), "plain TODOs must not be matched");
}

#[test]
fn test_scan_case_insensitive_tag() {
    let anns = scan_content("// todo[2020-01-01]: lowercase tag should match\n", "foo.rs", &default_config(), &today());
    assert_eq!(anns.len(), 1);
    assert_eq!(anns[0].tag, "TODO");
}

#[test]
fn test_scan_with_owner() {
    let anns = scan_content("// TODO[2020-01-01][alice]: remove after migration\n", "foo.rs", &default_config(), &today());
    assert_eq!(anns.len(), 1);
    assert_eq!(anns[0].owner, Some("alice".to_string()));
    assert_eq!(anns[0].message, "remove after migration");
}

#[test]
fn test_scan_without_owner() {
    let anns = scan_content("// TODO[2020-01-01]: no owner here\n", "foo.rs", &default_config(), &today());
    assert_eq!(anns[0].owner, None);
}

#[test]
fn test_scan_expiring_soon() {
    let anns = scan_content("// TODO[2025-06-10]: expiring soon\n", "foo.rs", &config_with_fuse(14), &today());
    assert_eq!(anns[0].status, Status::Ticking);
}

#[test]
fn test_scan_multiple_annotations() {
    let src = "\
line 1
// TODO[2020-01-01]: expired item
line 3
# FIXME[2099-12-31]: future item
// HACK[2025-06-08]: expiring soon
line 6
";
    let anns = scan_content(src, "multi.rs", &config_with_fuse(14), &today());
    assert_eq!(anns.len(), 3);
    let expired = anns.iter().find(|a| a.tag == "TODO").unwrap();
    assert_eq!(expired.status, Status::Detonated);
    assert_eq!(expired.line, 2);
    let future = anns.iter().find(|a| a.tag == "FIXME").unwrap();
    assert_eq!(future.status, Status::Inert);
    assert_eq!(future.line, 4);
    let soon = anns.iter().find(|a| a.tag == "HACK").unwrap();
    assert_eq!(soon.status, Status::Ticking);
    assert_eq!(soon.line, 5);
}

#[test]
fn test_scan_invalid_date_skipped_with_warning() {
    let src = "// TODO[2026-13-45]: invalid date month\n";
    let anns = scan_content(src, "foo.rs", &default_config(), &today());
    assert!(anns.is_empty());
    let cfg = default_config();
    let report = scan_content_report(src, "foo.rs", &cfg.triggers, &today(), 0);
    assert!(report.fuses.is_empty());
    assert_eq!(report.invalid_dates, vec![(1, "2026-13-45".to_string())]);
}

#[test]
fn test_scan_sql_comment() {
    let anns = scan_content("-- TODO[2020-01-01]: drop this column\n", "schema.sql", &default_config(), &today());
    assert_eq!(anns.len(), 1);
    assert_eq!(anns[0].message, "drop this column");
}

#[test]
fn test_scan_hash_comment() {
    let anns = scan_content("# REMOVEME[2020-01-01]: remove this block\n", "script.py", &default_config(), &today());
    assert_eq!(anns.len(), 1);
    assert_eq!(anns[0].tag, "REMOVEME");
}

#[test]
fn test_scan_temp_tag() {
    let anns = scan_content("// TEMP[2020-01-01]: temporary workaround\n", "foo.rs", &default_config(), &today());
    assert_eq!(anns.len(), 1);
    assert_eq!(anns[0].tag, "TEMP");
}

#[test]
fn test_scan_custom_tags_only() {
    let src = "\
// TODO[2020-01-01]: this should not match
// CUSTOM[2020-01-01]: this should match
";
    let cfg = Config { triggers: vec!["CUSTOM".to_string()], ..Config::default() };
    let anns = scan_content(src, "foo.rs", &cfg, &today());
    assert_eq!(anns.len(), 1);
    assert_eq!(anns[0].tag, "CUSTOM");
}

#[test]
fn test_scan_empty_file() {
    assert!(scan_content("", "empty.rs", &default_config(), &today()).is_empty());
}

#[test]
fn test_scan_annotation_exactly_at_zero_days_remaining() {
    let anns = scan_content("// TODO[2025-06-01]: due today\n", "foo.rs", &config_with_fuse(0), &today());
    assert_eq!(anns[0].status, Status::Ticking);
}

#[test]
fn test_scan_result_categorisation() {
    let result = ScanResult {
        fuses: vec![
            make_fuse("a.rs", 1, "TODO", "2020-01-01", Status::Detonated, "expired"),
            make_fuse("b.rs", 2, "FIXME", "2025-06-08", Status::Ticking, "soon"),
            make_fuse("c.rs", 3, "HACK", "2099-01-01", Status::Inert, "fine"),
        ],
        swept_files: 3,
        skipped_files: 0,
    };
    assert_eq!(result.expired().len(), 1);
    assert_eq!(result.expiring_soon().len(), 1);
    assert_eq!(result.ok().len(), 1);
    assert!(result.has_expired());
    assert!(result.has_expiring_soon());
    assert_eq!(result.total(), 3);
}

#[test]
fn test_scan_sorted_by_date_ascending() {
    let src = "\
// TODO[2099-12-31]: far future
// FIXME[2020-01-01]: expired
// HACK[2050-06-15]: mid future
";
    let anns = scan_content(src, "foo.rs", &default_config(), &today());
    assert_eq!(anns[0].tag, "TODO");
    assert_eq!(anns[1].tag, "FIXME");
    assert_eq!(anns[2].tag, "HACK");
    let sorted = sort_by_date(&anns);
    let tags: Vec<&str> = sorted.iter().map(|f| f.tag.as_str()).collect();
    assert_eq!(tags, vec!["FIXME", "HACK", "TODO"]);
}

#[test]
fn sort_by_date_keeps_order_within_a_date() {
    let fs = vec![
        make_fuse("b.rs", 9, "TODO", "2030-01-01", Status::Inert, "first"),
        make_fuse("a.rs", 1, "TODO", "2020-01-01", Status::Detonated, "early"),
        make_fuse("a.rs", 5, "TODO", "2030-01-01", Status::Inert, "second"),
    ];
    let sorted = sort_by_date(&fs);
    let msgs: Vec<&str> = sorted.iter().map(|f| f.message.as_str()).collect();
    assert_eq!(msgs, vec!["early", "first", "second"]);
}

// -- the sample fixture ------------------------------------------------------

#[test]
fn test_sample_rs_detonated_count() {
    let fuses = sample_fuses(&default_config());
    assert_eq!(fuses.iter().filter(|a| a.is_detonated()).count(), 6);
}

#[test]
fn test_sample_rs_future_count() {
    let fuses = sample_fuses(&default_config());
    assert!(fuses.iter().filter(|a| a.status == Status::Inert).count() >= 4);
}

#[test]
fn test_sample_rs_plain_todos_not_matched() {
    for fuse in &sample_fuses(&default_config()) {
        assert!(!fuse.message.starts_with("this is a plain"));
    }
}

#[test]
fn test_sample_rs_space_before_bracket_not_matched() {
    let src = "// TODO [2020-01-01]: space before bracket should not match\n";
    assert!(scan_content(src, "test.rs", &default_config(), &today()).is_empty());
}

#[test]
fn test_sample_rs_note_tag_not_matched() {
    let src = "// NOTE[2020-01-01]: this should not be matched\n";
    assert!(scan_content(src, "test.rs", &default_config(), &today()).is_empty());
}

#[test]
fn test_sample_rs_alice_owner_detected() {
    let fuses = sample_fuses(&default_config());
    let alice = fuses.iter().find(|a| a.owner.as_deref() == Some("alice")).expect("alice's fuse");
    assert_eq!(alice.tag, "TODO");
    assert!(alice.is_detonated());
}

#[test]
fn test_sample_rs_bob_owner_detected() {
    let fuses = sample_fuses(&default_config());
    let bob = fuses.iter().find(|a| a.owner.as_deref() == Some("bob")).expect("bob's fuse");
    assert_eq!(bob.tag, "TODO");
    assert_eq!(bob.status, Status::Inert);
}

#[test]
fn test_sample_rs_ticking_with_wide_window() {
    let fuses = sample_fuses(&config_with_fuse(30));
    assert!(fuses.iter().filter(|a| a.is_ticking()).count() >= 2);
}

#[test]
fn test_sample_rs_all_tags_present() {
    let fuses = sample_fuses(&default_config());
    for expected in &["TODO", "FIXME", "HACK", "TEMP", "REMOVEME"] {
        assert!(fuses.iter().any(|f| f.tag == *expected), "missing {}", expected);
    }
}

#[test]
fn test_sample_py_hash_prefix_tags_detected() {
    let fuses = scan_content("# TODO[2020-01-01]: python style comment\n", "test.py", &default_config(), &today());
    assert_eq!(fuses.len(), 1);
    assert_eq!(fuses[0].tag, "TODO");
    assert_eq!(fuses[0].message, "python style comment");
    assert!(fuses[0].is_detonated());
}

#[test]
fn test_sample_sql_double_dash_prefix_detected() {
    let fuses = scan_content("-- TODO[2020-01-01]: drop this column\n", "schema.sql", &default_config(), &today());
    assert_eq!(fuses.len(), 1);
    assert_eq!(fuses[0].tag, "TODO");
    assert_eq!(fuses[0].message, "drop this column");
}

#[test]
fn test_all_five_default_tags_matched() {
    let src = "\
// TODO[2020-01-01]: todo detonated
// FIXME[2020-01-01]: fixme detonated
// HACK[2020-01-01]: hack detonated
// TEMP[2020-01-01]: temp detonated
// REMOVEME[2020-01-01]: removeme detonated
";
    let fuses = scan_content(src, "tags.rs", &default_config(), &today());
    assert_eq!(fuses.len(), 5);
    let tags: Vec<&str> = fuses.iter().map(|a| a.tag.as_str()).collect();
    for t in &["TODO", "FIXME", "HACK", "TEMP", "REMOVEME"] {
        assert!(tags.contains(t));
    }
}

#[test]
fn test_case_insensitive_tags() {
    let src = "\
// todo[2020-01-01]: lowercase todo
// Fixme[2020-01-01]: mixed case fixme
// HACK[2020-01-01]: uppercase hack
";
    let fuses = scan_content(src, "case.rs", &default_config(), &today());
    assert_eq!(fuses.len(), 3);
    for fuse in &fuses {
        assert_eq!(fuse.tag, fuse.tag.to_uppercase());
    }
}

#[test]
fn test_fuse_on_same_line_as_code() {
    let src = "let x = some_func(); // TODO[2020-01-01]: refactor this inline";
    let fuses = scan_content(src, "inline.rs", &default_config(), &today());
    assert_eq!(fuses.len(), 1);
    assert_eq!(fuses[0].message, "refactor this inline");
}

#[test]
fn test_multiple_fuses_on_separate_lines() {
    let src = "\
fn foo() {
    // TODO[2020-01-01]: first
    let x = 1;
    // FIXME[2099-12-31]: second
    let y = 2;
    // HACK[2020-06-15]: third
}
";
    let fuses = scan_content(src, "multi.rs", &default_config(), &today());
    assert_eq!(fuses.len(), 3);
    let lines: Vec<usize> = fuses.iter().map(|a| a.line).collect();
    assert_eq!(lines, vec![2, 4, 6]);
}

#[test]
fn test_owner_with_spaces_trimmed() {
    let fuses = scan_content("// TODO[2020-01-01][ alice ]: trimmed owner\n", "owner.rs", &default_config(), &today());
    assert_eq!(fuses.len(), 1);
    assert_eq!(fuses[0].owner.as_deref(), Some("alice"));
}

#[test]
fn test_invalid_date_produces_no_fuse() {
    assert!(scan_content("// TODO[2026-13-01]: invalid month\n", "bad.rs", &default_config(), &today()).is_empty());
}

#[test]
fn test_invalid_day_produces_no_fuse() {
    assert!(scan_content("// FIXME[2026-02-30]: invalid day\n", "bad.rs", &default_config(), &today()).is_empty());
}

#[test]
fn test_message_with_colons_and_special_chars() {
    let src = "// TODO[2020-01-01]: fix https://example.com/path?q=1&r=2 handling\n";
    let fuses = scan_content(src, "url.rs", &default_config(), &today());
    assert_eq!(fuses.len(), 1);
    assert!(fuses[0].message.contains("https://"));
    assert_eq!(fuses[0].message, "fix https://example.com/path?q=1&r=2 handling");
}

#[test]
fn test_file_path_stored_as_relative() {
    let fuses = scan_content("// TODO[2020-01-01]: check path\n", "some/deep/path/file.rs", &default_config(), &today());
    assert_eq!(fuses[0].file, "some/deep/path/file.rs");
}

#[test]
fn test_custom_trigger_only_matches_custom() {
    let src = "\
// TODO[2020-01-01]: standard tag — should NOT match
// CUSTOM[2020-01-01]: custom tag — should match
// FIXME[2020-01-01]: another standard — should NOT match
";
    let cfg = Config { triggers: vec!["CUSTOM".to_string()], ..Config::default() };
    let fuses = scan_content(src, "custom.rs", &cfg, &today());
    assert_eq!(fuses.len(), 1, "only CUSTOM trigger should match");
    assert_eq!(fuses[0].tag, "CUSTOM");
}

#[test]
fn test_empty_file_produces_no_fuses() {
    assert!(scan_content("", "empty.rs", &default_config(), &today()).is_empty());
}

#[test]
fn test_file_with_only_plain_todos_produces_no_fuses() {
    let src = "\
// TODO: this
// FIXME: that
// HACK: something
// TODO fix me
// TODO - do this later
";
    assert!(scan_content(src, "plain.rs", &default_config(), &today()).is_empty());
}

#[test]
fn test_scan_result_total_equals_sum_of_parts() {
    let fuses = sample_fuses(&config_with_fuse(30));
    let result = ScanResult { fuses, swept_files: 1, skipped_files: 0 };
    assert_eq!(
        result.total(),
        result.expired().len() + result.expiring_soon().len() + result.ok().len()
    );
}

#[test]
fn test_scan_result_detonated_helper() {
    let result = ScanResult { fuses: sample_fuses(&default_config()), swept_files: 1, skipped_files: 0 };
    let detonated = result.expired();
    assert!(!detonated.is_empty());
    for f in detonated {
        assert_eq!(f.status, Status::Detonated);
    }
}

#[test]
fn test_scan_result_inert_helper() {
    let result = ScanResult { fuses: sample_fuses(&default_config()), swept_files: 1, skipped_files: 0 };
    let inert = result.ok();
    assert!(!inert.is_empty());
    for f in inert {
        assert_eq!(f.status, Status::Inert);
    }
}

#[test]
fn a_line_holds_at_most_one_fuse() {
    let content = "// TODO[2020-01-01]: first FIXME[2021-02-02][bob]: second\n// HACK[2022-03-03]: third\n";
    let fuses = scan_content(content, "two.rs", &default_config(), &today());
    assert_eq!(fuses.len(), 2);
    assert_eq!(fuses[0].line, 1);
    assert_eq!(fuses[0].tag, "TODO");
    assert_eq!(fuses[0].message, "first FIXME[2021-02-02][bob]: second");
    assert_eq!(fuses[1].line, 2);
    assert_eq!(fuses[1].tag, "HACK");
}

#[test]
fn binary_content_is_recognised_by_a_null_byte() {
    assert!(timebomb::scanner::is_binary(b"abc\0def"));
    assert!(!timebomb::scanner::is_binary(b"// TODO[2020-01-01]: text"));
    assert!(!timebomb::scanner::is_binary(b""));
}

#[test]
fn file_verdicts_follow_excludes_extensions_and_changed_files() {
    let cfg = Config { diff_files: Some(vec!["src/a.rs".to_string()]), ..Config::default() };
    let set = cfg.build_exclude_globset().unwrap();
    assert_eq!(file_verdict(&cfg, &set, "node_modules/x.js"), FileVerdict::Excluded);
    assert_eq!(file_verdict(&cfg, &set, "src/a.rs"), FileVerdict::Candidate);
    assert_eq!(file_verdict(&cfg, &set, "src/b.rs"), FileVerdict::PassedOver);
    assert_eq!(file_verdict(&cfg, &set, "notes.bin"), FileVerdict::PassedOver);
    let all = Config::default();
    assert_eq!(file_verdict(&all, &set, "src/b.rs"), FileVerdict::Candidate);
}

#[test]
fn sweep_result_orders_fuses_and_counts_files() {
    let a = scan_content("// TODO[2027-01-01]: late\n", "a.rs", &default_config(), &today());
    let b = scan_content("// TODO[2025-01-01]: early\n", "b.rs", &default_config(), &today());
    let r = sweep_result(&vec![a, b], 3, 1, 2);
    assert_eq!(r.swept_files, 2);
    assert_eq!(r.skipped_files, 3);
    assert_eq!(r.fuses.len(), 2);
    assert_eq!(r.fuses[0].message, "early");
    assert_eq!(r.fuses[1].message, "late");
}

#[test]
fn test_is_binary_text_file() {
    assert!(!timebomb::scanner::is_binary(b"// TODO[2020-01-01]: normal text file\n"));
}

#[test]
fn test_is_binary_binary_file() {
    assert!(timebomb::scanner::is_binary(&[0x50, 0x4b, 0x00, 0x04, 0xFF, 0xFE]));
}

#[test]
fn only_the_first_8_kb_are_checked_for_null_bytes() {
    let mut text = b"// TODO[2020-01-01]: text with a late null\n".to_vec();
    text.resize(8192, b' ');
    text.push(0u8);
    assert!(!timebomb::scanner::is_binary(&text));
    text[8191] = 0u8;
    assert!(timebomb::scanner::is_binary(&text));
}

#[test]
fn kelvin_sign_tag_matches_hack_trigger_case_insensitively() {
    let src = "// HAC\u{212A}[2020-01-01]: kelvin sign folds to k\n";
    let anns = scan_content(src, "foo.rs", &default_config(), &today());
    assert_eq!(anns.len(), 1);
    assert_eq!(anns[0].tag, "HAC\u{212A}");
    assert_eq!(anns[0].message, "kelvin sign folds to k");
}

#[test]
fn non_ascii_digits_make_a_refused_date() {
    let src = "// TODO[\u{662}\u{660}\u{662}\u{666}-01-01]: arabic-indic year\n";
    let anns = scan_content(src, "foo.rs", &default_config(), &today());
    assert!(anns.is_empty());
    let cfg = default_config();
    let report = scan_content_report(src, "foo.rs", &cfg.triggers, &today(), 0);
    assert!(report.fuses.is_empty());
    assert_eq!(report.invalid_dates, vec![(1, "\u{662}\u{660}\u{662}\u{666}-01-01".to_string())]);
}

#[test]
fn changed_files_are_matched_as_paths() {
    let cfg = Config { diff_files: Some(vec!["src//a.rs".to_string()]), ..Config::default() };
    let set = cfg.build_exclude_globset().unwrap();
    assert_eq!(file_verdict(&cfg, &set, "src/a.rs"), FileVerdict::Candidate);
    assert_eq!(file_verdict(&cfg, &set, "src/b.rs"), FileVerdict::PassedOver);
}

#[test]
fn only_the_first_8_kb_are_checked_for_null_bytes_at_the_boundary() {
    let mut bytes = vec![b'a'; 8192];
    bytes.push(0);
    assert!(!timebomb::scanner::is_binary(&bytes));
    bytes[8191] = 0;
    assert!(timebomb::scanner::is_binary(&bytes));
}

#[test]
fn triggers_are_literal_words() {
    let cfg = Config { triggers: vec!["TO.O".to_string()], ..Config::default() };
    let hit = scan_content("// to.o[2020-01-01]: dot is a dot\n", "a.rs", &cfg, &today());
    assert_eq!(hit.len(), 1);
    assert_eq!(hit[0].tag, "to.o");
    let miss = scan_content("// TODO[2020-01-01]: dot is no wildcard\n", "a.rs", &cfg, &today());
    assert!(miss.is_empty());
}
