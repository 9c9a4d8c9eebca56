use timebomb::add::{
    build_annotation, days_answer, detect_comment_style, find_matching_lines, insert_line, parse_target,
    plant_into_content, resolve_date, search_line,
};
use timebomb::config::Config;
use timebomb::date::Date;
use timebomb::scanner::scan_content;

fn date(s: &str) -> Date {
    Date::parse(s).unwrap()
}

fn today() -> Date {
    date("2026-03-22")
}

/// Plants a fuse built the way `plant` builds it into `content`.
fn plant(
    content: &str,
    file: &str,
    line: usize,
    tag: &str,
    owner: Option<&str>,
    expiry: &Date,
    message: &str,
) -> Result<String, timebomb::error::Error> {
    let prefix = detect_comment_style(file);
    let ann = build_annotation(prefix, tag, expiry, owner, message);
    plant_into_content(content, file, line, &ann)
}

// -- detect_comment_style ----------------------------------------------------

#[test]
fn test_detect_comment_style_rs() {
    assert_eq!(detect_comment_style("src/main.rs"), "//");
}

#[test]
fn test_detect_comment_style_py() {
    assert_eq!(detect_comment_style("script.py"), "#");
}

#[test]
fn test_detect_comment_style_sql() {
    assert_eq!(detect_comment_style("schema.sql"), "--");
}

#[test]
fn test_detect_comment_style_unknown() {
    assert_eq!(detect_comment_style("file.xyz"), "//");
}

#[test]
fn test_detect_comment_style_no_extension() {
    assert_eq!(detect_comment_style("Makefile"), "//");
}

#[test]
fn test_detect_comment_style_go() {
    assert_eq!(detect_comment_style("main.go"), "//");
}

#[test]
fn test_detect_comment_style_yaml() {
    assert_eq!(detect_comment_style("config.yaml"), "#");
}

#[test]
fn test_detect_comment_style_lua() {
    assert_eq!(detect_comment_style("init.lua"), "--");
}

#[test]
fn test_detect_comment_style_toml() {
    assert_eq!(detect_comment_style("Cargo.toml"), "#");
}

#[test]
fn detect_comment_style_ignores_extension_case() {
    assert_eq!(detect_comment_style("QUERY.SQL"), "--");
    assert_eq!(detect_comment_style("Build.PY"), "#");
}

// -- build_annotation --------------------------------------------------------

#[test]
fn test_build_annotation_no_owner() {
    let expiry = date("2026-09-01");
    let result = build_annotation("//", "todo", &expiry, None, "remove legacy oauth flow");
    assert_eq!(result, "// TODO[2026-09-01]: remove legacy oauth flow");
}

#[test]
fn test_build_annotation_with_owner() {
    let expiry = date("2026-09-01");
    let result = build_annotation("//", "TODO", &expiry, Some("alice"), "remove legacy oauth flow");
    assert_eq!(result, "// TODO[2026-09-01][alice]: remove legacy oauth flow");
}

#[test]
fn test_build_annotation_tag_uppercased() {
    let expiry = date("2027-01-15");
    let result = build_annotation("#", "fixme", &expiry, None, "cleanup");
    assert_eq!(result, "# FIXME[2027-01-15]: cleanup");
}

#[test]
fn test_build_annotation_sql_prefix() {
    let expiry = date("2025-12-31");
    let result = build_annotation("--", "HACK", &expiry, Some("bob"), "temp workaround");
    assert_eq!(result, "-- HACK[2025-12-31][bob]: temp workaround");
}

// -- parse_target ------------------------------------------------------------

#[test]
fn add_test_parse_target_valid() {
    let (path, line) = parse_target("src/foo.rs:42").unwrap();
    assert_eq!(path, "src/foo.rs");
    assert_eq!(line, 42);
}

#[test]
fn test_parse_target_valid_nested() {
    let (path, line) = parse_target("a/b/c/main.go:1").unwrap();
    assert_eq!(path, "a/b/c/main.go");
    assert_eq!(line, 1);
}

#[test]
fn test_parse_target_invalid_no_colon() {
    let result = parse_target("src/foo.rs");
    assert!(result.is_err());
    let msg = result.unwrap_err().message();
    assert!(msg.contains("FILE:LINE") || msg.contains("file:LINE") || msg.contains("form"));
}

#[test]
fn test_parse_target_invalid_line_zero() {
    let result = parse_target("src/foo.rs:0");
    assert!(result.is_err());
    let msg = result.unwrap_err().message();
    assert!(msg.contains("1") || msg.contains("zero") || msg.contains(">="));
}

#[test]
fn test_parse_target_invalid_non_numeric_line() {
    let result = parse_target("src/foo.rs:abc");
    assert!(result.is_err());
}

#[test]
fn test_parse_target_empty_file() {
    let result = parse_target(":42");
    assert!(result.is_err());
}

#[test]
fn test_parse_target_accepts_col() {
    let (path, line) = parse_target("src/foo.rs:42:7").unwrap();
    assert_eq!(path, "src/foo.rs");
    assert_eq!(line, 42);
}

#[test]
fn test_parse_target_accepts_col_and_message() {
    let (path, line) = parse_target("src/foo.rs:42:7: some editor context").unwrap();
    assert_eq!(path, "src/foo.rs");
    assert_eq!(line, 42);
}

#[test]
fn parse_target_keeps_colons_in_path() {
    let (path, line) = parse_target("C:/work/app.rs:9").unwrap();
    assert_eq!(path, "C:/work/app.rs");
    assert_eq!(line, 9);
}

// -- resolve_date ------------------------------------------------------------

#[test]
fn test_resolve_date_from_date_str() {
    let t = date("2025-06-01");
    let result = resolve_date(Some("2026-09-01"), None, &t).unwrap();
    assert_eq!(result, date("2026-09-01"));
}

#[test]
fn test_resolve_date_from_in_days() {
    let t = date("2025-06-01");
    let result = resolve_date(None, Some(90), &t).unwrap();
    assert_eq!(result, date("2025-08-30"));
}

#[test]
fn test_resolve_date_in_days_zero() {
    let t = date("2025-06-01");
    let result = resolve_date(None, Some(0), &t).unwrap();
    assert_eq!(result, t);
}

#[test]
fn test_resolve_date_neither_yes_defaults_90() {
    let t = today();
    let result = resolve_date(None, None, &t).unwrap();
    let expected = t.add_days(90).unwrap();
    assert_eq!(result, expected);
}

#[test]
fn test_resolve_date_prefers_date_str_over_in_days() {
    let t = date("2025-06-01");
    let result = resolve_date(Some("2099-01-01"), Some(5), &t).unwrap();
    assert_eq!(result, date("2099-01-01"));
}

#[test]
fn test_resolve_date_invalid_format() {
    let t = date("2025-06-01");
    let result = resolve_date(Some("01-09-2026"), None, &t);
    assert!(result.is_err());
    assert_eq!(
        result.unwrap_err().message(),
        "Invalid argument: '01-09-2026' is not a valid date — expected YYYY-MM-DD"
    );
}

// -- insert_line -------------------------------------------------------------

#[test]
fn test_insert_line_middle() {
    let lines = vec!["line one", "line two", "line three"];
    let result = insert_line(&lines, 2, "// TODO[2026-01-01]: new annotation");
    let result_lines: Vec<&str> = result.lines().collect();
    assert_eq!(result_lines.len(), 4);
    assert_eq!(result_lines[0], "line one");
    assert_eq!(result_lines[1], "// TODO[2026-01-01]: new annotation");
    assert_eq!(result_lines[2], "line two");
    assert_eq!(result_lines[3], "line three");
}

#[test]
fn test_insert_line_first() {
    let lines = vec!["first", "second", "third"];
    let result = insert_line(&lines, 1, "// annotation");
    let result_lines: Vec<&str> = result.lines().collect();
    assert_eq!(result_lines.len(), 4);
    assert_eq!(result_lines[0], "// annotation");
    assert_eq!(result_lines[1], "first");
    assert_eq!(result_lines[2], "second");
    assert_eq!(result_lines[3], "third");
}

#[test]
fn test_insert_line_after_last() {
    let lines = vec!["alpha", "beta", "gamma"];
    let result = insert_line(&lines, 4, "// appended");
    let result_lines: Vec<&str> = result.lines().collect();
    assert_eq!(result_lines.len(), 4);
    assert_eq!(result_lines[3], "// appended");
}

#[test]
fn test_insert_line_single_line_file() {
    let lines = vec!["only line"];
    let result = insert_line(&lines, 1, "// before");
    let result_lines: Vec<&str> = result.lines().collect();
    assert_eq!(result_lines.len(), 2);
    assert_eq!(result_lines[0], "// before");
    assert_eq!(result_lines[1], "only line");
}

#[test]
fn test_insert_line_trailing_newline() {
    let lines = vec!["a", "b"];
    let result = insert_line(&lines, 1, "x");
    assert!(result.ends_with('\n'), "result should end with a newline");
}

// -- find_matching_lines -----------------------------------------------------

#[test]
fn test_find_matching_lines_found() {
    let matches = find_matching_lines("line one\ncontains_pattern here\nline three\n", "contains_pattern");
    assert_eq!(matches.len(), 1);
    assert_eq!(matches[0].0, 2);
    assert!(matches[0].1.contains("contains_pattern"));
}

#[test]
fn test_find_matching_lines_multiple() {
    let matches = find_matching_lines("foo bar\nfoo baz\nno match\n", "foo");
    assert_eq!(matches.len(), 2);
    assert_eq!(matches[0].0, 1);
    assert_eq!(matches[1].0, 2);
}

#[test]
fn test_find_matching_lines_none() {
    let matches = find_matching_lines("line one\nline two\n", "zzz_no_match");
    assert_eq!(matches.len(), 0);
}

// -- planting into file content ----------------------------------------------

#[test]
fn test_run_add_line_out_of_range() {
    let result = plant("fn main() {}\n", "test.rs", 999, "TODO", None, &date("2026-01-01"), "msg");
    assert!(result.is_err());
    assert_eq!(
        result.unwrap_err().message(),
        "Invalid argument: line number 999 is out of range for 'test.rs' (1 lines); must be between 1 and 2"
    );
}

#[test]
fn test_run_add_inserts_annotation_with_yes() {
    let expiry = resolve_date(Some("2026-09-01"), None, &date("2025-06-01")).unwrap();
    let written = plant(
        "fn foo() {}\nfn bar() {}\n",
        "test.rs",
        1,
        "TODO",
        None,
        &expiry,
        "remove foo after migration",
    )
    .unwrap();
    let lines: Vec<&str> = written.lines().collect();
    assert_eq!(lines.len(), 3);
    assert_eq!(lines[0], "// TODO[2026-09-01]: remove foo after migration");
    assert_eq!(lines[1], "fn foo() {}");
    assert_eq!(lines[2], "fn bar() {}");
    assert!(written.ends_with('\n'));
}

#[test]
fn test_run_add_inserts_annotation_with_owner() {
    let expiry = resolve_date(None, Some(30), &date("2025-06-01")).unwrap();
    let written = plant(
        "def foo():\n    pass\n",
        "test.py",
        2,
        "FIXME",
        Some("alice"),
        &expiry,
        "clean this up",
    )
    .unwrap();
    let lines: Vec<&str> = written.lines().collect();
    assert_eq!(lines.len(), 3);
    assert_eq!(lines[0], "def foo():");
    assert_eq!(lines[1], "# FIXME[2025-07-01][alice]: clean this up");
    assert_eq!(lines[2], "    pass");
}

#[test]
fn test_run_add_append_after_last_line() {
    let written = plant("line1\nline2\n", "test.rs", 3, "TODO", None, &date("2027-01-01"), "appended")
        .unwrap();
    let lines: Vec<&str> = written.lines().collect();
    assert_eq!(lines.len(), 3);
    assert_eq!(lines[2], "// TODO[2027-01-01]: appended");
}

#[test]
fn test_run_add_default_days_yes() {
    let t = today();
    let expiry = resolve_date(None, None, &t).unwrap();
    let written = plant("fn main() {}\n", "test.rs", 1, "TODO", None, &expiry, "msg").unwrap();
    let expected_date = t.add_days(90).unwrap().format();
    assert!(written.contains(&expected_date));
}

#[test]
fn plant_keeps_missing_final_newline() {
    let written = plant("a\nb", "x.rs", 2, "TODO", None, &date("2027-01-01"), "m").unwrap();
    assert_eq!(written, "a\n// TODO[2027-01-01]: m\nb");
}

#[test]
fn test_run_add_with_search_single_match() {
    let content = "fn alpha() {}\nfn legacy_auth() {}\nfn gamma() {}\n";
    let line = search_line("test.rs", "legacy_auth", content).unwrap();
    assert_eq!(line, 2);
    let written = plant(content, "test.rs", line, "TODO", None, &date("2027-01-01"), "remove legacy auth")
        .unwrap();
    let lines: Vec<&str> = written.lines().collect();
    assert_eq!(lines.len(), 4);
    assert_eq!(lines[1], "// TODO[2027-01-01]: remove legacy auth");
    assert_eq!(lines[2], "fn legacy_auth() {}");
}

#[test]
fn test_run_add_with_search_no_match() {
    let result = search_line("test.rs", "nonexistent_xyz", "fn alpha() {}\nfn beta() {}\n");
    assert!(result.is_err());
    assert_eq!(
        result.unwrap_err().message(),
        "Invalid argument: no lines matching 'nonexistent_xyz' found in test.rs"
    );
}

#[test]
fn test_run_add_with_search_multiple_matches() {
    let result = search_line("test.rs", "fn", "fn alpha() {}\nfn beta() {}\n");
    assert!(result.is_err());
    assert_eq!(
        result.unwrap_err().message(),
        "Invalid argument: pattern 'fn' matched 2 lines in test.rs:\n  line 1: fn alpha() {}\n  line 2: fn beta() {}\nuse FILE:LINE to be specific"
    );
}

// -- planting, then sweeping -------------------------------------------------

#[test]
fn planted_fuse_is_found_by_the_scanner() {
    let content = "fn main() {\n    run();\n}\n";
    let expiry = date("2026-06-01");
    let out = plant(content, "src/main.rs", 2, "todo", Some("alice"), &expiry, "remove after migration")
        .unwrap();
    let fuses = scan_content(&out, "src/main.rs", &Config::default(), &today());
    assert_eq!(fuses.len(), 1);
    let f = &fuses[0];
    assert_eq!(f.line, 2);
    assert_eq!(f.tag, "TODO");
    assert_eq!(f.date, expiry);
    assert_eq!(f.owner.as_deref(), Some("alice"));
    assert_eq!(f.message, "remove after migration");
    assert_eq!(f.file, "src/main.rs");
}

#[test]
fn planted_fuse_without_owner_is_found_at_the_end_of_a_file() {
    let content = "x = 1\ny = 2";
    let expiry = date("2030-01-15");
    let out = plant(content, "tool.py", 3, "FIXME", None, &expiry, "  drop this  ").unwrap();
    assert_eq!(out, "x = 1\ny = 2\n# FIXME[2030-01-15]:   drop this  ");
    let fuses = scan_content(&out, "tool.py", &Config::default(), &today());
    assert_eq!(fuses.len(), 1);
    assert_eq!(fuses[0].line, 3);
    assert_eq!(fuses[0].tag, "FIXME");
    assert_eq!(fuses[0].owner, None);
    assert_eq!(fuses[0].message, "drop this");
    assert_eq!(fuses[0].date, expiry);
}

// -- the days prompt ----------------------------------------------------------

#[test]
fn days_answer_defaults_to_ninety_when_empty() {
    assert_eq!(days_answer("\n").unwrap(), 90);
    assert_eq!(days_answer("   ").unwrap(), 90);
}

#[test]
fn days_answer_reads_a_number() {
    assert_eq!(days_answer(" 30\n").unwrap(), 30);
    assert_eq!(days_answer("+7").unwrap(), 7);
}

#[test]
fn days_answer_refuses_what_is_not_a_number() {
    let e = days_answer("soon\n").unwrap_err();
    assert_eq!(e.message(), "Invalid argument: 'soon' is not a valid number of days");
    assert!(days_answer("-1").is_err());
    assert!(days_answer("4294967296").is_err());
}
