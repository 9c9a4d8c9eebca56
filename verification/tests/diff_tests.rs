use timebomb::git::git_failure;
use timebomb::diff::{git_changed_line_ranges, is_line_changed, parse_hunk_header, parse_unified_diff, FileRanges};
use timebomb::git::git_changed_files;

fn ranges_of<'a>(v: &'a [FileRanges], file: &str) -> Option<&'a Vec<(usize, usize)>> {
    v.iter().find(|e| e.file == file).map(|e| &e.ranges)
}

#[test]
fn test_parse_unified_diff_basic() {
    let diff = "\
diff --git a/src/main.rs b/src/main.rs
--- a/src/main.rs
+++ b/src/main.rs
@@ -1,3 +2,4 @@
+line a
+line b
+line c
+line d
";
    let map = parse_unified_diff(diff);
    let ranges = ranges_of(&map, "src/main.rs").expect("file should be present");
    assert_eq!(ranges.len(), 1);
    assert_eq!(ranges[0].0, 2);
    assert_eq!(ranges[0].1, 5);
}

#[test]
fn test_parse_unified_diff_single_line_no_count() {
    let diff = "\
--- a/foo.rs
+++ b/foo.rs
@@ -1 +5 @@
+added line
";
    let map = parse_unified_diff(diff);
    let ranges = ranges_of(&map, "foo.rs").expect("file should be present");
    assert_eq!(ranges.len(), 1);
    assert_eq!(ranges[0].0, 5);
    assert_eq!(ranges[0].1, 5);
}

#[test]
fn test_parse_unified_diff_pure_deletion() {
    let diff = "\
--- a/bar.rs
+++ b/bar.rs
@@ -3,2 +3,0 @@
-deleted line 1
-deleted line 2
";
    let map = parse_unified_diff(diff);
    let is_empty = ranges_of(&map, "bar.rs").map(|v| v.is_empty()).unwrap_or(true);
    assert!(is_empty, "pure deletion should produce no line ranges");
}

#[test]
fn test_parse_unified_diff_multiple_files() {
    let diff = "\
--- a/alpha.rs
+++ b/alpha.rs
@@ -1,1 +1,2 @@
+added in alpha 1
+added in alpha 2
--- a/beta.rs
+++ b/beta.rs
@@ -5,1 +5,1 @@
-old line
+new line
";
    let map = parse_unified_diff(diff);
    assert!(ranges_of(&map, "alpha.rs").is_some(), "alpha.rs should be present");
    assert!(ranges_of(&map, "beta.rs").is_some(), "beta.rs should be present");
    assert_eq!(map.len(), 2);
}

#[test]
fn test_parse_unified_diff_dev_null_skipped() {
    let diff = "\
--- a/gone.rs
+++ /dev/null
@@ -1,3 +0,0 @@
-line 1
-line 2
-line 3
";
    let map = parse_unified_diff(diff);
    assert!(ranges_of(&map, "gone.rs").is_none(), "/dev/null target should not produce an entry");
    assert!(map.is_empty(), "map should be empty for deleted-file diff");
}

#[test]
fn test_parse_unified_diff_multiple_hunks_same_file() {
    let diff = "\
--- a/multi.rs
+++ b/multi.rs
@@ -1,1 +1,2 @@
+hunk1 line1
+hunk1 line2
@@ -10,1 +11,3 @@
+hunk2 line1
+hunk2 line2
+hunk2 line3
";
    let map = parse_unified_diff(diff);
    let ranges = ranges_of(&map, "multi.rs").expect("multi.rs should be present");
    assert_eq!(ranges.len(), 2, "should have two separate hunk ranges");
    assert_eq!(ranges[0], (1, 2));
    assert_eq!(ranges[1], (11, 13));
}

#[test]
fn parse_hunk_header_reads_new_side() {
    assert_eq!(parse_hunk_header("@@ -1,3 +2,4 @@"), Some((2, 4)));
    assert_eq!(parse_hunk_header("@@ -1 +5 @@ fn main()"), Some((5, 1)));
    assert_eq!(parse_hunk_header("@@ -3,2 +3,0 @@"), Some((3, 0)));
    assert_eq!(parse_hunk_header("+++ b/x.rs"), None);
    assert_eq!(parse_hunk_header("@@ bogus @@"), None);
}

#[test]
fn changed_ranges_merge_staged_after_unstaged() {
    let unstaged = "+++ b/a.rs\n@@ -1 +4,2 @@\n";
    let staged = "+++ b/b.rs\n@@ -1 +1 @@\n+++ b/a.rs\n@@ -9 +9 @@\n";
    let merged = git_changed_line_ranges(unstaged, staged);
    assert_eq!(merged.len(), 2);
    assert_eq!(merged[0].file, "a.rs");
    assert_eq!(merged[0].ranges, vec![(4, 5), (9, 9)]);
    assert_eq!(merged[1].file, "b.rs");
    assert!(is_line_changed(&merged, "a.rs", 5));
    assert!(is_line_changed(&merged, "a.rs", 9));
    assert!(!is_line_changed(&merged, "a.rs", 6));
    assert!(!is_line_changed(&merged, "c.rs", 1));
}

#[test]
fn git_changed_files_unions_both_lists() {
    let files = git_changed_files("src/a.rs\nsrc/b.rs\n", "src/b.rs\n\nsrc/c.rs\n");
    let mut sorted = files.clone();
    sorted.sort();
    assert_eq!(sorted, vec!["src/a.rs", "src/b.rs", "src/c.rs"]);
}

#[test]
fn git_failure_names_the_cause() {
    assert_eq!(
        git_failure("HEAD", "fatal: Not a git repository (or any parent)\n").message(),
        "Invalid argument: git diff failed: not a git repository"
    );
    assert_eq!(
        git_failure("nope", "  fatal: bad revision 'nope'\n").message(),
        "Invalid argument: invalid git ref 'nope': fatal: bad revision 'nope'"
    );
}

#[test]
fn hunk_start_in_non_ascii_digits_reads_as_zero() {
    assert_eq!(parse_hunk_header("@@ -1 +\u{661}\u{662} @@"), Some((0, 1)));
}

#[test]
fn changed_lines_are_looked_up_by_path() {
    let ranges = vec![FileRanges { file: "src/main.rs".to_string(), ranges: vec![(3, 4)] }];
    assert!(is_line_changed(&ranges, "src//main.rs", 3));
    assert!(is_line_changed(&ranges, "src/./main.rs", 4));
    assert!(!is_line_changed(&ranges, "src/main.rs", 5));
    assert!(!is_line_changed(&ranges, "main.rs", 3));
}

#[test]
fn changed_files_are_deduplicated_as_paths() {
    let files = git_changed_files("src/a.rs\n", "src//a.rs\nsrc/a.rs/\nsrc/b.rs\n");
    assert_eq!(files, vec!["src/a.rs".to_string(), "src/b.rs".to_string()]);
}
