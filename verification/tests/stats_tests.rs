use timebomb::annotation::{Fuse, Status};
use timebomb::date::Date;
use timebomb::output::OutputFormat;
use timebomb::stats::{compute_stats, print_stats, print_stats_month, stats_github_lines, truncate_name};
use timebomb::style::Rendered;

fn make_fuse_on_date(tag: &str, owner: Option<&str>, status: Status, date: &str) -> Fuse {
    Fuse {
        file: "src/foo.rs".to_string(),
        line: 1,
        tag: tag.to_string(),
        date: Date::parse(date).unwrap(),
        owner: owner.map(|s| s.to_string()),
        message: "test message".to_string(),
        status,
        blamed_owner: None,
    }
}

fn make_fuse(tag: &str, owner: Option<&str>, status: Status) -> Fuse {
    let date = match status {
        Status::Detonated => "2020-01-01",
        Status::Ticking => "2025-06-10",
        Status::Inert => "2099-01-01",
    };
    make_fuse_on_date(tag, owner, status, date)
}

#[test]
fn test_compute_stats_empty() {
    let result = compute_stats(&Vec::new());
    assert_eq!(result.total_fuses, 0);
    assert_eq!(result.total_detonated, 0);
    assert_eq!(result.total_ticking, 0);
    assert_eq!(result.total_inert, 0);
    assert!(result.by_owner.is_empty());
    assert!(result.by_tag.is_empty());
    assert!(result.by_month.is_empty());
}

#[test]
fn test_compute_stats_single_detonated() {
    let result = compute_stats(&vec![make_fuse("TODO", Some("alice"), Status::Detonated)]);
    assert_eq!(result.total_fuses, 1);
    assert_eq!(result.total_detonated, 1);
    assert_eq!(result.total_ticking, 0);
    assert_eq!(result.total_inert, 0);
    assert_eq!(result.by_owner.len(), 1);
    assert_eq!(result.by_owner[0].detonated, 1);
    assert_eq!(result.by_tag.len(), 1);
    assert_eq!(result.by_tag[0].detonated, 1);
}

#[test]
fn test_compute_stats_unowned() {
    let result = compute_stats(&vec![make_fuse("TODO", None, Status::Inert)]);
    assert_eq!(result.by_owner.len(), 1);
    assert_eq!(result.by_owner[0].owner, "(unowned)");
}

#[test]
fn test_compute_stats_owner_grouping() {
    let result = compute_stats(&vec![
        make_fuse("TODO", Some("alice"), Status::Inert),
        make_fuse("FIXME", Some("alice"), Status::Detonated),
    ]);
    assert_eq!(result.by_owner.len(), 1);
    assert_eq!(result.by_owner[0].owner, "alice");
    assert_eq!(result.by_owner[0].total, 2);
}

#[test]
fn test_compute_stats_tag_grouping() {
    let result = compute_stats(&vec![
        make_fuse("TODO", Some("alice"), Status::Inert),
        make_fuse("TODO", Some("bob"), Status::Detonated),
    ]);
    assert_eq!(result.by_tag.len(), 1);
    assert_eq!(result.by_tag[0].tag, "TODO");
    assert_eq!(result.by_tag[0].total, 2);
}

#[test]
fn test_compute_stats_sort_order() {
    let result = compute_stats(&vec![
        make_fuse("TODO", Some("alice"), Status::Detonated),
        make_fuse("TODO", Some("alice"), Status::Detonated),
        make_fuse("TODO", Some("alice"), Status::Detonated),
        make_fuse("TODO", Some("bob"), Status::Detonated),
    ]);
    assert_eq!(result.by_owner.len(), 2);
    assert_eq!(result.by_owner[0].owner, "alice");
    assert_eq!(result.by_owner[0].detonated, 3);
    assert_eq!(result.by_owner[1].owner, "bob");
    assert_eq!(result.by_owner[1].detonated, 1);
}

#[test]
fn compute_stats_rows_add_up() {
    let fs = vec![
        make_fuse("TODO", Some("alice"), Status::Detonated),
        make_fuse("FIXME", None, Status::Ticking),
        make_fuse("HACK", Some("bob"), Status::Inert),
        make_fuse("TODO", None, Status::Inert),
    ];
    let r = compute_stats(&fs);
    assert_eq!((r.total_fuses, r.total_detonated, r.total_ticking, r.total_inert), (4, 1, 1, 2));
    assert_eq!(r.by_owner.iter().map(|o| o.total).sum::<usize>(), 4);
    assert_eq!(r.by_tag.iter().map(|t| t.total).sum::<usize>(), 4);
    assert_eq!(r.by_month.iter().map(|m| m.total).sum::<usize>(), 4);
    for o in &r.by_owner {
        assert_eq!(o.total, o.detonated + o.ticking + o.inert);
    }
}

#[test]
fn test_owner_row_name_truncation() {
    let long_name = "a".repeat(19);
    let truncated = truncate_name(&long_name);
    assert_eq!(truncated.len(), 20);
    assert!(truncated.ends_with(".."));

    let exact_name = "b".repeat(18);
    assert_eq!(truncate_name(&exact_name), exact_name);

    let short_name = "hello";
    assert_eq!(truncate_name(short_name), short_name);
}

#[test]
fn test_print_stats_json_does_not_panic() {
    let result = compute_stats(&vec![
        make_fuse("TODO", Some("alice"), Status::Detonated),
        make_fuse("FIXME", None, Status::Inert),
    ]);
    assert!(matches!(print_stats(&result, OutputFormat::Json), Rendered::Json));
}

#[test]
fn test_print_stats_terminal_does_not_panic() {
    let result = compute_stats(&vec![
        make_fuse("TODO", Some("alice"), Status::Detonated),
        make_fuse("FIXME", None, Status::Ticking),
        make_fuse("HACK", Some("bob"), Status::Inert),
    ]);
    match print_stats(&result, OutputFormat::Terminal) {
        Rendered::Styled(lines) => assert!(lines.iter().any(|l| l.lead.starts_with("alice "))),
        _ => panic!("expected terminal lines"),
    }
}

#[test]
fn test_print_stats_github_does_not_panic() {
    let result = compute_stats(&vec![
        make_fuse("TODO", Some("alice"), Status::Detonated),
        make_fuse("FIXME", None, Status::Inert),
    ]);
    match print_stats(&result, OutputFormat::GitHub) {
        Rendered::Plain(v) => {
            assert_eq!(v, stats_github_lines(&result));
            assert!(v.iter().all(|l| l.starts_with("::warning")));
            assert!(v.iter().any(|l| l.contains("alice")));
        }
        _ => panic!("expected workflow commands"),
    }
}

#[test]
fn test_by_month_grouping() {
    let result = compute_stats(&vec![
        make_fuse_on_date("TODO", None, Status::Detonated, "2020-03-15"),
        make_fuse_on_date("FIXME", None, Status::Detonated, "2020-03-28"),
        make_fuse_on_date("HACK", None, Status::Inert, "2099-01-01"),
    ]);
    assert_eq!(result.by_month.len(), 2);
    assert_eq!(result.by_month[0].month, "2020-03");
    assert_eq!(result.by_month[0].total, 2);
    assert_eq!(result.by_month[0].detonated, 2);
    assert_eq!(result.by_month[1].month, "2099-01");
    assert_eq!(result.by_month[1].total, 1);
    assert_eq!(result.by_month[1].inert, 1);
}

#[test]
fn test_by_month_sorted_chronologically() {
    let result = compute_stats(&vec![
        make_fuse_on_date("TODO", None, Status::Inert, "2099-06-01"),
        make_fuse_on_date("TODO", None, Status::Detonated, "2020-01-01"),
        make_fuse_on_date("TODO", None, Status::Detonated, "2020-03-01"),
    ]);
    let months: Vec<&str> = result.by_month.iter().map(|r| r.month.as_str()).collect();
    assert_eq!(months, vec!["2020-01", "2020-03", "2099-06"]);
}

#[test]
fn test_by_month_empty() {
    assert!(compute_stats(&Vec::new()).by_month.is_empty());
}

#[test]
fn test_print_stats_month_terminal_does_not_panic() {
    let result = compute_stats(&vec![
        make_fuse("TODO", Some("alice"), Status::Detonated),
        make_fuse("FIXME", None, Status::Ticking),
    ]);
    match print_stats_month(&result, OutputFormat::Terminal) {
        Rendered::Styled(lines) => assert!(lines.iter().any(|l| l.lead.starts_with("2020-01 "))),
        _ => panic!("expected terminal lines"),
    }
}
