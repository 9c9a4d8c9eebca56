use timebomb::annotation::{Fuse, Status};
use timebomb::armory::{print_armory_to_writer, select_armory_fuses};
use timebomb::date::Date;

fn date(s: &str) -> Date {
    Date::parse(s).unwrap()
}

fn fuse(file: &str, line: usize, expiry: &str, status: Status, message: &str) -> Fuse {
    Fuse {
        file: file.to_string(),
        line,
        tag: "TODO".to_string(),
        date: date(expiry),
        owner: None,
        message: message.to_string(),
        status,
        blamed_owner: None,
    }
}

/// The armory view as the terminal shows it, one line after another.
fn rendered(lines: &[String]) -> String {
    let mut text = String::new();
    for l in lines {
        text.push_str(l);
        text.push('\n');
    }
    text
}

#[test]
fn test_select_armory_fuses_ranks_detonated_then_ticking() {
    let today = date("2026-04-18");
    let fuses = vec![
        fuse("soon.rs", 1, "2026-04-19", Status::Ticking, "one day"),
        fuse("old.rs", 1, "2026-04-01", Status::Detonated, "old"),
        fuse("older.rs", 1, "2026-03-01", Status::Detonated, "older"),
        fuse("later.rs", 1, "2026-04-25", Status::Ticking, "later"),
        fuse("safe.rs", 1, "2026-12-01", Status::Inert, "safe"),
    ];

    let selected = select_armory_fuses(&fuses, &today, 10);

    assert_eq!(selected.len(), 4);
    assert_eq!(selected[0].file, "older.rs");
    assert_eq!(selected[1].file, "old.rs");
    assert_eq!(selected[2].file, "soon.rs");
    assert_eq!(selected[3].file, "later.rs");
}

#[test]
fn test_select_armory_fuses_honors_limit() {
    let today = date("2026-04-18");
    let fuses = vec![
        fuse("a.rs", 1, "2026-04-01", Status::Detonated, "a"),
        fuse("b.rs", 1, "2026-04-02", Status::Detonated, "b"),
        fuse("c.rs", 1, "2026-04-03", Status::Detonated, "c"),
    ];

    let selected = select_armory_fuses(&fuses, &today, 2);

    assert_eq!(selected.len(), 2);
    assert_eq!(selected[0].file, "a.rs");
    assert_eq!(selected[1].file, "b.rs");
}

#[test]
fn select_armory_fuses_breaks_ties_by_file_then_line() {
    let today = date("2026-04-18");
    let fuses = vec![
        fuse("b.rs", 3, "2026-04-01", Status::Detonated, "x"),
        fuse("a.rs", 9, "2026-04-01", Status::Detonated, "x"),
        fuse("a.rs", 2, "2026-04-01", Status::Detonated, "x"),
    ];
    let selected = select_armory_fuses(&fuses, &today, 0);
    assert!(selected.is_empty());
    let selected = select_armory_fuses(&fuses, &today, 5);
    assert_eq!(selected[0].location(), "a.rs:2");
    assert_eq!(selected[1].location(), "a.rs:9");
    assert_eq!(selected[2].location(), "b.rs:3");
}

#[test]
fn test_print_armory_to_writer_empty() {
    let today = date("2026-04-18");
    let text = rendered(&print_armory_to_writer(&Vec::new(), &today, false));
    assert!(text.contains("Most volatile fuses"));
    assert!(text.contains("Magazine is quiet."));
    assert_eq!(text, "Most volatile fuses\n\nMagazine is quiet.\n");
}

#[test]
fn test_print_armory_to_writer_includes_annotation() {
    let today = date("2026-04-18");
    let mut item = fuse("src/auth.rs", 42, "2026-04-01", Status::Detonated, "remove fallback");
    item.owner = Some("alice".to_string());
    let selected = vec![item];

    let text = rendered(&print_armory_to_writer(&selected, &today, false));
    assert!(text.contains("DETONATED"));
    assert!(text.contains("17d overdue"));
    assert!(text.contains("src/auth.rs:42"));
    assert!(text.contains("TODO[2026-04-01][alice]: remove fallback"));
}

#[test]
fn test_print_armory_to_writer_oldest_heading() {
    let today = date("2026-04-18");
    let item = fuse("src/auth.rs", 42, "2026-04-01", Status::Detonated, "old");
    let selected = vec![item];

    let text = rendered(&print_armory_to_writer(&selected, &today, true));
    assert!(text.starts_with("Most volatile fuse\n"));
}

#[test]
fn print_armory_ticking_entry_shows_days_left() {
    let today = date("2026-04-18");
    let selected = vec![fuse("a.rs", 1, "2026-04-20", Status::Ticking, "soon")];
    let lines = print_armory_to_writer(&selected, &today, false);
    assert!(lines[1].contains("TICKING"));
    assert!(lines[1].contains("2d left"));
}

#[test]
fn armory_breaks_ties_by_path_components() {
    let today = date("2026-04-18");
    let fuses = vec![
        fuse("a-b.rs", 1, "2026-04-01", Status::Detonated, "dash"),
        fuse("a/b.rs", 1, "2026-04-01", Status::Detonated, "nested"),
    ];
    let selected = select_armory_fuses(&fuses, &today, 10);
    assert_eq!(selected[0].file, "a/b.rs");
    assert_eq!(selected[1].file, "a-b.rs");
}
