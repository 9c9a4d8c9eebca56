use timebomb::baseline::{baseline_table, check_ratchet, saved_message, Baseline};

fn baseline(expired: usize, expiring_soon: usize) -> Baseline {
    Baseline {
        generated_at: "2025-01-01T00:00:00Z".to_string(),
        expired,
        expiring_soon,
    }
}

#[test]
fn test_check_ratchet_no_baseline_no_max() {
    let violations = check_ratchet(5, 10, None, None, None);
    assert!(violations.is_empty());
}

#[test]
fn test_check_ratchet_max_expired_violated() {
    let violations = check_ratchet(3, 0, None, Some(2), None);
    assert_eq!(violations.len(), 1);
    assert!(violations[0].contains("max_expired limit of 2"));
    assert_eq!(violations[0], "expired count 3 exceeds max_expired limit of 2");
}

#[test]
fn test_check_ratchet_max_expired_at_limit_ok() {
    let violations = check_ratchet(2, 0, None, Some(2), None);
    assert!(violations.is_empty());
}

#[test]
fn test_check_ratchet_baseline_expired_exceeded() {
    let b = baseline(2, 0);
    let violations = check_ratchet(3, 0, Some(&b), None, None);
    assert_eq!(violations.len(), 1);
    assert!(violations[0].contains("ratchet violated"));
    assert!(violations[0].contains("baseline of 2"));
}

#[test]
fn test_check_ratchet_baseline_improved_ok() {
    let b = baseline(5, 0);
    let violations = check_ratchet(3, 0, Some(&b), None, None);
    assert!(violations.is_empty());
}

#[test]
fn test_check_ratchet_expiring_soon_violated() {
    let violations = check_ratchet(0, 15, None, None, Some(10));
    assert_eq!(violations.len(), 1);
    assert!(violations[0].contains("max_expiring_soon limit of 10"));
}

#[test]
fn test_check_ratchet_multiple_violations() {
    let violations = check_ratchet(5, 20, None, Some(3), Some(10));
    assert_eq!(violations.len(), 2);
}

#[test]
fn test_check_ratchet_all_zero_no_baseline() {
    let violations = check_ratchet(0, 0, None, None, None);
    assert!(violations.is_empty());
}

#[test]
fn test_check_ratchet_four_violations_at_once() {
    let b = baseline(1, 1);
    let violations = check_ratchet(5, 10, Some(&b), Some(2), Some(5));
    assert_eq!(violations.len(), 4);
    assert_eq!(violations[0], "expired count 5 exceeds max_expired limit of 2");
    assert_eq!(violations[1], "expiring_soon count 10 exceeds max_expiring_soon limit of 5");
    assert_eq!(violations[2], "expired count 5 exceeds baseline of 1 — ratchet violated");
    assert_eq!(violations[3], "expiring_soon count 10 exceeds baseline of 1 — ratchet violated");
}

#[test]
fn test_check_ratchet_baseline_equal_not_violated() {
    let b = baseline(3, 2);
    let violations = check_ratchet(3, 2, Some(&b), None, None);
    assert!(violations.is_empty());
}

#[test]
fn baseline_table_marks_rows_above_baseline() {
    let b = baseline(2, 5);
    let (head, rows) = baseline_table(3, 1, Some(&b));
    assert_eq!(head, "              current  baseline");
    assert_eq!(rows.len(), 2);
    assert_eq!(rows[0].text, "expired                3         2");
    assert!(rows[0].exceeded);
    assert_eq!(rows[1].text, "expiring_soon          1         5");
    assert!(!rows[1].exceeded);
}

#[test]
fn baseline_table_without_baseline() {
    let (head, rows) = baseline_table(0, 4, None);
    assert_eq!(head, "              current  (no baseline saved)");
    assert_eq!(rows[0].text, "expired                0");
    assert!(!rows[0].exceeded && !rows[1].exceeded);
}

#[test]
fn saved_message_reports_counts() {
    assert_eq!(
        saved_message(".timebomb-baseline.json", 7, 3),
        "baseline saved to '.timebomb-baseline.json': expired=7, expiring_soon=3"
    );
}
