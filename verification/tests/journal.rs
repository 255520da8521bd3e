use std::time::Duration;

use trading_ui_style::issues::IssueSeverity;
use trading_ui_style::journal::IssueJournal;

fn secs(n: u128) -> u128 {
    n * 1_000_000_000
}

#[test]
fn journal_push_at_trims_and_skips_blank() {
    let mut j = IssueJournal::new(Duration::from_secs(60), 8);
    j.push_keyed_at(IssueSeverity::Warning, "   ".into(), None, 0);
    j.push_keyed_at(IssueSeverity::Warning, "x".into(), Some("  "), 0);
    assert_eq!(j.len(), 0);
    j.push_keyed_at(IssueSeverity::Warning, "  a  ".into(), None, 0);
    assert_eq!(j.active_records_at(0), vec![(IssueSeverity::Warning, "a".to_string())]);
}

#[test]
fn journal_dedupes_by_key_within_window_only() {
    let mut j = IssueJournal::new(Duration::from_secs(600), 8);
    j.push_keyed_at(IssueSeverity::Warning, "age=1".into(), Some("stale"), secs(0));
    j.push_keyed_at(IssueSeverity::Warning, "age=2".into(), Some("stale"), secs(5));
    assert_eq!(j.len(), 1);
    assert_eq!(
        j.active_records_at(secs(5)),
        vec![(IssueSeverity::Warning, "age=2".to_string())]
    );
    // 20 s after the last touch the window is over: a new entry is made.
    j.push_keyed_at(IssueSeverity::Warning, "age=3".into(), Some("stale"), secs(25));
    assert_eq!(j.len(), 2);
}

#[test]
fn journal_warning_never_downgrades_error() {
    let mut j = IssueJournal::new(Duration::from_secs(60), 8);
    j.push_keyed_at(IssueSeverity::Error, "boom".into(), None, 0);
    j.push_keyed_at(IssueSeverity::Warning, "boom".into(), None, 1);
    assert_eq!(j.active_records_at(1), vec![(IssueSeverity::Error, "boom".to_string())]);
}

#[test]
fn journal_drops_oldest_beyond_capacity() {
    let mut j = IssueJournal::new(Duration::from_secs(60), 2);
    j.push_keyed_at(IssueSeverity::Warning, "a".into(), None, 0);
    j.push_keyed_at(IssueSeverity::Warning, "b".into(), None, 0);
    j.push_keyed_at(IssueSeverity::Warning, "c".into(), None, 0);
    assert_eq!(j.len(), 2);
    assert_eq!(
        j.active_records_at(0),
        vec![
            (IssueSeverity::Warning, "b".to_string()),
            (IssueSeverity::Warning, "c".to_string())
        ]
    );
    let mut none = IssueJournal::new(Duration::from_secs(60), 0);
    none.push_keyed_at(IssueSeverity::Error, "a".into(), None, 0);
    assert_eq!(none.len(), 0);
}

#[test]
fn journal_prune_and_active_use_the_ttl() {
    let mut j = IssueJournal::new(Duration::from_secs(10), 8);
    j.push_keyed_at(IssueSeverity::Warning, "old".into(), None, secs(0));
    j.push_keyed_at(IssueSeverity::Warning, "new".into(), None, secs(8));
    assert_eq!(
        j.active_records_at(secs(10)),
        vec![
            (IssueSeverity::Warning, "old".to_string()),
            (IssueSeverity::Warning, "new".to_string())
        ]
    );
    assert_eq!(j.active_records_at(secs(11)), vec![(IssueSeverity::Warning, "new".to_string())]);
    let before = j.active_records_at(secs(11));
    j.prune_at(secs(11));
    assert_eq!(j.len(), 1);
    assert_eq!(j.active_records_at(secs(11)), before);
}

#[test]
fn journal_clear_if_drops_matching_texts() {
    let mut j = IssueJournal::new(Duration::from_secs(60), 8);
    j.push(IssueSeverity::Warning, "keep me".into());
    j.push(IssueSeverity::Error, "drop me".into());
    j.clear_if(|t| t.starts_with("drop"));
    assert_eq!(j.len(), 1);
    assert_eq!(j.active_records()[0].1, "keep me");
}

#[test]
fn journal_reported_message_is_active_right_away() {
    let mut j = IssueJournal::new(Duration::from_secs(45), 16);
    j.push(IssueSeverity::Error, " CRITICAL x ".into());
    let active = j.active_records();
    assert!(active.contains(&(IssueSeverity::Error, "CRITICAL x".to_string())));
}

#[test]
fn ttl_counts_nanoseconds() {
    // A zero time to live keeps only entries of the very same instant.
    let mut j = IssueJournal::new(Duration::from_secs(0), 4);
    j.push_keyed_at(IssueSeverity::Warning, "t".into(), None, 100);
    assert_eq!(j.active_records_at(100).len(), 1);
    assert_eq!(j.active_records_at(101).len(), 0);
    // One second is 10^9 ns.
    let mut k = IssueJournal::new(Duration::from_secs(1), 4);
    k.push_keyed_at(IssueSeverity::Warning, "t".into(), None, 0);
    assert_eq!(k.active_records_at(1_000_000_000).len(), 1);
    assert_eq!(k.active_records_at(1_000_000_001).len(), 0);
}
