use std::time::Duration;

use trading_ui_style::issues::{
    append_classified_fragment, classify_issue_severity, classify_upper, push_unique_line,
    split_banner_fragments, IssueSeverity, StackIssueBoard,
};
use trading_ui_style::journal::IssueJournal;

#[test]
fn classify_transient_ws_wait_as_warning() {
    assert_eq!(
        classify_issue_severity("WS sans données — kraken ADA/EUR (attente carnet)"),
        IssueSeverity::Warning
    );
}

#[test]
fn classify_connect_failed_as_error() {
    assert_eq!(
        classify_issue_severity("WS_CONNECT_FAILED symbol=ADA/EUR err=429"),
        IssueSeverity::Error
    );
}

#[test]
fn journal_dedupes_and_upgrades_severity() {
    let mut j = IssueJournal::new(Duration::from_secs(60), 8);
    j.push(IssueSeverity::Warning, "foo".into());
    j.push(IssueSeverity::Error, "foo".into());
    assert_eq!(j.len(), 1);
    assert_eq!(j.active_records()[0].0, IssueSeverity::Error);
}

#[test]
fn classify_statics_and_connect_as_error() {
    assert_eq!(
        classify_issue_severity("STATICS ARRÊTÉ — publication expirée"),
        IssueSeverity::Error
    );
    assert_eq!(
        classify_issue_severity("WS_CONNECT_FAILED symbol=ADA/EUR err=429"),
        IssueSeverity::Error
    );
}

#[test]
fn classify_order_blocked_as_warning() {
    assert_eq!(
        classify_issue_severity(
            "ORDER_BLOCKED | stage=preflight | venue=kraken | symbol=ETHEUR | reason=min"
        ),
        IssueSeverity::Warning
    );
}

#[test]
fn classify_order_failed_as_error() {
    assert_eq!(
        classify_issue_severity("ORDER_FAILED | venue=kraken | error=disconnected"),
        IssueSeverity::Error
    );
}

#[test]
fn classify_without_marker_is_warning() {
    assert_eq!(classify_issue_severity("tout va bien"), IssueSeverity::Warning);
    assert_eq!(classify_issue_severity(""), IssueSeverity::Warning);
}

#[test]
fn classify_warn_marker_wins_over_error_marker() {
    // ORDER_BLOCKED (warning) together with ERROR (error): the warning wins.
    assert_eq!(
        classify_issue_severity("ORDER_BLOCKED error=timeout"),
        IssueSeverity::Warning
    );
}

#[test]
fn classify_uses_unicode_upper_case() {
    // "indisponible" only matches INDISPONIBLE once upper-cased.
    assert_eq!(classify_issue_severity("api indisponible"), IssueSeverity::Error);
    assert_eq!(classify_issue_severity("flux ignoré"), IssueSeverity::Error);
    // classify_upper does not upper-case by itself.
    assert_eq!(classify_upper("api indisponible"), IssueSeverity::Warning);
    assert_eq!(classify_upper("API INDISPONIBLE"), IssueSeverity::Error);
}

#[test]
fn push_unique_line_trims_and_skips_duplicates() {
    let mut lines: Vec<String> = Vec::new();
    push_unique_line(&mut lines, "  alpha \n".to_string());
    push_unique_line(&mut lines, "alpha".to_string());
    push_unique_line(&mut lines, "   ".to_string());
    push_unique_line(&mut lines, "beta".to_string());
    assert_eq!(lines, vec!["alpha".to_string(), "beta".to_string()]);
}

#[test]
fn push_unique_line_twice_is_once() {
    let mut once: Vec<String> = vec!["x".to_string()];
    push_unique_line(&mut once, " y ".to_string());
    let mut twice = once.clone();
    push_unique_line(&mut twice, " y ".to_string());
    assert_eq!(once, twice);
}

#[test]
fn append_classified_fragment_routes_by_severity() {
    let mut errors: Vec<String> = Vec::new();
    let mut warnings: Vec<String> = Vec::new();
    append_classified_fragment(&mut errors, &mut warnings, " REST_ERROR 500 ".to_string());
    append_classified_fragment(&mut errors, &mut warnings, "attente carnet".to_string());
    append_classified_fragment(&mut errors, &mut warnings, "  ".to_string());
    assert_eq!(errors, vec!["REST_ERROR 500".to_string()]);
    assert_eq!(warnings, vec!["attente carnet".to_string()]);
}

#[test]
fn split_banner_fragments_trims_and_drops_empty() {
    let frags = split_banner_fragments(" a · · b ·c· ");
    assert_eq!(frags, vec!["a".to_string(), "b".to_string(), "c".to_string()]);
    assert!(split_banner_fragments("   ").is_empty());
    assert_eq!(split_banner_fragments("solo"), vec!["solo".to_string()]);
}

#[test]
fn combined_text_splits_on_middle_dot() {
    let b = StackIssueBoard::from_combined_text("WS_ERROR kraken · attente carnet okx");
    assert_eq!(b.errors(), &["WS_ERROR kraken".to_string()]);
    assert_eq!(b.warnings(), &["attente carnet okx".to_string()]);
    assert!(b.has_errors());
    assert!(!b.is_empty());
}

#[test]
fn combined_text_without_dot_is_one_fragment() {
    let b = StackIssueBoard::from_combined_text("  DOWN depuis 3 min  ");
    assert_eq!(b.errors(), &["DOWN depuis 3 min".to_string()]);
    assert!(b.warnings().is_empty());
    let empty = StackIssueBoard::from_combined_text("   ");
    assert!(empty.is_empty());
    assert!(!empty.has_errors());
}

#[test]
fn combined_text_equals_its_fragments() {
    let text = " FAILED x · retard y · FAILED x ";
    let a = StackIssueBoard::from_combined_text(text);
    let b = StackIssueBoard::from_fragments(&split_banner_fragments(text.trim()));
    assert_eq!(a.errors(), b.errors());
    assert_eq!(a.warnings(), b.warnings());
    assert_eq!(a.errors().len(), 1);
}

#[test]
fn detail_line_splits_back_into_lines() {
    let lines = vec!["WS_ERROR a".to_string(), "FAILED b".to_string(), "c".to_string()];
    let detail = lines.join(" · ");
    assert_eq!(split_banner_fragments(&detail), lines);
}

#[test]
fn board_push_error_and_warning_skip_blank_and_duplicates() {
    let mut b = StackIssueBoard::default();
    b.push_error(" e1 ");
    b.push_error("e1");
    b.push_error("");
    b.push_warning("w1");
    b.push_warning(" w1");
    b.push_optional(None);
    b.push_optional(Some("CRITICAL disk".to_string()));
    assert_eq!(b.errors(), &["e1".to_string(), "CRITICAL disk".to_string()]);
    assert_eq!(b.warnings(), &["w1".to_string()]);
}

#[test]
fn board_take_entries_respects_the_limit() {
    let mut b = StackIssueBoard::new();
    let entries = vec![
        (IssueSeverity::Error, "e1".to_string()),
        (IssueSeverity::Error, "e2".to_string()),
        (IssueSeverity::Error, "e3".to_string()),
        (IssueSeverity::Warning, "w1".to_string()),
    ];
    b.take_entries(&entries, 2);
    assert_eq!(b.errors(), &["e1".to_string(), "e2".to_string()]);
    assert_eq!(b.warnings(), &["w1".to_string()]);
}

#[test]
fn merge_journal_adds_active_entries() {
    let mut j = IssueJournal::new(Duration::from_secs(60), 8);
    j.push(IssueSeverity::Error, "ORDER_FAILED x".into());
    j.push(IssueSeverity::Warning, "lent".into());
    let mut b = StackIssueBoard::from_fragments(&["OFFLINE hub".to_string()]);
    b.merge_journal(&j, 4);
    assert_eq!(b.errors(), &["OFFLINE hub".to_string(), "ORDER_FAILED x".to_string()]);
    assert_eq!(b.warnings(), &["lent".to_string()]);
    let c = StackIssueBoard::from_journal_and_text("", &j, 0);
    assert!(c.is_empty());
}

#[test]
fn banner_text_normalisation_is_idempotent() {
    let text = "  x ·· y  ·z · ";
    let once = split_banner_fragments(text);
    let again = split_banner_fragments(&once.join(" · "));
    assert_eq!(once, again);
    assert_eq!(once, vec!["x".to_string(), "y".to_string(), "z".to_string()]);
}

#[test]
fn combined_text_equals_fragments_of_untrimmed_text() {
    for text in ["  FAILED x · retard y · FAILED x \n", "\t solo \u{a0}", "   ", " · a ·· "] {
        let a = StackIssueBoard::from_combined_text(text);
        let b = StackIssueBoard::from_fragments(&split_banner_fragments(text));
        assert_eq!(a.errors(), b.errors());
        assert_eq!(a.warnings(), b.warnings());
    }
}
