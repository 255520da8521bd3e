use std::time::Duration;

use trading_ui_style::app_issues::{
    build_issue_board, connectivity_issue_board, default_issue_ttl, issue_error_title,
    normalize_app_id, operational_issue_board, AppIssueReporter, DEFAULT_MAX_ISSUE_RECORDS,
};
use trading_ui_style::issues::IssueSeverity;

#[test]
fn issue_error_title_formats_app_name() {
    assert_eq!(issue_error_title("MANUAL ORDERS"), "ERREUR MANUAL ORDERS");
}

#[test]
fn build_issue_board_merges_journal() {
    let mut reporter = AppIssueReporter::with_defaults("TEST");
    reporter.report(IssueSeverity::Warning, "ORDER_BLOCKED | reason=x");
    let board = build_issue_board("", reporter.journal(), 4);
    assert_eq!(board.warnings().len(), 1);
}

#[test]
fn issue_error_title_trims_the_name() {
    assert_eq!(issue_error_title("  orderbook \t"), "ERREUR orderbook");
}

#[test]
fn reporter_normalises_its_id() {
    let r = AppIssueReporter::new("  manual_orders ", Duration::from_secs(5), 3);
    assert_eq!(r.app_id(), "MANUAL_ORDERS");
    let again = AppIssueReporter::with_defaults(r.app_id());
    assert_eq!(again.app_id(), r.app_id());
    assert_eq!(normalize_app_id(" é-x "), "é-X");
}

#[test]
fn reporter_keyed_reports_merge() {
    let mut r = AppIssueReporter::with_defaults("ob");
    r.report_keyed(IssueSeverity::Warning, "age=3s", "stale");
    r.report_keyed(IssueSeverity::Warning, "age=4s", "stale");
    r.report_keyed(IssueSeverity::Warning, "  ", "stale");
    r.report_keyed(IssueSeverity::Error, "blank key", "   ");
    assert_eq!(r.journal().len(), 2);
    let board = build_issue_board("", r.journal(), 6);
    assert_eq!(board.warnings(), &["age=4s".to_string()]);
    assert_eq!(board.errors(), &["blank key".to_string()]);
}

#[test]
fn reporter_capacity_and_clear() {
    let mut r = AppIssueReporter::new("x", default_issue_ttl(), 2);
    r.report(IssueSeverity::Error, "a");
    r.report(IssueSeverity::Error, "b");
    r.report(IssueSeverity::Error, "c");
    assert_eq!(r.journal().len(), 2);
    r.clear_if(|t| t == "b");
    assert_eq!(r.journal().len(), 1);
    r.prune();
    assert_eq!(r.journal().len(), 1);
    r.journal_mut().push(IssueSeverity::Warning, "d".into());
    assert_eq!(r.journal().len(), 2);
    assert_eq!(DEFAULT_MAX_ISSUE_RECORDS, 16);
}

#[test]
fn connectivity_board_classifies_whole_fragments() {
    let b = connectivity_issue_board(&["WS_ERROR a · lent", "attente carnet"]);
    assert_eq!(b.errors(), &["WS_ERROR a · lent".to_string()]);
    assert_eq!(b.warnings(), &["attente carnet".to_string()]);
}

#[test]
fn operational_board_adds_the_local_error() {
    let b = operational_issue_board("attente carnet", "  sync REST ko ");
    assert_eq!(b.warnings(), &["attente carnet".to_string()]);
    assert_eq!(b.errors(), &["sync REST ko".to_string()]);
    let c = operational_issue_board("", " ");
    assert!(c.is_empty());
}
