use trading_ui_style::banner_dismiss::{
    content_key_string, dismiss_log_message, issue_banner_plan, BannerDismissRegistry,
};

#[test]
fn dismiss_content_logs_once_per_key() {
    let mut reg = BannerDismissRegistry::default();
    assert!(!reg.is_dismissed_content("error", "foo"));
    let _ = reg.dismiss_content("TEST", "error", "foo");
    assert!(reg.is_dismissed_content("error", "foo"));
    let _ = reg.dismiss_content("TEST", "error", "foo");
    assert!(reg.is_dismissed_content("error", "foo"));
}

#[test]
fn dismiss_kind_is_stable() {
    let mut reg = BannerDismissRegistry::default();
    let _ = reg.dismiss_kind("TEST", "stale_data", "age=10s");
    assert!(reg.is_dismissed_kind("stale_data"));
    assert!(!reg.is_dismissed_kind("market_date_mismatch"));
}

#[test]
fn dismiss_returns_the_log_line_only_the_first_time() {
    let mut reg = BannerDismissRegistry::new();
    let first = reg.dismiss_content(" TEST ", "error", "foo");
    assert_eq!(
        first.as_deref(),
        Some("GUI_BANNER_DISMISSED | app=TEST | kind=error | summary=foo")
    );
    assert_eq!(reg.dismiss_content("TEST", "error", " foo "), None);
    assert!(reg.dismiss_kind("TEST", "k", "s").is_some());
    assert!(reg.dismiss_kind("TEST", "k", "s").is_none());
}

#[test]
fn dismissed_content_comes_back_when_it_changes() {
    let mut reg = BannerDismissRegistry::new();
    let _ = reg.dismiss_content("A", "warning", "retard 3s");
    assert!(reg.is_dismissed_content("warning", "  retard 3s "));
    assert!(!reg.is_dismissed_content("warning", "retard 4s"));
    assert!(!reg.is_dismissed_content("error", "retard 3s"));
    assert_eq!(content_key_string("warning", " retard 3s "), "warning:retard 3s");
}

#[test]
fn log_line_cuts_the_summary() {
    let long: String = std::iter::repeat('é').take(250).collect();
    let line = dismiss_log_message("app", "kind", &long);
    let expected = format!(
        "GUI_BANNER_DISMISSED | app=app | kind=kind | summary={}",
        "é".repeat(200)
    );
    assert_eq!(line, expected);
}

#[test]
fn banner_plan_hides_empty_and_dismissed_banners() {
    let mut reg = BannerDismissRegistry::new();
    let errors = vec!["e1".to_string(), "e2".to_string()];
    let warnings: Vec<String> = Vec::new();
    let plan = issue_banner_plan(&reg, &errors, &warnings);
    assert_eq!(plan.error_detail.as_deref(), Some("e1 · e2"));
    assert_eq!(plan.warning_detail, None);
    let _ = reg.dismiss_content("APP", "error", "e1 · e2");
    let plan = issue_banner_plan(&reg, &errors, &warnings);
    assert_eq!(plan.error_detail, None);
    let more = vec!["e1".to_string()];
    let plan = issue_banner_plan(&reg, &more, &errors);
    assert_eq!(plan.error_detail.as_deref(), Some("e1"));
    assert_eq!(plan.warning_detail.as_deref(), Some("e1 · e2"));
}
