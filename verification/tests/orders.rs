use trading_ui_style::order_grid::column_needed;
use trading_ui_style::orders_table::{
    apply_sort_click, apply_sort_click_for_columns, column_hint, column_label,
    keep_sort_column_visible, order_table_columns, OrderGridCells, OrderTableSort,
};

#[test]
fn sort_defaults_to_most_recent_first() {
    let s = OrderTableSort::default();
    assert_eq!(s.column, "updated");
    assert!(s.reverse);
}

#[test]
fn sort_click_on_new_column_then_again_flips() {
    let mut s = OrderTableSort::default();
    apply_sort_click(&mut s, Some("symbol".to_string()));
    assert_eq!(s.column, "symbol");
    assert!(!s.reverse);
    apply_sort_click(&mut s, Some("symbol".to_string()));
    assert!(s.reverse);
    apply_sort_click(&mut s, Some("updated".to_string()));
    assert_eq!(s.column, "updated");
    assert!(s.reverse);
}

#[test]
fn sort_click_ignores_unknown_or_missing_keys() {
    let mut s = OrderTableSort { column: "side".to_string(), reverse: true };
    apply_sort_click(&mut s, None);
    apply_sort_click(&mut s, Some("nope".to_string()));
    apply_sort_click_for_columns(&mut s, Some("symbol".to_string()), &["side"]);
    assert_eq!(s.column, "side");
    assert!(s.reverse);
}

#[test]
fn double_click_restores_sort() {
    let mut s = OrderTableSort { column: "tif".to_string(), reverse: false };
    apply_sort_click(&mut s, Some("tif".to_string()));
    apply_sort_click(&mut s, Some("tif".to_string()));
    assert_eq!(s.column, "tif");
    assert!(!s.reverse);
}

#[test]
fn sort_column_is_kept_visible() {
    let mut s = OrderTableSort { column: "tif".to_string(), reverse: false };
    keep_sort_column_visible(&mut s, &["updated", "side"]);
    assert_eq!(s.column, "updated");
    assert!(s.reverse);
    keep_sort_column_visible(&mut s, &["side", "updated"]);
    assert_eq!(s.column, "updated");
    let mut t = OrderTableSort { column: "x".to_string(), reverse: true };
    keep_sort_column_visible(&mut t, &["side"]);
    assert_eq!(t.column, "side");
    assert!(!t.reverse);
    keep_sort_column_visible(&mut t, &[]);
    assert_eq!(t.column, "side");
}

#[test]
fn cells_get_by_column_key() {
    let mut c = OrderGridCells::empty();
    c.order_type = "LIMIT".to_string();
    c.client_id = "cid".to_string();
    assert_eq!(c.get("type"), "LIMIT");
    assert_eq!(c.get("client_id"), "cid");
    assert_eq!(c.get("order_type"), "");
    assert_eq!(c.get("symbol"), "");
}

#[test]
fn labels_and_hints() {
    assert_eq!(column_label("order_id"), "ORDER_ID");
    assert_eq!(column_label("min_sell_px"), "MIN_SELL_PX");
    assert_eq!(column_label("straße"), "STRASSE");
    assert_eq!(column_hint("tif"), "Trier par TIF");
    assert_eq!(order_table_columns().len(), 18);
    assert_eq!(order_table_columns()[0], "updated");
}

#[test]
fn needed_columns_are_visible_or_sorted() {
    assert!(column_needed(&["symbol", "side"], "updated", "side"));
    assert!(column_needed(&["symbol"], "updated", "updated"));
    assert!(!column_needed(&["symbol"], "updated", "tif"));
}
