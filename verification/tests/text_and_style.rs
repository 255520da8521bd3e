use trading_ui_style::config_window::{
    config_manager_url, config_viewport_title, persist_listener_key, persist_payload_nonempty,
    persist_relay_wanted, PersistEntry,
};
use trading_ui_style::egui_theme::color;
use trading_ui_style::banner::{banner_network_alert, rgb_color};
use trading_ui_style::launcher::hide_dock_value_requested;
use trading_ui_style::orders_table::column_label;
use trading_ui_style::text::{join_strings, to_ascii_upper, trim_str};
use trading_ui_style::{format_amount_fr_fixed, palette, Rgb, ThemeMode};

fn amount(x: f64) -> String {
    format_amount_fr_fixed(x.is_sign_negative(), &format!("{:.4}", x.abs()))
}

#[test]
fn amount_fr_matches_python() {
    assert_eq!(amount(1234.5), "1 234,5000");
    assert_eq!(amount(-0.25), "-0,2500");
    assert_eq!(amount(1_234_567.5), "1 234 567,5000");
}

#[test]
fn amount_fr_groups_and_defaults_decimals() {
    assert_eq!(format_amount_fr_fixed(false, "123"), "123,0000");
    assert_eq!(format_amount_fr_fixed(false, "1234567"), "1 234 567,0000");
    assert_eq!(format_amount_fr_fixed(true, "100000.1"), "-100 000,1");
    assert_eq!(format_amount_fr_fixed(false, ""), ",0000");
    let grouped = format_amount_fr_fixed(false, "9876543210.0000");
    assert_eq!(grouped.replace(' ', ""), "9876543210,0000");
}

#[test]
fn palette_by_mode() {
    let d = palette(ThemeMode::Dark);
    let l = palette(ThemeMode::Light);
    assert_eq!(d.buy, Rgb::new(0, 170, 80));
    assert_eq!(d.window_fill, Rgb::new(0, 0, 0));
    assert_eq!(l.buy, Rgb::new(0, 125, 55));
    assert_eq!(l.text, Rgb::new(25, 25, 25));
}

#[test]
fn egui_colour_of_rgb() {
    let c = color(Rgb::new(1, 2, 3));
    assert_eq!(c.to_array(), [1, 2, 3, 255]);
    let b = rgb_color(banner_network_alert());
    assert_eq!(b.to_array(), [217, 45, 32, 255]);
}

#[test]
fn text_helpers() {
    assert_eq!(trim_str("\u{a0} a b \u{3000}"), "a b");
    let once = trim_str(" \t x \n");
    assert_eq!(trim_str(&once), once);
    assert_eq!(to_ascii_upper("abz-é"), "ABZ-é");
    assert_eq!(column_label("straße é"), "STRASSE É");
    assert!(!persist_relay_wanted(Some("ON")));
    assert!(persist_relay_wanted(Some("ÉTÉ")));
    assert_eq!(join_strings(&["a".to_string(), "b".to_string()], ", "), "a, b");
    assert_eq!(join_strings(&[], ", "), "");
}

#[test]
fn config_titles_and_links() {
    assert_eq!(config_viewport_title("Orderbook"), "Orderbook — Configuration");
    assert_eq!(config_manager_url("ORDERBOOK"), "io.aestrk.configmanager://app/ORDERBOOK");
    assert_eq!(persist_listener_key("ob", &[]), "ob");
    assert_eq!(persist_listener_key("ob", &["A", "B"]), "ob\0A\0B");
}

#[test]
fn persist_payload_needs_a_real_setting() {
    let entries = vec![
        PersistEntry { key: "_meta".to_string(), is_null: false },
        PersistEntry { key: "theme".to_string(), is_null: true },
    ];
    assert!(!persist_payload_nonempty(Some(&entries)));
    assert!(!persist_payload_nonempty(None));
    let more = vec![PersistEntry { key: "theme".to_string(), is_null: false }];
    assert!(persist_payload_nonempty(Some(&more)));
}

#[test]
fn relay_and_dock_flags() {
    assert!(persist_relay_wanted(None));
    assert!(!persist_relay_wanted(Some(" TRUE ")));
    assert!(!persist_relay_wanted(Some("on")));
    assert!(persist_relay_wanted(Some("0")));
    assert!(hide_dock_value_requested(Some(" 1 ")));
    assert!(!hide_dock_value_requested(Some("true")));
    assert!(!hide_dock_value_requested(None));
}
