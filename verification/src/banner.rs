//! Status banners (network / alerts): their colours and contents.

use vstd::prelude::*;

use crate::egui_theme::{color, egui_rgb};
use crate::Rgb;

verus! {

/// Banner colour of a healthy network.
pub fn banner_network_ok() -> (c: Rgb)
    ensures
        c == (Rgb { r: 23, g: 92, b: 211 }),
{
    Rgb { r: 23, g: 92, b: 211 }
}

/// Banner colour of a network alert (and of error banners).
pub fn banner_network_alert() -> (c: Rgb)
    ensures
        c == (Rgb { r: 217, g: 45, b: 32 }),
{
    Rgb { r: 217, g: 45, b: 32 }
}

/// Banner colour of a resolved issue.
pub fn banner_resolved() -> (c: Rgb)
    ensures
        c == (Rgb { r: 28, g: 140, b: 72 }),
{
    Rgb { r: 28, g: 140, b: 72 }
}

/// Banner colour of warnings (silent order books).
pub fn banner_carnets_warn() -> (c: Rgb)
    ensures
        c == (Rgb { r: 220, g: 145, b: 0 }),
{
    Rgb { r: 220, g: 145, b: 0 }
}

/// Neutral banner colour.
pub fn banner_neutral() -> (c: Rgb)
    ensures
        c == (Rgb { r: 52, g: 64, b: 84 }),
{
    Rgb { r: 52, g: 64, b: 84 }
}

/// The egui colour of a banner colour.
pub fn rgb_color(rgb: Rgb) -> (c: egui::Color32)
    ensures
        c == egui_rgb(rgb.r, rgb.g, rgb.b),
{
    color(rgb)
}

/// A banner: background colour, title, detail.
#[derive(Debug, Clone)]
pub struct FeedBanner {
    pub bg: Rgb,
    pub title: String,
    pub detail: String,
}

/// One labelled metric of a banner's second line.
#[derive(Debug, Clone)]
pub struct BannerMetric {
    pub label: String,
    pub value: String,
}

} // verus!
