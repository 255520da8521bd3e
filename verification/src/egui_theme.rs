//! Palette colours as egui colours.

use vstd::prelude::*;

use crate::Rgb;

verus! {

#[verifier::external_type_specification]
#[verifier::external_body]
pub struct ExColor32(egui::Color32);

/// The opaque egui colour of three channels, as `Color32::from_rgb` builds it.
pub uninterp spec fn egui_rgb(r: u8, g: u8, b: u8) -> egui::Color32;

/// Calls `egui::Color32::from_rgb`: the opaque colour (alpha 255) of the three
/// channels, a function of them alone.
#[verifier::external_body]
fn color32_from_rgb(r: u8, g: u8, b: u8) -> (c: egui::Color32)
    ensures
        c == egui_rgb(r, g, b),
{
    egui::Color32::from_rgb(r, g, b)
}

/// The egui colour of a palette colour.
pub fn color(rgb: Rgb) -> (c: egui::Color32)
    ensures
        c == egui_rgb(rgb.r, rgb.g, rgb.b),
{
    color32_from_rgb(rgb.r, rgb.g, rgb.b)
}

} // verus!
