//! Launcher policy: whether the launcher asked to hide the Dock icon.

use vstd::prelude::*;

use crate::text::{trim, trim_str};

verus! {

/// The launcher asked to hide the Dock icon: the variable is set and, trimmed,
/// is `1`.
pub open spec fn hide_dock_value(value: Option<Seq<char>>) -> bool {
    match value {
        Some(v) => trim(v) == "1"@,
        None => false,
    }
}

/// Whether the value of `ALPHA_LAGOON_HIDE_DOCK` (`None` when unset or not
/// Unicode) asks to hide the Dock icon.
pub fn hide_dock_value_requested(value: Option<&str>) -> (r: bool)
    ensures
        r == hide_dock_value(
            match value {
                Some(v) => Some(v@),
                None => None,
            },
        ),
{
    match value {
        Some(v) => {
            let t = trim_str(v);
            crate::text::str_eq(t.as_str(), "1")
        },
        None => false,
    }
}

} // verus!
