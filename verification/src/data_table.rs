//! Sortable table headers: what a header row reports.

use vstd::prelude::*;

verus! {

/// Events of a header row: the column key clicked for sorting, if any.
#[derive(Clone, Debug)]
pub struct TableHeaderEvent {
    pub sort_key: Option<String>,
}

impl Default for TableHeaderEvent {
    /// No click.
    fn default() -> (e: Self)
        ensures
            e.sort_key is None,
    {
        TableHeaderEvent { sort_key: None }
    }
}

} // verus!
