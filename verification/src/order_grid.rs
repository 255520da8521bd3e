//! Which order grid columns need their cell text.

use vstd::prelude::*;

use crate::text::{str_eq, str_views};

verus! {

/// A column is needed when it is visible or is the sort column.
pub open spec fn needed(visible: Seq<Seq<char>>, sort_column: Seq<char>, key: Seq<char>) -> bool {
    visible.contains(key) || sort_column == key
}

/// Whether column `key` must be formatted: visible on screen or the active
/// sort column.
pub fn column_needed(visible: &[&str], sort_column: &str, key: &str) -> (r: bool)
    ensures
        r == needed(str_views(visible@), sort_column@, key@),
{
    let mut i: usize = 0;
    while i < visible.len()
        invariant
            i <= visible.len(),
            forall|k: int| 0 <= k < i ==> #[trigger] str_views(visible@)[k] != key@,
        decreases visible.len() - i,
    {
        if str_eq(visible[i], key) {
            assert(str_views(visible@)[i as int] == key@);
            return true;
        }
        i = i + 1;
    }
    str_eq(sort_column, key)
}

} // verus!
