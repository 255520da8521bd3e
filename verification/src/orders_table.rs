//! Order grid (Orders / Open Orders): columns, cells, and the sort state
//! that clicks on the headers change.

use vstd::prelude::*;

use crate::text::{str_eq, str_views, to_uppercase, unicode_upper};

verus! {

/// The order grid columns, in display order.
pub open spec fn order_columns() -> Seq<Seq<char>> {
    seq![
        "updated"@,
        "source"@,
        "flag"@,
        "symbol"@,
        "order_id"@,
        "side"@,
        "type"@,
        "status"@,
        "limit_px"@,
        "stop_px"@,
        "cur_px"@,
        "avg_px"@,
        "min_sell_px"@,
        "exec_qty"@,
        "orig_qty"@,
        "rem_qty"@,
        "tif"@,
        "client_id"@,
    ]
}

/// The order grid columns, in display order.
pub fn order_table_columns() -> (v: Vec<&'static str>)
    ensures
        str_views(v@) == order_columns(),
{
    let v: Vec<&'static str> = vec![
        "updated",
        "source",
        "flag",
        "symbol",
        "order_id",
        "side",
        "type",
        "status",
        "limit_px",
        "stop_px",
        "cur_px",
        "avg_px",
        "min_sell_px",
        "exec_qty",
        "orig_qty",
        "rem_qty",
        "tif",
        "client_id",
    ];
    assert(str_views(v@) =~= order_columns());
    v
}

/// Sort state of an order grid: column and direction.
#[derive(Clone, Debug)]
pub struct OrderTableSort {
    pub column: String,
    pub reverse: bool,
}

impl Default for OrderTableSort {
    /// Most recent first: column `updated`, reversed.
    fn default() -> (s: Self)
        ensures
            s.column@ == "updated"@,
            s.reverse,
    {
        OrderTableSort { column: String::from_str("updated"), reverse: true }
    }
}

/// Sort state after a header click on `key` among `visible` columns: a click
/// on the sort column flips the direction; a click on another visible column
/// sorts by it, reversed only for `updated`; anything else changes nothing.
pub open spec fn sort_click(
    column: Seq<char>,
    reverse: bool,
    key: Option<Seq<char>>,
    visible: Seq<Seq<char>>,
) -> (Seq<char>, bool) {
    match key {
        None => (column, reverse),
        Some(k) => if !visible.contains(k) {
            (column, reverse)
        } else if column == k {
            (column, !reverse)
        } else {
            (k, k == "updated"@)
        },
    }
}

/// The view of an optional string.
pub open spec fn opt_key(key: Option<String>) -> Option<Seq<char>> {
    match key {
        Some(k) => Some(k@),
        None => None,
    }
}

fn contains_str(visible: &[&str], key: &str) -> (r: bool)
    ensures
        r == str_views(visible@).contains(key@),
{
    let mut i: usize = 0;
    while i < visible.len()
        invariant
            i <= visible.len(),
            forall|k: int| 0 <= k < i ==> #[trigger] str_views(visible@)[k] != key@,
        decreases visible.len() - i,
    {
        if str_eq(visible[i], key) {
            assert(str_views(visible@)[i as int] == key@);
            return true;
        }
        i = i + 1;
    }
    false
}

/// Applies a header click on `key` among the `visible` columns.
pub fn apply_sort_click_for_columns(sort: &mut OrderTableSort, key: Option<String>, visible_columns: &[&str])
    ensures
        (final(sort).column@, final(sort).reverse) == sort_click(
            old(sort).column@,
            old(sort).reverse,
            opt_key(key),
            str_views(visible_columns@),
        ),
{
    let key = match key {
        Some(k) => k,
        None => {
            return ;
        },
    };
    if !contains_str(visible_columns, key.as_str()) {
        return ;
    }
    if sort.column == key {
        sort.reverse = !sort.reverse;
    } else {
        let is_updated = str_eq(key.as_str(), "updated");
        sort.column = key;
        sort.reverse = is_updated;
    }
}

/// Applies a header click on `key` among all the order grid columns.
pub fn apply_sort_click(sort: &mut OrderTableSort, key: Option<String>)
    ensures
        (final(sort).column@, final(sort).reverse) == sort_click(
            old(sort).column@,
            old(sort).reverse,
            opt_key(key),
            order_columns(),
        ),
{
    let cols = order_table_columns();
    apply_sort_click_for_columns(sort, key, cols.as_slice());
}

/// Keeps the sort column among the `visible` ones: when it is not, the first
/// visible column becomes the sort column, reversed only for `updated`.
pub fn keep_sort_column_visible(sort: &mut OrderTableSort, visible_columns: &[&str])
    ensures
        if visible_columns@.len() == 0 || str_views(visible_columns@).contains(old(sort).column@) {
            final(sort).column@ == old(sort).column@ && final(sort).reverse == old(sort).reverse
        } else {
            &&& final(sort).column@ == visible_columns@[0]@
            &&& final(sort).reverse == (visible_columns@[0]@ == "updated"@)
        },
{
    if visible_columns.len() == 0 {
        return ;
    }
    if contains_str(visible_columns, sort.column.as_str()) {
        return ;
    }
    sort.column = String::from_str(visible_columns[0]);
    sort.reverse = str_eq(visible_columns[0], "updated");
}

/// Texts of one order row, one per column.
#[derive(Clone, Debug)]
pub struct OrderGridCells {
    pub updated: String,
    pub source: String,
    pub flag: String,
    pub symbol: String,
    pub order_id: String,
    pub side: String,
    pub order_type: String,
    pub status: String,
    pub limit_px: String,
    pub stop_px: String,
    pub cur_px: String,
    pub avg_px: String,
    pub min_sell_px: String,
    pub exec_qty: String,
    pub orig_qty: String,
    pub rem_qty: String,
    pub tif: String,
    pub client_id: String,
}

impl OrderGridCells {
    /// The text of column `key`; empty for an unknown column.
    pub open spec fn cell(&self, key: Seq<char>) -> Seq<char> {
        if key == "updated"@ {
            self.updated@
        } else if key == "source"@ {
            self.source@
        } else if key == "flag"@ {
            self.flag@
        } else if key == "symbol"@ {
            self.symbol@
        } else if key == "order_id"@ {
            self.order_id@
        } else if key == "side"@ {
            self.side@
        } else if key == "type"@ {
            self.order_type@
        } else if key == "status"@ {
            self.status@
        } else if key == "limit_px"@ {
            self.limit_px@
        } else if key == "stop_px"@ {
            self.stop_px@
        } else if key == "cur_px"@ {
            self.cur_px@
        } else if key == "avg_px"@ {
            self.avg_px@
        } else if key == "min_sell_px"@ {
            self.min_sell_px@
        } else if key == "exec_qty"@ {
            self.exec_qty@
        } else if key == "orig_qty"@ {
            self.orig_qty@
        } else if key == "rem_qty"@ {
            self.rem_qty@
        } else if key == "tif"@ {
            self.tif@
        } else if key == "client_id"@ {
            self.client_id@
        } else {
            Seq::<char>::empty()
        }
    }

    /// A row with every cell empty.
    pub fn empty() -> (c: Self)
        ensures
            c.updated@ == Seq::<char>::empty(),
            c.source@ == Seq::<char>::empty(),
            c.flag@ == Seq::<char>::empty(),
            c.symbol@ == Seq::<char>::empty(),
            c.order_id@ == Seq::<char>::empty(),
            c.side@ == Seq::<char>::empty(),
            c.order_type@ == Seq::<char>::empty(),
            c.status@ == Seq::<char>::empty(),
            c.limit_px@ == Seq::<char>::empty(),
            c.stop_px@ == Seq::<char>::empty(),
            c.cur_px@ == Seq::<char>::empty(),
            c.avg_px@ == Seq::<char>::empty(),
            c.min_sell_px@ == Seq::<char>::empty(),
            c.exec_qty@ == Seq::<char>::empty(),
            c.orig_qty@ == Seq::<char>::empty(),
            c.rem_qty@ == Seq::<char>::empty(),
            c.tif@ == Seq::<char>::empty(),
            c.client_id@ == Seq::<char>::empty(),
    {
        OrderGridCells {
            updated: String::new(),
            source: String::new(),
            flag: String::new(),
            symbol: String::new(),
            order_id: String::new(),
            side: String::new(),
            order_type: String::new(),
            status: String::new(),
            limit_px: String::new(),
            stop_px: String::new(),
            cur_px: String::new(),
            avg_px: String::new(),
            min_sell_px: String::new(),
            exec_qty: String::new(),
            orig_qty: String::new(),
            rem_qty: String::new(),
            tif: String::new(),
            client_id: String::new(),
        }
    }

    /// The text of column `key`; empty for an unknown column.
    pub fn get(&self, key: &str) -> (r: &str)
        ensures
            r@ == self.cell(key@),
    {
        if str_eq(key, "updated") {
            return self.updated.as_str();
        }
        if str_eq(key, "source") {
            return self.source.as_str();
        }
        if str_eq(key, "flag") {
            return self.flag.as_str();
        }
        if str_eq(key, "symbol") {
            return self.symbol.as_str();
        }
        if str_eq(key, "order_id") {
            return self.order_id.as_str();
        }
        if str_eq(key, "side") {
            return self.side.as_str();
        }
        if str_eq(key, "type") {
            return self.order_type.as_str();
        }
        if str_eq(key, "status") {
            return self.status.as_str();
        }
        if str_eq(key, "limit_px") {
            return self.limit_px.as_str();
        }
        if str_eq(key, "stop_px") {
            return self.stop_px.as_str();
        }
        if str_eq(key, "cur_px") {
            return self.cur_px.as_str();
        }
        if str_eq(key, "avg_px") {
            return self.avg_px.as_str();
        }
        if str_eq(key, "min_sell_px") {
            return self.min_sell_px.as_str();
        }
        if str_eq(key, "exec_qty") {
            return self.exec_qty.as_str();
        }
        if str_eq(key, "orig_qty") {
            return self.orig_qty.as_str();
        }
        if str_eq(key, "rem_qty") {
            return self.rem_qty.as_str();
        }
        if str_eq(key, "tif") {
            return self.tif.as_str();
        }
        if str_eq(key, "client_id") {
            return self.client_id.as_str();
        }
        let e = "";
        proof {
            reveal_strlit("");
        }
        e
    }
}

/// Header label of column `key`: the fixed upper-case label of a known
/// column, else the Unicode upper case of the key.
pub open spec fn label_of(key: Seq<char>) -> Seq<char> {
        if key == "updated"@ {
            "UPDATED"@
        } else if key == "source"@ {
            "SOURCE"@
        } else if key == "flag"@ {
            "FLAG"@
        } else if key == "symbol"@ {
            "SYMBOL"@
        } else if key == "order_id"@ {
            "ORDER_ID"@
        } else if key == "side"@ {
            "SIDE"@
        } else if key == "type"@ {
            "TYPE"@
        } else if key == "status"@ {
            "STATUS"@
        } else if key == "limit_px"@ {
            "LIMIT_PX"@
        } else if key == "stop_px"@ {
            "STOP_PX"@
        } else if key == "cur_px"@ {
            "CUR_PX"@
        } else if key == "avg_px"@ {
            "AVG_PX"@
        } else if key == "exec_qty"@ {
            "EXEC_QTY"@
        } else if key == "orig_qty"@ {
            "ORIG_QTY"@
        } else if key == "rem_qty"@ {
            "REM_QTY"@
        } else if key == "tif"@ {
            "TIF"@
        } else if key == "client_id"@ {
            "CLIENT_ID"@
        } else {
            unicode_upper(key)
        }
}

/// Header label of column `key`.
pub fn column_label(key: &str) -> (r: String)
    ensures
        r@ == label_of(key@),
{
    if str_eq(key, "updated") {
        return String::from_str("UPDATED");
    }
    if str_eq(key, "source") {
        return String::from_str("SOURCE");
    }
    if str_eq(key, "flag") {
        return String::from_str("FLAG");
    }
    if str_eq(key, "symbol") {
        return String::from_str("SYMBOL");
    }
    if str_eq(key, "order_id") {
        return String::from_str("ORDER_ID");
    }
    if str_eq(key, "side") {
        return String::from_str("SIDE");
    }
    if str_eq(key, "type") {
        return String::from_str("TYPE");
    }
    if str_eq(key, "status") {
        return String::from_str("STATUS");
    }
    if str_eq(key, "limit_px") {
        return String::from_str("LIMIT_PX");
    }
    if str_eq(key, "stop_px") {
        return String::from_str("STOP_PX");
    }
    if str_eq(key, "cur_px") {
        return String::from_str("CUR_PX");
    }
    if str_eq(key, "avg_px") {
        return String::from_str("AVG_PX");
    }
    if str_eq(key, "exec_qty") {
        return String::from_str("EXEC_QTY");
    }
    if str_eq(key, "orig_qty") {
        return String::from_str("ORIG_QTY");
    }
    if str_eq(key, "rem_qty") {
        return String::from_str("REM_QTY");
    }
    if str_eq(key, "tif") {
        return String::from_str("TIF");
    }
    if str_eq(key, "client_id") {
        return String::from_str("CLIENT_ID");
    }
    to_uppercase(key)
}

/// Hover hint of column `key`: `Trier par` and its label.
pub open spec fn hint_of(key: Seq<char>) -> Seq<char> {
    "Trier par "@ + label_of(key)
}

/// Hover hint of column `key`.
pub fn column_hint(key: &str) -> (r: String)
    ensures
        r@ == hint_of(key@),
{
    let mut s = String::from_str("Trier par ");
    let l = column_label(key);
    s.append(l.as_str());
    s
}

/// A click on a visible column sorts by it, and clicking it again flips
/// the direction.
pub proof fn lemma_second_click_flips(column: Seq<char>, reverse: bool, key: Seq<char>, visible: Seq<Seq<char>>)
    requires
        visible.contains(key),
    ensures
        sort_click(column, reverse, Some(key), visible).0 == key,
        sort_click(
            sort_click(column, reverse, Some(key), visible).0,
            sort_click(column, reverse, Some(key), visible).1,
            Some(key),
            visible,
        ) == (key, !sort_click(column, reverse, Some(key), visible).1),
{
}

/// Clicking the sort column twice restores the sort state.
pub proof fn lemma_double_click_restores(column: Seq<char>, reverse: bool, visible: Seq<Seq<char>>)
    ensures
        ({
            let s1 = sort_click(column, reverse, Some(column), visible);
            sort_click(s1.0, s1.1, Some(column), visible) == (column, reverse)
        }),
{
}
/// Each column key reads the cell of its own column: `updated` the update
/// time, `limit_px` the limit price, `stop_px` the stop price, `type` the
/// order type, and so on for every column of the grid; an unknown key reads
/// an empty text.
pub proof fn lemma_cell_of_each_column(c: OrderGridCells, other: Seq<char>)
    requires
        !order_columns().contains(other),
    ensures
        c.cell("updated"@) == c.updated@,
        c.cell("source"@) == c.source@,
        c.cell("flag"@) == c.flag@,
        c.cell("symbol"@) == c.symbol@,
        c.cell("order_id"@) == c.order_id@,
        c.cell("side"@) == c.side@,
        c.cell("type"@) == c.order_type@,
        c.cell("status"@) == c.status@,
        c.cell("limit_px"@) == c.limit_px@,
        c.cell("stop_px"@) == c.stop_px@,
        c.cell("cur_px"@) == c.cur_px@,
        c.cell("avg_px"@) == c.avg_px@,
        c.cell("min_sell_px"@) == c.min_sell_px@,
        c.cell("exec_qty"@) == c.exec_qty@,
        c.cell("orig_qty"@) == c.orig_qty@,
        c.cell("rem_qty"@) == c.rem_qty@,
        c.cell("tif"@) == c.tif@,
        c.cell("client_id"@) == c.client_id@,
        c.cell(other) == Seq::<char>::empty(),
{
    reveal_strlit("updated");
    reveal_strlit("source");
    reveal_strlit("flag");
    reveal_strlit("symbol");
    reveal_strlit("order_id");
    reveal_strlit("side");
    reveal_strlit("type");
    reveal_strlit("status");
    reveal_strlit("limit_px");
    reveal_strlit("stop_px");
    reveal_strlit("cur_px");
    reveal_strlit("avg_px");
    reveal_strlit("min_sell_px");
    reveal_strlit("exec_qty");
    reveal_strlit("orig_qty");
    reveal_strlit("rem_qty");
    reveal_strlit("tif");
    reveal_strlit("client_id");
    assert("source"@.len() != "updated"@.len());
    assert("flag"@.len() != "updated"@.len());
    assert("flag"@.len() != "source"@.len());
    assert("symbol"@.len() != "updated"@.len());
    assert("symbol"@[1] != "source"@[1]);
    assert("symbol"@.len() != "flag"@.len());
    assert("order_id"@.len() != "updated"@.len());
    assert("order_id"@.len() != "source"@.len());
    assert("order_id"@.len() != "flag"@.len());
    assert("order_id"@.len() != "symbol"@.len());
    assert("side"@.len() != "updated"@.len());
    assert("side"@.len() != "source"@.len());
    assert("side"@[0] != "flag"@[0]);
    assert("side"@.len() != "symbol"@.len());
    assert("side"@.len() != "order_id"@.len());
    assert("type"@.len() != "updated"@.len());
    assert("type"@.len() != "source"@.len());
    assert("type"@[0] != "flag"@[0]);
    assert("type"@.len() != "symbol"@.len());
    assert("type"@.len() != "order_id"@.len());
    assert("type"@[0] != "side"@[0]);
    assert("status"@.len() != "updated"@.len());
    assert("status"@[1] != "source"@[1]);
    assert("status"@.len() != "flag"@.len());
    assert("status"@[1] != "symbol"@[1]);
    assert("status"@.len() != "order_id"@.len());
    assert("status"@.len() != "side"@.len());
    assert("status"@.len() != "type"@.len());
    assert("limit_px"@.len() != "updated"@.len());
    assert("limit_px"@.len() != "source"@.len());
    assert("limit_px"@.len() != "flag"@.len());
    assert("limit_px"@.len() != "symbol"@.len());
    assert("limit_px"@[0] != "order_id"@[0]);
    assert("limit_px"@.len() != "side"@.len());
    assert("limit_px"@.len() != "type"@.len());
    assert("limit_px"@.len() != "status"@.len());
    assert("stop_px"@[0] != "updated"@[0]);
    assert("stop_px"@.len() != "source"@.len());
    assert("stop_px"@.len() != "flag"@.len());
    assert("stop_px"@.len() != "symbol"@.len());
    assert("stop_px"@.len() != "order_id"@.len());
    assert("stop_px"@.len() != "side"@.len());
    assert("stop_px"@.len() != "type"@.len());
    assert("stop_px"@.len() != "status"@.len());
    assert("stop_px"@.len() != "limit_px"@.len());
    assert("cur_px"@.len() != "updated"@.len());
    assert("cur_px"@[0] != "source"@[0]);
    assert("cur_px"@.len() != "flag"@.len());
    assert("cur_px"@[0] != "symbol"@[0]);
    assert("cur_px"@.len() != "order_id"@.len());
    assert("cur_px"@.len() != "side"@.len());
    assert("cur_px"@.len() != "type"@.len());
    assert("cur_px"@[0] != "status"@[0]);
    assert("cur_px"@.len() != "limit_px"@.len());
    assert("cur_px"@.len() != "stop_px"@.len());
    assert("avg_px"@.len() != "updated"@.len());
    assert("avg_px"@[0] != "source"@[0]);
    assert("avg_px"@.len() != "flag"@.len());
    assert("avg_px"@[0] != "symbol"@[0]);
    assert("avg_px"@.len() != "order_id"@.len());
    assert("avg_px"@.len() != "side"@.len());
    assert("avg_px"@.len() != "type"@.len());
    assert("avg_px"@[0] != "status"@[0]);
    assert("avg_px"@.len() != "limit_px"@.len());
    assert("avg_px"@.len() != "stop_px"@.len());
    assert("avg_px"@[0] != "cur_px"@[0]);
    assert("min_sell_px"@.len() != "updated"@.len());
    assert("min_sell_px"@.len() != "source"@.len());
    assert("min_sell_px"@.len() != "flag"@.len());
    assert("min_sell_px"@.len() != "symbol"@.len());
    assert("min_sell_px"@.len() != "order_id"@.len());
    assert("min_sell_px"@.len() != "side"@.len());
    assert("min_sell_px"@.len() != "type"@.len());
    assert("min_sell_px"@.len() != "status"@.len());
    assert("min_sell_px"@.len() != "limit_px"@.len());
    assert("min_sell_px"@.len() != "stop_px"@.len());
    assert("min_sell_px"@.len() != "cur_px"@.len());
    assert("min_sell_px"@.len() != "avg_px"@.len());
    assert("exec_qty"@.len() != "updated"@.len());
    assert("exec_qty"@.len() != "source"@.len());
    assert("exec_qty"@.len() != "flag"@.len());
    assert("exec_qty"@.len() != "symbol"@.len());
    assert("exec_qty"@[0] != "order_id"@[0]);
    assert("exec_qty"@.len() != "side"@.len());
    assert("exec_qty"@.len() != "type"@.len());
    assert("exec_qty"@.len() != "status"@.len());
    assert("exec_qty"@[0] != "limit_px"@[0]);
    assert("exec_qty"@.len() != "stop_px"@.len());
    assert("exec_qty"@.len() != "cur_px"@.len());
    assert("exec_qty"@.len() != "avg_px"@.len());
    assert("exec_qty"@.len() != "min_sell_px"@.len());
    assert("orig_qty"@.len() != "updated"@.len());
    assert("orig_qty"@.len() != "source"@.len());
    assert("orig_qty"@.len() != "flag"@.len());
    assert("orig_qty"@.len() != "symbol"@.len());
    assert("orig_qty"@[2] != "order_id"@[2]);
    assert("orig_qty"@.len() != "side"@.len());
    assert("orig_qty"@.len() != "type"@.len());
    assert("orig_qty"@.len() != "status"@.len());
    assert("orig_qty"@[0] != "limit_px"@[0]);
    assert("orig_qty"@.len() != "stop_px"@.len());
    assert("orig_qty"@.len() != "cur_px"@.len());
    assert("orig_qty"@.len() != "avg_px"@.len());
    assert("orig_qty"@.len() != "min_sell_px"@.len());
    assert("orig_qty"@[0] != "exec_qty"@[0]);
    assert("rem_qty"@[0] != "updated"@[0]);
    assert("rem_qty"@.len() != "source"@.len());
    assert("rem_qty"@.len() != "flag"@.len());
    assert("rem_qty"@.len() != "symbol"@.len());
    assert("rem_qty"@.len() != "order_id"@.len());
    assert("rem_qty"@.len() != "side"@.len());
    assert("rem_qty"@.len() != "type"@.len());
    assert("rem_qty"@.len() != "status"@.len());
    assert("rem_qty"@.len() != "limit_px"@.len());
    assert("rem_qty"@[0] != "stop_px"@[0]);
    assert("rem_qty"@.len() != "cur_px"@.len());
    assert("rem_qty"@.len() != "avg_px"@.len());
    assert("rem_qty"@.len() != "min_sell_px"@.len());
    assert("rem_qty"@.len() != "exec_qty"@.len());
    assert("rem_qty"@.len() != "orig_qty"@.len());
    assert("tif"@.len() != "updated"@.len());
    assert("tif"@.len() != "source"@.len());
    assert("tif"@.len() != "flag"@.len());
    assert("tif"@.len() != "symbol"@.len());
    assert("tif"@.len() != "order_id"@.len());
    assert("tif"@.len() != "side"@.len());
    assert("tif"@.len() != "type"@.len());
    assert("tif"@.len() != "status"@.len());
    assert("tif"@.len() != "limit_px"@.len());
    assert("tif"@.len() != "stop_px"@.len());
    assert("tif"@.len() != "cur_px"@.len());
    assert("tif"@.len() != "avg_px"@.len());
    assert("tif"@.len() != "min_sell_px"@.len());
    assert("tif"@.len() != "exec_qty"@.len());
    assert("tif"@.len() != "orig_qty"@.len());
    assert("tif"@.len() != "rem_qty"@.len());
    assert("client_id"@.len() != "updated"@.len());
    assert("client_id"@.len() != "source"@.len());
    assert("client_id"@.len() != "flag"@.len());
    assert("client_id"@.len() != "symbol"@.len());
    assert("client_id"@.len() != "order_id"@.len());
    assert("client_id"@.len() != "side"@.len());
    assert("client_id"@.len() != "type"@.len());
    assert("client_id"@.len() != "status"@.len());
    assert("client_id"@.len() != "limit_px"@.len());
    assert("client_id"@.len() != "stop_px"@.len());
    assert("client_id"@.len() != "cur_px"@.len());
    assert("client_id"@.len() != "avg_px"@.len());
    assert("client_id"@.len() != "min_sell_px"@.len());
    assert("client_id"@.len() != "exec_qty"@.len());
    assert("client_id"@.len() != "orig_qty"@.len());
    assert("client_id"@.len() != "rem_qty"@.len());
    assert("client_id"@.len() != "tif"@.len());
    assert forall|i: int| 0 <= i < order_columns().len() implies order_columns()[i] != other by {}
    assert(order_columns()[0] == "updated"@);
    assert(order_columns()[1] == "source"@);
    assert(order_columns()[2] == "flag"@);
    assert(order_columns()[3] == "symbol"@);
    assert(order_columns()[4] == "order_id"@);
    assert(order_columns()[5] == "side"@);
    assert(order_columns()[6] == "type"@);
    assert(order_columns()[7] == "status"@);
    assert(order_columns()[8] == "limit_px"@);
    assert(order_columns()[9] == "stop_px"@);
    assert(order_columns()[10] == "cur_px"@);
    assert(order_columns()[11] == "avg_px"@);
    assert(order_columns()[12] == "min_sell_px"@);
    assert(order_columns()[13] == "exec_qty"@);
    assert(order_columns()[14] == "orig_qty"@);
    assert(order_columns()[15] == "rem_qty"@);
    assert(order_columns()[16] == "tif"@);
    assert(order_columns()[17] == "client_id"@);
}

} // verus!
