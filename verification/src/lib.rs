//! Shared look and behaviour of the trading GUIs: colour palettes, issue
//! classification and journals, banner dismissal, order grid sorting, and
//! the text helpers they rest on.

use vstd::prelude::*;

pub mod app_issues;
pub mod banner;
pub mod banner_dismiss;
pub mod config_window;
pub mod data_table;
pub mod egui_theme;
pub mod issues;
pub mod journal;
pub mod launcher;
pub mod order_grid;
pub mod orders_table;
pub mod text;

pub use app_issues::{
    build_issue_board, connectivity_issue_board, issue_error_title, operational_issue_board,
    AppIssueReporter, DEFAULT_ISSUE_TTL_SECS, DEFAULT_MAX_BANNER_ISSUES, DEFAULT_MAX_ISSUE_RECORDS,
    DEFAULT_WARNING_BANNER_TITLE,
};
pub use banner::FeedBanner;
pub use issues::{append_journal_to_board, classify_issue_severity, IssueSeverity, StackIssueBoard};
pub use journal::IssueJournal;

verus! {

/// An RGB colour with one byte per channel.
#[derive(Clone, Copy, Debug, PartialEq, Eq, Structural)]
pub struct Rgb {
    pub r: u8,
    pub g: u8,
    pub b: u8,
}

impl Rgb {
    /// Builds a colour from its three channels.
    pub fn new(r: u8, g: u8, b: u8) -> (c: Self)
        ensures
            c == (Rgb { r, g, b }),
    {
        Rgb { r, g, b }
    }
}

/// Light or dark appearance.
#[derive(Clone, Copy, Debug, PartialEq, Eq, Structural)]
pub enum ThemeMode {
    Light,
    Dark,
}

/// Colours of one appearance: text, fills, widgets, selection, and the
/// buy / sell / mid / warning accents.
#[derive(Clone, Copy, Debug)]
pub struct TradingPalette {
    pub text: Rgb,
    pub muted: Rgb,
    pub window_fill: Rgb,
    pub panel_fill: Rgb,
    pub plot_bg: Rgb,
    pub faint_bg: Rgb,
    pub code_bg: Rgb,
    pub border: Rgb,
    pub grid: Rgb,
    pub widget_inactive: Rgb,
    pub widget_hovered: Rgb,
    pub widget_active: Rgb,
    pub widget_open: Rgb,
    pub selection_bg: Rgb,
    pub selection_stroke: Rgb,
    pub buy: Rgb,
    pub sell: Rgb,
    pub mid: Rgb,
    pub warning: Rgb,
}

/// Green of buy orders.
pub open spec fn buy_green_rgb() -> Rgb {
    Rgb { r: 0, g: 170, b: 80 }
}

/// Green of buy orders.
pub fn buy_green() -> (c: Rgb)
    ensures
        c == buy_green_rgb(),
{
    Rgb { r: 0, g: 170, b: 80 }
}

/// Red of sell orders.
pub open spec fn sell_red_rgb() -> Rgb {
    Rgb { r: 220, g: 45, b: 65 }
}

/// Red of sell orders.
pub fn sell_red() -> (c: Rgb)
    ensures
        c == sell_red_rgb(),
{
    Rgb { r: 220, g: 45, b: 65 }
}

/// Blue of the mid price.
pub open spec fn mid_blue_rgb() -> Rgb {
    Rgb { r: 60, g: 130, b: 255 }
}

/// Blue of the mid price.
pub fn mid_blue() -> (c: Rgb)
    ensures
        c == mid_blue_rgb(),
{
    Rgb { r: 60, g: 130, b: 255 }
}

/// Amber of warnings.
pub open spec fn warning_yellow_rgb() -> Rgb {
    Rgb { r: 220, g: 160, b: 20 }
}

/// Amber of warnings.
pub fn warning_yellow() -> (c: Rgb)
    ensures
        c == warning_yellow_rgb(),
{
    Rgb { r: 220, g: 160, b: 20 }
}

/// Colours of the dark appearance.
pub open spec fn dark_palette_colors() -> TradingPalette {
    TradingPalette {
    text: Rgb { r: 215, g: 215, b: 215 },
    muted: Rgb { r: 145, g: 145, b: 145 },
    window_fill: Rgb { r: 0, g: 0, b: 0 },
    panel_fill: Rgb { r: 0, g: 0, b: 0 },
    plot_bg: Rgb { r: 18, g: 18, b: 18 },
    faint_bg: Rgb { r: 10, g: 10, b: 10 },
    code_bg: Rgb { r: 10, g: 10, b: 10 },
    border: Rgb { r: 105, g: 105, b: 105 },
    grid: Rgb { r: 45, g: 45, b: 45 },
    widget_inactive: Rgb { r: 42, g: 42, b: 42 },
    widget_hovered: Rgb { r: 58, g: 58, b: 58 },
    widget_active: Rgb { r: 72, g: 72, b: 72 },
    widget_open: Rgb { r: 48, g: 48, b: 48 },
    selection_bg: Rgb { r: 55, g: 75, b: 110 },
    selection_stroke: Rgb { r: 235, g: 235, b: 235 },
    buy: buy_green_rgb(),
    sell: sell_red_rgb(),
    mid: mid_blue_rgb(),
    warning: warning_yellow_rgb(),
    }
}

/// Colours of the dark appearance.
pub fn dark_palette() -> (p: TradingPalette)
    ensures
        p == dark_palette_colors(),
{
    TradingPalette {
    text: Rgb { r: 215, g: 215, b: 215 },
    muted: Rgb { r: 145, g: 145, b: 145 },
    window_fill: Rgb { r: 0, g: 0, b: 0 },
    panel_fill: Rgb { r: 0, g: 0, b: 0 },
    plot_bg: Rgb { r: 18, g: 18, b: 18 },
    faint_bg: Rgb { r: 10, g: 10, b: 10 },
    code_bg: Rgb { r: 10, g: 10, b: 10 },
    border: Rgb { r: 105, g: 105, b: 105 },
    grid: Rgb { r: 45, g: 45, b: 45 },
    widget_inactive: Rgb { r: 42, g: 42, b: 42 },
    widget_hovered: Rgb { r: 58, g: 58, b: 58 },
    widget_active: Rgb { r: 72, g: 72, b: 72 },
    widget_open: Rgb { r: 48, g: 48, b: 48 },
    selection_bg: Rgb { r: 55, g: 75, b: 110 },
    selection_stroke: Rgb { r: 235, g: 235, b: 235 },
    buy: buy_green(),
    sell: sell_red(),
    mid: mid_blue(),
    warning: warning_yellow(),
    }
}

/// Colours of the light appearance.
pub open spec fn light_palette_colors() -> TradingPalette {
    TradingPalette {
    text: Rgb { r: 25, g: 25, b: 25 },
    muted: Rgb { r: 75, g: 75, b: 75 },
    window_fill: Rgb { r: 248, g: 248, b: 248 },
    panel_fill: Rgb { r: 248, g: 248, b: 248 },
    plot_bg: Rgb { r: 255, g: 255, b: 255 },
    faint_bg: Rgb { r: 238, g: 238, b: 238 },
    code_bg: Rgb { r: 242, g: 242, b: 242 },
    border: Rgb { r: 125, g: 125, b: 125 },
    grid: Rgb { r: 210, g: 210, b: 210 },
    widget_inactive: Rgb { r: 232, g: 232, b: 232 },
    widget_hovered: Rgb { r: 220, g: 228, b: 240 },
    widget_active: Rgb { r: 205, g: 218, b: 236 },
    widget_open: Rgb { r: 225, g: 225, b: 225 },
    selection_bg: Rgb { r: 190, g: 215, b: 245 },
    selection_stroke: Rgb { r: 25, g: 25, b: 25 },
    buy: Rgb { r: 0, g: 125, b: 55 },
    sell: Rgb { r: 190, g: 40, b: 60 },
    mid: Rgb { r: 35, g: 95, b: 190 },
    warning: Rgb { r: 180, g: 140, b: 0 },
    }
}

/// Colours of the light appearance.
pub fn light_palette() -> (p: TradingPalette)
    ensures
        p == light_palette_colors(),
{
    TradingPalette {
    text: Rgb { r: 25, g: 25, b: 25 },
    muted: Rgb { r: 75, g: 75, b: 75 },
    window_fill: Rgb { r: 248, g: 248, b: 248 },
    panel_fill: Rgb { r: 248, g: 248, b: 248 },
    plot_bg: Rgb { r: 255, g: 255, b: 255 },
    faint_bg: Rgb { r: 238, g: 238, b: 238 },
    code_bg: Rgb { r: 242, g: 242, b: 242 },
    border: Rgb { r: 125, g: 125, b: 125 },
    grid: Rgb { r: 210, g: 210, b: 210 },
    widget_inactive: Rgb { r: 232, g: 232, b: 232 },
    widget_hovered: Rgb { r: 220, g: 228, b: 240 },
    widget_active: Rgb { r: 205, g: 218, b: 236 },
    widget_open: Rgb { r: 225, g: 225, b: 225 },
    selection_bg: Rgb { r: 190, g: 215, b: 245 },
    selection_stroke: Rgb { r: 25, g: 25, b: 25 },
    buy: Rgb { r: 0, g: 125, b: 55 },
    sell: Rgb { r: 190, g: 40, b: 60 },
    mid: Rgb { r: 35, g: 95, b: 190 },
    warning: Rgb { r: 180, g: 140, b: 0 },
    }
}

/// The palette of an appearance.
pub open spec fn palette_of(mode: ThemeMode) -> TradingPalette {
    match mode {
        ThemeMode::Dark => dark_palette_colors(),
        ThemeMode::Light => light_palette_colors(),
    }
}

/// The palette of an appearance.
pub fn palette(mode: ThemeMode) -> (p: TradingPalette)
    ensures
        p == palette_of(mode),
{
    match mode {
        ThemeMode::Dark => dark_palette(),
        ThemeMode::Light => light_palette(),
    }
}

/// `s` in groups of three characters from the right, separated by spaces.
pub open spec fn group_thousands(s: Seq<char>) -> Seq<char>
    decreases s.len(),
{
    if s.len() <= 3 {
        s
    } else {
        group_thousands(s.subrange(0, s.len() - 3)) + seq![' '] + s.subrange(
            s.len() - 3,
            s.len() as int,
        )
    }
}

/// Index of the first `c` in `s`, if any.
pub open spec fn first_index(s: Seq<char>, c: char) -> Option<int>
    decreases s.len(),
{
    if s.len() == 0 {
        None
    } else if s[0] == c {
        Some(0)
    } else {
        match first_index(s.drop_first(), c) {
            Some(i) => Some(i + 1),
            None => None,
        }
    }
}

/// A French amount from the fixed-point text of its absolute value (four
/// decimals, `.` separator) and its sign: `-` when negative, the integer part
/// grouped by thousands with spaces, `,`, the decimals (`0000` when the text
/// has no `.`).
pub open spec fn amount_fr(negative: bool, fixed: Seq<char>) -> Seq<char> {
    let sign = if negative {
        seq!['-']
    } else {
        Seq::<char>::empty()
    };
    match first_index(fixed, '.') {
        Some(i) => sign + group_thousands(fixed.subrange(0, i)) + seq![','] + fixed.subrange(
            i + 1,
            fixed.len() as int,
        ),
        None => sign + group_thousands(fixed) + seq![','] + "0000"@,
    }
}

proof fn lemma_first_index(s: Seq<char>, c: char, i: int)
    requires
        0 <= i <= s.len(),
        forall|k: int| 0 <= k < i ==> s[k] != c,
        i < s.len() ==> s[i] == c,
    ensures
        first_index(s, c) == if i < s.len() {
            Some(i)
        } else {
            None::<int>
        },
    decreases i,
{
    if i > 0 {
        lemma_first_index(s.drop_first(), c, i - 1);
    }
}

fn group_thousands_chars(s: &Vec<char>) -> (r: Vec<char>)
    ensures
        r@ == group_thousands(s@),
{
    let n = s.len();
    let mut first: usize = n % 3;
    if first == 0 {
        first = 3;
    }
    if n <= 3 {
        first = n;
    }
    let mut out: Vec<char> = Vec::new();
    let mut j: usize = 0;
    while j < first
        invariant
            j <= first <= n,
            n == s@.len(),
            out@ == s@.subrange(0, j as int),
        decreases first - j,
    {
        out.push(s[j]);
        assert(s@.subrange(0, j + 1) =~= s@.subrange(0, j as int).push(s@[j as int]));
        j = j + 1;
    }
    let ghost mut k: int = (n - first) / 3;
    assert(n == first + 3 * k);
    assert(first <= 3);
    assert(out@ == group_thousands(s@.subrange(0, first as int)));
    let mut i: usize = first;
    while i < n
        invariant
            n == s@.len(),
            1 <= i <= n || n == 0,
            first <= i,
            k >= 0,
            n == i + 3 * k,
            out@ == group_thousands(s@.subrange(0, i as int)),
        decreases k,
    {
        let ghost pre = s@.subrange(0, i as int);
        let ghost nxt = s@.subrange(0, i + 3);
        assert(nxt.subrange(0, nxt.len() - 3) =~= pre);
        assert(nxt.subrange(nxt.len() - 3, nxt.len() as int) =~= seq![s@[i as int], s@[i + 1], s@[i + 2]]);
        out.push(' ');
        out.push(s[i]);
        out.push(s[i + 1]);
        out.push(s[i + 2]);
        assert(out@ =~= group_thousands(pre) + seq![' '] + seq![s@[i as int], s@[i + 1], s@[i + 2]]);
        i = i + 3;
        proof {
            k = k - 1;
        }
    }
    assert(s@.subrange(0, n as int) =~= s@);
    out
}

/// A French amount from the fixed-point text of its absolute value and its
/// sign (see `amount_fr`).
pub fn format_amount_fr_fixed(negative: bool, fixed: &str) -> (r: String)
    ensures
        r@ == amount_fr(negative, fixed@),
{
    let cs = crate::text::chars_of(fixed);
    let n = cs.len();
    let mut i: usize = 0;
    while i < n && cs[i] != '.'
        invariant
            i <= n,
            n == cs@.len(),
            forall|k: int| 0 <= k < i ==> cs@[k] != '.',
        decreases n - i,
    {
        i = i + 1;
    }
    proof {
        lemma_first_index(cs@, '.', i as int);
    }
    let mut int_part: Vec<char> = Vec::new();
    let mut j: usize = 0;
    while j < i
        invariant
            j <= i <= n,
            n == cs@.len(),
            int_part@ == cs@.subrange(0, j as int),
        decreases i - j,
    {
        int_part.push(cs[j]);
        assert(cs@.subrange(0, j + 1) =~= cs@.subrange(0, j as int).push(cs@[j as int]));
        j = j + 1;
    }
    let grouped = group_thousands_chars(&int_part);
    let mut out: Vec<char> = Vec::new();
    if negative {
        out.push('-');
    }
    let ghost sign = out@;
    let mut g: usize = 0;
    while g < grouped.len()
        invariant
            g <= grouped.len(),
            out@ == sign + grouped@.subrange(0, g as int),
        decreases grouped.len() - g,
    {
        out.push(grouped[g]);
        assert(grouped@.subrange(0, g + 1) =~= grouped@.subrange(0, g as int).push(grouped@[g as int]));
        g = g + 1;
    }
    assert(grouped@.subrange(0, grouped.len() as int) =~= grouped@);
    out.push(',');
    let ghost head = out@;
    if i < n {
        let mut f: usize = i + 1;
        while f < n
            invariant
                i + 1 <= f <= n,
                n == cs@.len(),
                out@ == head + cs@.subrange(i + 1, f as int),
            decreases n - f,
        {
            out.push(cs[f]);
            assert(cs@.subrange(i + 1, f + 1) =~= cs@.subrange(i + 1, f as int).push(cs@[f as int]));
            f = f + 1;
        }
        assert(out@ =~= amount_fr(negative, fixed@));
    } else {
        out.push('0');
        out.push('0');
        out.push('0');
        out.push('0');
        proof {
            reveal_strlit("0000");
            assert(cs@.subrange(0, n as int) =~= cs@);
        }
        assert(out@ =~= amount_fr(negative, fixed@));
    }
    crate::text::string_of(&out)
}

/// `s` without its spaces.
pub open spec fn without_spaces(s: Seq<char>) -> Seq<char>
    decreases s.len(),
{
    if s.len() == 0 {
        s
    } else if s.last() == ' ' {
        without_spaces(s.drop_last())
    } else {
        without_spaces(s.drop_last()).push(s.last())
    }
}

proof fn lemma_without_spaces_concat(a: Seq<char>, b: Seq<char>)
    ensures
        without_spaces(a + b) == without_spaces(a) + without_spaces(b),
    decreases b.len(),
{
    if b.len() == 0 {
        assert(a + b =~= a);
        assert(without_spaces(a) + without_spaces(b) =~= without_spaces(a));
    } else {
        lemma_without_spaces_concat(a, b.drop_last());
        assert((a + b).drop_last() =~= a + b.drop_last());
        assert((a + b).last() == b.last());
        if b.last() != ' ' {
            assert(without_spaces(a) + without_spaces(b.drop_last()).push(b.last()) =~= (without_spaces(a)
                + without_spaces(b.drop_last())).push(b.last()));
        }
    }
}

proof fn lemma_without_spaces_plain(s: Seq<char>)
    requires
        !s.contains(' '),
    ensures
        without_spaces(s) == s,
    decreases s.len(),
{
    if s.len() > 0 {
        assert(!s.drop_last().contains(' ')) by {
            if s.drop_last().contains(' ') {
                let i = choose|i: int| 0 <= i < s.drop_last().len() && s.drop_last()[i] == ' ';
                assert(s[i] == ' ');
            }
        }
        lemma_without_spaces_plain(s.drop_last());
        assert(s[s.len() - 1] == s.last());
        assert(s.drop_last().push(s.last()) =~= s);
    }
}

/// Grouping by thousands only inserts spaces: taking the spaces out of the
/// grouped integer part gives the digits back, and every group after the
/// first has exactly three characters.
pub proof fn lemma_grouping_keeps_digits(s: Seq<char>)
    requires
        !s.contains(' '),
    ensures
        without_spaces(group_thousands(s)) == s,
        s.len() > 3 ==> group_thousands(s).subrange(
            group_thousands(s).len() - 4,
            group_thousands(s).len() as int,
        ) == seq![' '] + s.subrange(s.len() - 3, s.len() as int),
    decreases s.len(),
{
    if s.len() <= 3 {
        lemma_without_spaces_plain(s);
    } else {
        let head = s.subrange(0, s.len() - 3);
        let tail = s.subrange(s.len() - 3, s.len() as int);
        assert(!head.contains(' ')) by {
            if head.contains(' ') {
                let i = choose|i: int| 0 <= i < head.len() && head[i] == ' ';
                assert(s[i] == ' ');
            }
        }
        assert(!tail.contains(' ')) by {
            if tail.contains(' ') {
                let i = choose|i: int| 0 <= i < tail.len() && tail[i] == ' ';
                assert(s[s.len() - 3 + i] == ' ');
            }
        }
        lemma_grouping_keeps_digits(head);
        lemma_without_spaces_plain(tail);
        let g = group_thousands(head);
        lemma_without_spaces_concat(g + seq![' '], tail);
        lemma_without_spaces_concat(g, seq![' ']);
        let sp = seq![' '];
        assert(sp.drop_last() =~= Seq::<char>::empty());
        assert(sp.last() == ' ');
        assert(without_spaces(sp) == without_spaces(sp.drop_last()));
        assert(without_spaces(Seq::<char>::empty()) =~= Seq::<char>::empty());
        assert(head + tail =~= s);
        let full = g + seq![' '] + tail;
        assert(full.subrange(full.len() - 4, full.len() as int) =~= seq![' '] + tail);
    }
}
/// The accents of both palettes are the stack's colours, and in each
/// appearance buy, sell, mid and warning are four different colours.
pub proof fn lemma_palette_accents(mode: ThemeMode)
    ensures
        palette_of(ThemeMode::Dark).buy == (Rgb { r: 0, g: 170, b: 80 }),
        palette_of(ThemeMode::Dark).sell == (Rgb { r: 220, g: 45, b: 65 }),
        palette_of(ThemeMode::Dark).mid == (Rgb { r: 60, g: 130, b: 255 }),
        palette_of(ThemeMode::Dark).warning == (Rgb { r: 220, g: 160, b: 20 }),
        palette_of(ThemeMode::Light).buy == (Rgb { r: 0, g: 125, b: 55 }),
        palette_of(ThemeMode::Light).sell == (Rgb { r: 190, g: 40, b: 60 }),
        palette_of(ThemeMode::Light).mid == (Rgb { r: 35, g: 95, b: 190 }),
        palette_of(ThemeMode::Light).warning == (Rgb { r: 180, g: 140, b: 0 }),
        palette_of(mode).buy != palette_of(mode).sell,
        palette_of(mode).buy != palette_of(mode).mid,
        palette_of(mode).buy != palette_of(mode).warning,
        palette_of(mode).sell != palette_of(mode).mid,
        palette_of(mode).sell != palette_of(mode).warning,
        palette_of(mode).mid != palette_of(mode).warning,
{
}

} // verus!
