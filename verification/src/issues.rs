//! Error / warning classification of operational messages and the stacked
//! issue board shared by the trading GUIs (the TTL journal is in `journal`).

use vstd::prelude::*;

pub use crate::journal::IssueJournal;
use crate::journal::active;
use crate::text::{
    chars_of, contains_seq, is_trimmed, join, split_chars, split_on, str_contains, to_uppercase,
    trim, trim_str, unicode_upper, views,
};

verus! {

/// How an operational message is shown: red error banner or amber warning.
#[derive(Debug, Clone, Copy, PartialEq, Eq, Structural)]
pub enum IssueSeverity {
    Error,
    Warning,
}

/// Markers that always make a message a warning, whatever else it holds.
pub open spec fn warn_only_markers() -> Seq<Seq<char>> {
    seq![
        "ORDERBOOK_RECEPTION_LATE"@,
        "MARKET_DATA_FLAT_BUT_WS_ALIVE"@,
        "WS SANS DONNÉES"@,
        "WS SANS DONNEES"@,
        "ATTENTE CARNET"@,
        "ORDER_BLOCKED"@,
        "WS_TRADING_OFF"@,
        "_SNAPSHOT_EMPTY"@,
        "REFERENCE_SNAPSHOT_EMPTY"@,
        "OKX_SNAPSHOT_EMPTY"@,
        "KRAKEN_SNAPSHOT_EMPTY"@,
        "COINBASE_SNAPSHOT_EMPTY"@,
        "SYMBOL_RULES_EMPTY"@,
    ]
}

/// Markers that make a message an error when no warning marker is present.
pub open spec fn error_markers() -> Seq<Seq<char>> {
    seq![
        "CRITIQUE"@,
        "CRITICAL"@,
        "FAILED"@,
        "FAIL"@,
        "ERROR"@,
        "UNAVAILABLE"@,
        "BLOQU"@,
        "INDISPONIBLE"@,
        "429"@,
        "RATE LIMIT"@,
        "HARD_STALE"@,
        "ORDERBOOK_CROSSED"@,
        "ORDER_FAILED"@,
        "WS_UNAVAILABLE"@,
        "WS_TRADING"@,
        "ADD_ORDER"@,
        "REST_ERROR"@,
        "WS_ERROR"@,
        "WS_CONNECT_FAILED"@,
        "SUBSCRIBE_FAILED"@,
        "TOKIO_RUNTIME"@,
        "STATICS"@,
        "CONNECTIVITY"@,
        "IGNORÉ"@,
        "IGNORED"@,
        "DOWN"@,
        "OFFLINE"@,
        "MANQUANT"@,
    ]
}

/// Some marker of `markers` occurs in `u`.
pub open spec fn has_marker(u: Seq<char>, markers: Seq<Seq<char>>) -> bool {
    exists|i: int| 0 <= i < markers.len() && contains_seq(u, #[trigger] markers[i])
}

/// Severity of a message already mapped to upper case.
pub open spec fn severity_of_upper(u: Seq<char>) -> IssueSeverity {
    if has_marker(u, warn_only_markers()) {
        IssueSeverity::Warning
    } else if has_marker(u, error_markers()) {
        IssueSeverity::Error
    } else {
        IssueSeverity::Warning
    }
}

/// Severity of a message: its Unicode upper case is searched for the markers.
pub open spec fn severity_of(text: Seq<char>) -> IssueSeverity {
    severity_of_upper(unicode_upper(text))
}

fn warn_only_marker_list() -> (v: Vec<&'static str>)
    ensures
        v@.map_values(|m: &str| m@) == warn_only_markers(),
{
    let v: Vec<&'static str> = vec![
        "ORDERBOOK_RECEPTION_LATE",
        "MARKET_DATA_FLAT_BUT_WS_ALIVE",
        "WS SANS DONNÉES",
        "WS SANS DONNEES",
        "ATTENTE CARNET",
        "ORDER_BLOCKED",
        "WS_TRADING_OFF",
        "_SNAPSHOT_EMPTY",
        "REFERENCE_SNAPSHOT_EMPTY",
        "OKX_SNAPSHOT_EMPTY",
        "KRAKEN_SNAPSHOT_EMPTY",
        "COINBASE_SNAPSHOT_EMPTY",
        "SYMBOL_RULES_EMPTY",
    ];
    assert(v@.map_values(|m: &str| m@) =~= warn_only_markers());
    v
}

fn error_marker_list() -> (v: Vec<&'static str>)
    ensures
        v@.map_values(|m: &str| m@) == error_markers(),
{
    let v: Vec<&'static str> = vec![
        "CRITIQUE",
        "CRITICAL",
        "FAILED",
        "FAIL",
        "ERROR",
        "UNAVAILABLE",
        "BLOQU",
        "INDISPONIBLE",
        "429",
        "RATE LIMIT",
        "HARD_STALE",
        "ORDERBOOK_CROSSED",
        "ORDER_FAILED",
        "WS_UNAVAILABLE",
        "WS_TRADING",
        "ADD_ORDER",
        "REST_ERROR",
        "WS_ERROR",
        "WS_CONNECT_FAILED",
        "SUBSCRIBE_FAILED",
        "TOKIO_RUNTIME",
        "STATICS",
        "CONNECTIVITY",
        "IGNORÉ",
        "IGNORED",
        "DOWN",
        "OFFLINE",
        "MANQUANT",
    ];
    assert(v@.map_values(|m: &str| m@) =~= error_markers());
    v
}

fn any_marker(u: &Vec<char>, markers: &Vec<&str>) -> (r: bool)
    ensures
        r == has_marker(u@, markers@.map_values(|m: &str| m@)),
{
    let ghost ms = markers@.map_values(|m: &str| m@);
    let mut i: usize = 0;
    while i < markers.len()
        invariant
            i <= markers.len(),
            ms == markers@.map_values(|m: &str| m@),
            forall|k: int| 0 <= k < i ==> !contains_seq(u@, #[trigger] ms[k]),
        decreases markers.len() - i,
    {
        if str_contains(u, markers[i]) {
            assert(contains_seq(u@, ms[i as int]));
            return true;
        }
        i = i + 1;
    }
    false
}

/// Severity of a message that is already in upper case.
pub fn classify_upper(upper: &str) -> (s: IssueSeverity)
    ensures
        s == severity_of_upper(upper@),
{
    let u = chars_of(upper);
    if any_marker(&u, &warn_only_marker_list()) {
        IssueSeverity::Warning
    } else if any_marker(&u, &error_marker_list()) {
        IssueSeverity::Error
    } else {
        IssueSeverity::Warning
    }
}

/// Classifies an operational message as error or warning.
pub fn classify_issue_severity(text: &str) -> (s: IssueSeverity)
    ensures
        s == severity_of(text@),
{
    let upper = to_uppercase(text);
    classify_upper(upper.as_str())
}

/// `lines` with the trimmed `text` appended, unless it is empty or already there.
pub open spec fn push_unique(lines: Seq<Seq<char>>, text: Seq<char>) -> Seq<Seq<char>> {
    let t = trim(text);
    if t.len() == 0 || lines.contains(t) {
        lines
    } else {
        lines.push(t)
    }
}

/// Every line is non-empty, trimmed, and no line occurs twice.
pub open spec fn lines_wf(lines: Seq<Seq<char>>) -> bool {
    &&& forall|i: int| 0 <= i < lines.len() ==> #[trigger] lines[i].len() > 0 && is_trimmed(lines[i])
    &&& forall|i: int, j: int| 0 <= i < j < lines.len() ==> lines[i] != lines[j]
}

/// Appends the trimmed `text` to `lines` unless it is empty or already present.
pub fn push_unique_line(lines: &mut Vec<String>, text: String)
    ensures
        views(final(lines)@) == push_unique(views(old(lines)@), text@),
{
    let t = trim_str(text.as_str());
    if t.as_str().unicode_len() == 0 {
        return;
    }
    let mut i: usize = 0;
    while i < lines.len()
        invariant
            i <= lines.len(),
            lines@ == old(lines)@,
            t@ == trim(text@),
            forall|k: int| 0 <= k < i ==> #[trigger] views(lines@)[k] != t@,
        decreases lines.len() - i,
    {
        if lines[i] == t {
            assert(views(lines@)[i as int] == t@);
            return;
        }
        i = i + 1;
    }
    let ghost before = views(lines@);
    assert(!before.contains(t@));
    lines.push(t);
    assert(views(lines@) =~= before.push(t@));
}

/// Board model: (errors, warnings).
pub type BoardModel = (Seq<Seq<char>>, Seq<Seq<char>>);

/// `board` after one classified fragment: the trimmed text goes to the errors
/// or to the warnings, by its severity, without duplicates.
pub open spec fn classified_push(board: BoardModel, text: Seq<char>) -> BoardModel {
    let t = trim(text);
    if t.len() == 0 {
        board
    } else if severity_of(t) == IssueSeverity::Error {
        (push_unique(board.0, t), board.1)
    } else {
        (board.0, push_unique(board.1, t))
    }
}

/// `board` after each fragment of `frags`, in order.
pub open spec fn classified_push_all(board: BoardModel, frags: Seq<Seq<char>>) -> BoardModel
    decreases frags.len(),
{
    if frags.len() == 0 {
        board
    } else {
        classified_push(classified_push_all(board, frags.drop_last()), frags.last())
    }
}

/// Classifies `text` and appends it, trimmed, to `errors` or `warnings`.
pub fn append_classified_fragment(errors: &mut Vec<String>, warnings: &mut Vec<String>, text: String)
    ensures
        (views(final(errors)@), views(final(warnings)@)) == classified_push(
            (views(old(errors)@), views(old(warnings)@)),
            text@,
        ),
{
    let t = trim_str(text.as_str());
    if t.as_str().unicode_len() == 0 {
        return;
    }
    proof {
        crate::text::lemma_trim_idempotent(text@);
    }
    match classify_issue_severity(t.as_str()) {
        IssueSeverity::Error => push_unique_line(errors, t),
        IssueSeverity::Warning => push_unique_line(warnings, t),
    }
}

/// The non-empty texts of `s`, in order.
pub open spec fn non_empty(s: Seq<Seq<char>>) -> Seq<Seq<char>>
    decreases s.len(),
{
    if s.len() == 0 {
        s
    } else if s.last().len() == 0 {
        non_empty(s.drop_last())
    } else {
        non_empty(s.drop_last()).push(s.last())
    }
}

/// The banner separator character `·`.
pub open spec fn banner_sep() -> char {
    '\u{b7}'
}

/// Fragments of a combined banner text: pieces between `·`, trimmed, empty
/// ones dropped.
pub open spec fn banner_fragments(combined: Seq<char>) -> Seq<Seq<char>> {
    non_empty(split_on(combined, banner_sep()).map_values(|p: Seq<char>| trim(p)))
}

/// Splits a combined banner text on `·` into trimmed, non-empty fragments.
pub fn split_banner_fragments(combined: &str) -> (r: Vec<String>)
    ensures
        views(r@) == banner_fragments(combined@),
{
    let cs = chars_of(combined);
    let pieces = split_chars(&cs, '\u{b7}');
    let ghost trimmed = split_on(combined@, banner_sep()).map_values(|p: Seq<char>| trim(p));
    let mut out: Vec<String> = Vec::new();
    let mut i: usize = 0;
    while i < pieces.len()
        invariant
            i <= pieces.len(),
            pieces@.map_values(|p: Vec<char>| p@) == split_on(combined@, banner_sep()),
            trimmed == split_on(combined@, banner_sep()).map_values(|p: Seq<char>| trim(p)),
            views(out@) == non_empty(trimmed.subrange(0, i as int)),
        decreases pieces.len() - i,
    {
        let s = crate::text::string_of(&pieces[i]);
        let t = trim_str(s.as_str());
        assert(trimmed.subrange(0, i + 1).drop_last() =~= trimmed.subrange(0, i as int));
        assert(t@ == trimmed[i as int]);
        if t.as_str().unicode_len() > 0 {
            let ghost before = views(out@);
            out.push(t);
            assert(views(out@) =~= before.push(trimmed[i as int]));
        }
        i = i + 1;
    }
    assert(trimmed.subrange(0, pieces.len() as int) =~= trimmed);
    out
}

/// `push_unique` keeps the lines well formed.
pub proof fn lemma_push_unique_wf(lines: Seq<Seq<char>>, text: Seq<char>)
    requires
        lines_wf(lines),
    ensures
        lines_wf(push_unique(lines, text)),
{
    crate::text::lemma_trim_is_trimmed(text);
    let t = trim(text);
    if !(t.len() == 0 || lines.contains(t)) {
        let r = lines.push(t);
        assert forall|i: int, j: int| 0 <= i < j < r.len() implies r[i] != r[j] by {
            if j == lines.len() {
                assert(lines[i] != t) by {
                    if lines[i] == t {
                        assert(lines.contains(t));
                    }
                }
            }
        }
    }
}

/// `classified_push` keeps both lists well formed.
pub proof fn lemma_classified_push_wf(board: BoardModel, text: Seq<char>)
    requires
        lines_wf(board.0),
        lines_wf(board.1),
    ensures
        lines_wf(classified_push(board, text).0),
        lines_wf(classified_push(board, text).1),
{
    lemma_push_unique_wf(board.0, trim(text));
    lemma_push_unique_wf(board.1, trim(text));
}

/// The board of a combined banner text: empty when the text is blank, the
/// classified `·` fragments when it holds a `·`, else the whole trimmed text.
pub open spec fn combined_board(text: Seq<char>) -> BoardModel {
    let t = trim(text);
    let empty: BoardModel = (Seq::empty(), Seq::empty());
    if t.len() == 0 {
        empty
    } else if t.contains(banner_sep()) {
        classified_push_all(empty, banner_fragments(t))
    } else {
        classified_push(empty, t)
    }
}

/// One step of moving journal entries into a board: an entry goes to its
/// list while that list holds fewer than `max` lines.
pub open spec fn board_take(board: BoardModel, entry: (IssueSeverity, Seq<char>), max: nat) -> BoardModel {
    match entry.0 {
        IssueSeverity::Error => if board.0.len() < max {
            (push_unique(board.0, entry.1), board.1)
        } else {
            board
        },
        IssueSeverity::Warning => if board.1.len() < max {
            (board.0, push_unique(board.1, entry.1))
        } else {
            board
        },
    }
}

/// `board` after each of `entries`, in order.
pub open spec fn board_take_all(board: BoardModel, entries: Seq<(IssueSeverity, Seq<char>)>, max: nat) -> BoardModel
    decreases entries.len(),
{
    if entries.len() == 0 {
        board
    } else {
        board_take(board_take_all(board, entries.drop_last(), max), entries.last(), max)
    }
}

/// Views of (severity, text) pairs.
pub open spec fn entry_views(v: Seq<(IssueSeverity, String)>) -> Seq<(IssueSeverity, Seq<char>)> {
    v.map_values(|e: (IssueSeverity, String)| (e.0, e.1@))
}

/// Stacked error / warning banner content, without the TTL journal.
#[derive(Debug)]
pub struct StackIssueBoard {
    errors: Vec<String>,
    warnings: Vec<String>,
}

impl View for StackIssueBoard {
    type V = BoardModel;

    closed spec fn view(&self) -> BoardModel {
        (views(self.errors@), views(self.warnings@))
    }
}

impl StackIssueBoard {
    /// Both lists hold distinct, non-empty, trimmed lines.
    pub closed spec fn wf(&self) -> bool {
        lines_wf(self@.0) && lines_wf(self@.1)
    }

    /// An empty board.
    pub fn new() -> (b: Self)
        ensures
            b@ == (Seq::<Seq<char>>::empty(), Seq::<Seq<char>>::empty()),
            b.wf(),
    {
        let b = StackIssueBoard { errors: Vec::new(), warnings: Vec::new() };
        assert(b@.0 =~= Seq::<Seq<char>>::empty());
        assert(b@.1 =~= Seq::<Seq<char>>::empty());
        b
    }

    /// A board holding each fragment, classified, in order.
    pub fn from_fragments(fragments: &[String]) -> (b: Self)
        ensures
            b@ == classified_push_all(
                (Seq::<Seq<char>>::empty(), Seq::<Seq<char>>::empty()),
                views(fragments@),
            ),
            b.wf(),
    {
        let mut board = Self::new();
        board.extend_fragments(fragments);
        board
    }

    /// A board from a combined banner text: split on `·` when it holds one.
    pub fn from_combined_text(text: &str) -> (b: Self)
        ensures
            b@ == combined_board(text@),
            b.wf(),
    {
        let mut board = Self::new();
        let trimmed = trim_str(text);
        if trimmed.as_str().unicode_len() == 0 {
            return board;
        }
        let cs = chars_of(trimmed.as_str());
        let mut has_sep = false;
        let mut i: usize = 0;
        while i < cs.len()
            invariant
                i <= cs.len(),
                has_sep == (exists|k: int| 0 <= k < i && cs@[k] == banner_sep()),
            decreases cs.len() - i,
        {
            if cs[i] == '\u{b7}' {
                has_sep = true;
            }
            i = i + 1;
        }
        proof {
            if has_sep {
                let k = choose|k: int| 0 <= k < cs@.len() && cs@[k] == banner_sep();
                assert(trimmed@.contains(banner_sep())) by {
                    assert(trimmed@[k] == banner_sep());
                }
            } else {
                assert(!trimmed@.contains(banner_sep()));
            }
        }
        if has_sep {
            let frags = split_banner_fragments(trimmed.as_str());
            board.extend_fragments(frags.as_slice());
        } else {
            board.push_fragment(trimmed.as_str());
        }
        board
    }

    /// Appends each fragment, classified, in order.
    pub fn extend_fragments(&mut self, fragments: &[String])
        requires
            old(self).wf(),
        ensures
            final(self)@ == classified_push_all(old(self)@, views(fragments@)),
            final(self).wf(),
    {
        let mut i: usize = 0;
        while i < fragments.len()
            invariant
                i <= fragments.len(),
                self.wf(),
                self@ == classified_push_all(old(self)@, views(fragments@).subrange(0, i as int)),
            decreases fragments.len() - i,
        {
            let ghost pre = views(fragments@).subrange(0, i as int);
            assert(views(fragments@).subrange(0, i + 1).drop_last() =~= pre);
            self.push_fragment(fragments[i].as_str());
            i = i + 1;
        }
        assert(views(fragments@).subrange(0, fragments.len() as int) =~= views(fragments@));
    }

    /// Classifies `text` and adds it to the errors or the warnings.
    pub fn push_fragment(&mut self, text: &str)
        requires
            old(self).wf(),
        ensures
            final(self)@ == classified_push(old(self)@, text@),
            final(self).wf(),
    {
        proof {
            lemma_classified_push_wf(self@, text@);
        }
        append_classified_fragment(&mut self.errors, &mut self.warnings, String::from_str(text));
    }

    /// Adds `text` to the errors, trimmed, unless blank or already there.
    pub fn push_error(&mut self, text: &str)
        requires
            old(self).wf(),
        ensures
            final(self)@ == (push_unique(old(self)@.0, text@), old(self)@.1),
            final(self).wf(),
    {
        proof {
            lemma_push_unique_wf(self@.0, text@);
        }
        push_unique_line(&mut self.errors, String::from_str(text));
    }

    /// Adds `text` to the warnings, trimmed, unless blank or already there.
    pub fn push_warning(&mut self, text: &str)
        requires
            old(self).wf(),
        ensures
            final(self)@ == (old(self)@.0, push_unique(old(self)@.1, text@)),
            final(self).wf(),
    {
        proof {
            lemma_push_unique_wf(self@.1, text@);
        }
        push_unique_line(&mut self.warnings, String::from_str(text));
    }

    /// Adds the fragment when there is one.
    pub fn push_optional(&mut self, text: Option<String>)
        requires
            old(self).wf(),
        ensures
            final(self)@ == match text {
                Some(t) => classified_push(old(self)@, t@),
                None => old(self)@,
            },
            final(self).wf(),
    {
        if let Some(t) = text {
            self.push_fragment(t.as_str());
        }
    }

    /// No error and no warning.
    pub fn is_empty(&self) -> (r: bool)
        ensures
            r == (self@.0.len() == 0 && self@.1.len() == 0),
    {
        self.errors.len() == 0 && self.warnings.len() == 0
    }

    /// At least one error.
    pub fn has_errors(&self) -> (r: bool)
        ensures
            r == (self@.0.len() > 0),
    {
        self.errors.len() > 0
    }

    /// The error lines, in order.
    pub fn errors(&self) -> (r: &[String])
        ensures
            views(r@) == self@.0,
    {
        self.errors.as_slice()
    }

    /// The warning lines, in order.
    pub fn warnings(&self) -> (r: &[String])
        ensures
            views(r@) == self@.1,
    {
        self.warnings.as_slice()
    }

    /// Moves (severity, text) entries into the board, at most `max` lines per
    /// severity.
    pub fn take_entries(&mut self, entries: &Vec<(IssueSeverity, String)>, max_per_severity: usize)
        requires
            old(self).wf(),
        ensures
            final(self)@ == board_take_all(old(self)@, entry_views(entries@), max_per_severity as nat),
            final(self).wf(),
    {
        let mut i: usize = 0;
        while i < entries.len()
            invariant
                i <= entries.len(),
                self.wf(),
                self@ == board_take_all(
                    old(self)@,
                    entry_views(entries@).subrange(0, i as int),
                    max_per_severity as nat,
                ),
            decreases entries.len() - i,
        {
            let ghost pre = entry_views(entries@).subrange(0, i as int);
            assert(entry_views(entries@).subrange(0, i + 1).drop_last() =~= pre);
            let sev = entries[i].0;
            match sev {
                IssueSeverity::Error => {
                    if self.errors.len() < max_per_severity {
                        self.push_error(entries[i].1.as_str());
                    }
                },
                IssueSeverity::Warning => {
                    if self.warnings.len() < max_per_severity {
                        self.push_warning(entries[i].1.as_str());
                    }
                },
            }
            i = i + 1;
        }
        assert(entry_views(entries@).subrange(0, entries.len() as int) =~= entry_views(entries@));
    }
}

impl Default for StackIssueBoard {
    fn default() -> (b: Self)
        ensures
            b@ == (Seq::<Seq<char>>::empty(), Seq::<Seq<char>>::empty()),
            b.wf(),
    {
        Self::new()
    }
}

/// Moves the journal entries alive now into the board, at most
/// `max_per_severity` lines per severity.
pub fn append_journal_to_board(journal: &IssueJournal, board: &mut StackIssueBoard, max_per_severity: usize)
    requires
        old(board).wf(),
    ensures
        exists|now: u128|
            final(board)@ == board_take_all(
                old(board)@,
                #[trigger] active(journal.model().records, now, journal.model().ttl),
                max_per_severity as nat,
            ),
        final(board).wf(),
{
    let entries = journal.active_records();
    board.take_entries(&entries, max_per_severity);
}

impl StackIssueBoard {
    /// The board of `combined_text`, then the journal entries alive now.
    pub fn from_journal_and_text(combined_text: &str, journal: &IssueJournal, max_per_severity: usize) -> (b: Self)
        ensures
            exists|now: u128|
                b@ == board_take_all(
                    combined_board(combined_text@),
                    #[trigger] active(journal.model().records, now, journal.model().ttl),
                    max_per_severity as nat,
                ),
            b.wf(),
    {
        let mut board = Self::from_combined_text(combined_text);
        append_journal_to_board(journal, &mut board, max_per_severity);
        board
    }

    /// Adds the journal entries alive now.
    pub fn merge_journal(&mut self, journal: &IssueJournal, max_per_severity: usize)
        requires
            old(self).wf(),
        ensures
            exists|now: u128|
                final(self)@ == board_take_all(
                    old(self)@,
                    #[trigger] active(journal.model().records, now, journal.model().ttl),
                    max_per_severity as nat,
                ),
            final(self).wf(),
    {
        append_journal_to_board(journal, self, max_per_severity);
    }
}

/// Pushing the same line twice is pushing it once.
pub proof fn lemma_push_unique_idempotent(lines: Seq<Seq<char>>, text: Seq<char>)
    ensures
        push_unique(push_unique(lines, text), text) == push_unique(lines, text),
{
    let t = trim(text);
    if !(t.len() == 0 || lines.contains(t)) {
        assert(lines.push(t)[lines.len() as int] == t);
    }
}

/// A non-blank fragment lands, trimmed, in the errors when its severity is
/// an error and in the warnings otherwise; the other list is untouched.
pub proof fn lemma_fragment_routing(board: BoardModel, text: Seq<char>)
    requires
        trim(text).len() > 0,
    ensures
        severity_of(trim(text)) == IssueSeverity::Error ==> classified_push(board, text).0.contains(trim(text))
            && classified_push(board, text).1 == board.1,
        severity_of(trim(text)) == IssueSeverity::Warning ==> classified_push(board, text).1.contains(
            trim(text),
        ) && classified_push(board, text).0 == board.0,
{
    crate::text::lemma_trim_idempotent(text);
    let t = trim(text);
    if !board.0.contains(t) {
        assert(board.0.push(t)[board.0.len() as int] == t);
    }
    if !board.1.contains(t) {
        assert(board.1.push(t)[board.1.len() as int] == t);
    }
}

proof fn lemma_non_empty_all(s: Seq<Seq<char>>)
    requires
        forall|i: int| 0 <= i < s.len() ==> (#[trigger] s[i]).len() > 0,
    ensures
        non_empty(s) == s,
    decreases s.len(),
{
    if s.len() > 0 {
        lemma_non_empty_all(s.drop_last());
        assert(s[s.len() - 1] == s.last());
        assert(s.drop_last().push(s.last()) =~= s);
    }
}

/// A combined banner text gives the same board as its `·` fragments
/// (`from_combined_text(t)` is `from_fragments(split_banner_fragments(t))`):
/// a blank text gives an empty board, and a text without `·` is one fragment.
pub proof fn lemma_combined_is_fragments(text: Seq<char>)
    ensures
        combined_board(text) == classified_push_all(
            (Seq::<Seq<char>>::empty(), Seq::<Seq<char>>::empty()),
            banner_fragments(trim(text)),
        ),
        combined_board(text) == classified_push_all(
            (Seq::<Seq<char>>::empty(), Seq::<Seq<char>>::empty()),
            banner_fragments(text),
        ),
{
    lemma_fragments_ignore_outer_space(text);
    let t = trim(text);
    let e = (Seq::<Seq<char>>::empty(), Seq::<Seq<char>>::empty());
    crate::text::lemma_trim_idempotent(text);
    if t.len() == 0 {
        crate::text::lemma_split_no_sep(t, banner_sep());
        let m = split_on(t, banner_sep()).map_values(|p: Seq<char>| trim(p));
        assert(t =~= Seq::<char>::empty());
        assert(trim(Seq::<char>::empty()) =~= Seq::<char>::empty());
        assert(m =~= seq![Seq::<char>::empty()]);
        assert(m.last().len() == 0);
        assert(m.drop_last() =~= Seq::<Seq<char>>::empty());
        assert(non_empty(m) == non_empty(m.drop_last()));
        assert(non_empty(Seq::<Seq<char>>::empty()) =~= Seq::<Seq<char>>::empty());
    } else if !t.contains(banner_sep()) {
        crate::text::lemma_split_no_sep(t, banner_sep());
        let m = split_on(t, banner_sep()).map_values(|p: Seq<char>| trim(p));
        assert(m =~= seq![t]);
        lemma_non_empty_all(m);
        assert(seq![t].drop_last() =~= Seq::<Seq<char>>::empty());
        assert(classified_push_all(e, seq![t]) == classified_push(classified_push_all(e, Seq::<Seq<char>>::empty()), t));
    }
}

/// The separator that joins the lines of one banner, ` · `.
pub open spec fn detail_sep() -> Seq<char> {
    seq![' ', banner_sep(), ' ']
}

proof fn lemma_split_of_join(frags: Seq<Seq<char>>)
    requires
        frags.len() > 0,
        forall|i: int|
            0 <= i < frags.len() ==> (#[trigger] frags[i]).len() > 0 && is_trimmed(frags[i])
                && !frags[i].contains(banner_sep()),
    ensures
        split_on(join(frags, detail_sep()), banner_sep()).map_values(|p: Seq<char>| trim(p)) == frags,
    decreases frags.len(),
{
    let sep = banner_sep();
    if frags.len() == 1 {
        assert(join(frags, detail_sep()) == frags[0]);
        crate::text::lemma_split_no_sep(frags[0], sep);
        crate::text::lemma_trimmed_fixed(frags[0]);
        assert(split_on(frags[0], sep).map_values(|p: Seq<char>| trim(p)) =~= frags);
    } else {
        let d = frags.drop_last();
        let l = frags.last();
        assert(l == frags[frags.len() - 1]);
        assert forall|i: int|
            0 <= i < d.len() implies (#[trigger] d[i]).len() > 0 && is_trimmed(d[i]) && !d[i].contains(
            sep,
        ) by {
            assert(d[i] == frags[i]);
        }
        lemma_split_of_join(d);
        let jd = join(d, detail_sep());
        let sl = seq![' '] + l;
        assert(!sl.contains(sep)) by {
            if sl.contains(sep) {
                let i = choose|i: int| 0 <= i < sl.len() && sl[i] == sep;
                assert(l[i - 1] == sep);
            }
        }
        assert(join(frags, detail_sep()) =~= jd.push(' ') + seq![sep] + sl);
        crate::text::lemma_split_concat(jd.push(' '), sep, sl);
        let sd = split_on(jd, sep);
        crate::text::lemma_split_nonempty(jd, sep);
        assert(jd.push(' ').drop_last() =~= jd);
        let sd2 = split_on(jd.push(' '), sep);
        assert(sd2 == sd.update(sd.len() - 1, sd.last().push(' ')));
        let whole = sd2.push(sl);
        crate::text::lemma_trim_push_ws(sd.last(), ' ');
        crate::text::lemma_trim_prepend_ws(' ', l);
        crate::text::lemma_trimmed_fixed(l);
        let m = whole.map_values(|p: Seq<char>| trim(p));
        let md = sd.map_values(|p: Seq<char>| trim(p));
        assert(md == d);
        assert forall|i: int| 0 <= i < frags.len() implies #[trigger] m[i] == frags[i] by {
            if i < sd.len() - 1 {
                assert(m[i] == trim(sd[i]));
                assert(md[i] == trim(sd[i]));
            } else if i == sd.len() - 1 {
                assert(m[i] == trim(sd.last().push(' ')));
                assert(md[i] == trim(sd.last()));
            } else {
                assert(m[i] == trim(sl));
            }
        }
        assert(m =~= frags);
    }
}

/// A banner's detail text splits back into its lines: joining non-empty,
/// trimmed lines without `·` by ` · ` and splitting the result gives the
/// same lines.
pub proof fn lemma_detail_splits_back(lines: Seq<Seq<char>>)
    requires
        forall|i: int|
            0 <= i < lines.len() ==> (#[trigger] lines[i]).len() > 0 && is_trimmed(lines[i])
                && !lines[i].contains(banner_sep()),
    ensures
        banner_fragments(join(lines, detail_sep())) == lines,
{
    if lines.len() == 0 {
        crate::text::lemma_split_no_sep(Seq::<char>::empty(), banner_sep());
        let m = split_on(Seq::<char>::empty(), banner_sep()).map_values(|p: Seq<char>| trim(p));
        assert(trim(Seq::<char>::empty()) =~= Seq::<char>::empty());
        assert(m =~= seq![Seq::<char>::empty()]);
        assert(m.last().len() == 0);
        assert(m.drop_last() =~= Seq::<Seq<char>>::empty());
        assert(lines =~= Seq::<Seq<char>>::empty());
        assert(non_empty(m) == non_empty(m.drop_last()));
        assert(non_empty(Seq::<Seq<char>>::empty()) =~= Seq::<Seq<char>>::empty());
    } else {
        lemma_split_of_join(lines);
        lemma_non_empty_all(lines);
    }
}

proof fn lemma_non_empty_from(s: Seq<Seq<char>>)
    ensures
        forall|i: int|
            0 <= i < non_empty(s).len() ==> (#[trigger] non_empty(s)[i]).len() > 0 && exists|j: int|
                0 <= j < s.len() && s[j] == non_empty(s)[i],
    decreases s.len(),
{
    if s.len() > 0 {
        lemma_non_empty_from(s.drop_last());
        let p = non_empty(s.drop_last());
        let r = non_empty(s);
        assert forall|i: int| 0 <= i < r.len() implies (#[trigger] r[i]).len() > 0 && exists|j: int|
            0 <= j < s.len() && s[j] == r[i] by {
            if i < p.len() {
                let j = choose|j: int| 0 <= j < s.drop_last().len() && s.drop_last()[j] == p[i];
                assert(r[i] == p[i]);
                assert(s[j] == r[i]);
            } else {
                assert(r[i] == s.last());
                assert(s[s.len() - 1] == r[i]);
            }
        }
    }
}

/// Every fragment of a combined banner text is non-empty, trimmed, and
/// free of `·`.
pub proof fn lemma_fragments_are_clean(combined: Seq<char>)
    ensures
        forall|i: int|
            0 <= i < banner_fragments(combined).len() ==> (#[trigger] banner_fragments(combined)[i]).len()
                > 0 && is_trimmed(banner_fragments(combined)[i]) && !banner_fragments(combined)[i].contains(
                banner_sep(),
            ),
{
    let pieces = split_on(combined, banner_sep());
    let m = pieces.map_values(|p: Seq<char>| trim(p));
    crate::text::lemma_split_pieces_lack_sep(combined, banner_sep());
    lemma_non_empty_from(m);
    let f = banner_fragments(combined);
    assert forall|i: int| 0 <= i < f.len() implies (#[trigger] f[i]).len() > 0 && is_trimmed(f[i])
        && !f[i].contains(banner_sep()) by {
        let j = choose|j: int| 0 <= j < m.len() && m[j] == f[i];
        assert(m[j] == trim(pieces[j]));
        crate::text::lemma_trim_is_trimmed(pieces[j]);
        crate::text::lemma_trim_keeps_absent(pieces[j], banner_sep());
    }
}

/// Normalising a banner text is idempotent: joining its fragments by ` · `
/// and splitting again gives the same fragments.
pub proof fn lemma_fragments_rejoin(combined: Seq<char>)
    ensures
        banner_fragments(join(banner_fragments(combined), detail_sep())) == banner_fragments(combined),
{
    lemma_fragments_are_clean(combined);
    lemma_detail_splits_back(banner_fragments(combined));
}

/// The trimmed pieces of a text between `·` separators.
pub open spec fn trimmed_pieces(s: Seq<char>) -> Seq<Seq<char>> {
    split_on(s, banner_sep()).map_values(|p: Seq<char>| trim(p))
}

proof fn lemma_pieces_prepend_ws(c: char, s: Seq<char>)
    requires
        crate::text::is_ws(c),
    ensures
        trimmed_pieces(seq![c] + s) == trimmed_pieces(s),
{
    crate::text::lemma_split_prepend(c, s, banner_sep());
    crate::text::lemma_split_nonempty(s, banner_sep());
    let p = split_on(s, banner_sep());
    crate::text::lemma_trim_prepend_ws(c, p[0]);
    assert(trimmed_pieces(seq![c] + s) =~= trimmed_pieces(s));
}

proof fn lemma_pieces_append_ws(s: Seq<char>, c: char)
    requires
        crate::text::is_ws(c),
    ensures
        trimmed_pieces(s.push(c)) == trimmed_pieces(s),
{
    crate::text::lemma_split_nonempty(s, banner_sep());
    let p = split_on(s, banner_sep());
    assert(s.push(c).drop_last() =~= s);
    assert(s.push(c).last() == c);
    assert(split_on(s.push(c), banner_sep()) == p.update(p.len() - 1, p.last().push(c)));
    crate::text::lemma_trim_push_ws(p.last(), c);
    assert(trimmed_pieces(s.push(c)) =~= trimmed_pieces(s));
}

proof fn lemma_pieces_trim_start(s: Seq<char>)
    ensures
        trimmed_pieces(crate::text::trim_start(s)) == trimmed_pieces(s),
    decreases s.len(),
{
    if s.len() > 0 && crate::text::is_ws(s[0]) {
        lemma_pieces_trim_start(s.drop_first());
        assert(seq![s[0]] + s.drop_first() =~= s);
        lemma_pieces_prepend_ws(s[0], s.drop_first());
    }
}

proof fn lemma_pieces_trim_end(s: Seq<char>)
    ensures
        trimmed_pieces(crate::text::trim_end(s)) == trimmed_pieces(s),
    decreases s.len(),
{
    if s.len() > 0 && crate::text::is_ws(s.last()) {
        lemma_pieces_trim_end(s.drop_last());
        assert(s.drop_last().push(s.last()) =~= s);
        lemma_pieces_append_ws(s.drop_last(), s.last());
    }
}

/// White space around a combined banner text does not change its fragments.
pub proof fn lemma_fragments_ignore_outer_space(text: Seq<char>)
    ensures
        banner_fragments(trim(text)) == banner_fragments(text),
{
    lemma_pieces_trim_start(text);
    lemma_pieces_trim_end(crate::text::trim_start(text));
    assert(trimmed_pieces(trim(text)) == trimmed_pieces(text));
}

/// How a message is classified, in terms of the markers themselves: a
/// message whose Unicode upper case holds one of the warning-only markers
/// (late or empty order books, blocked orders, …) is a warning; otherwise one
/// that holds one of the error markers (`FAILED`, `UNAVAILABLE`, `429`,
/// `DOWN`, …) is an error; any other message is a warning.
pub proof fn lemma_classification_by_markers(text: Seq<char>)
    ensures
        ({
            let u = unicode_upper(text);
            let warn: Seq<Seq<char>> = seq![
                "ORDERBOOK_RECEPTION_LATE"@,
                "MARKET_DATA_FLAT_BUT_WS_ALIVE"@,
                "WS SANS DONNÉES"@,
                "WS SANS DONNEES"@,
                "ATTENTE CARNET"@,
                "ORDER_BLOCKED"@,
                "WS_TRADING_OFF"@,
                "_SNAPSHOT_EMPTY"@,
                "REFERENCE_SNAPSHOT_EMPTY"@,
                "OKX_SNAPSHOT_EMPTY"@,
                "KRAKEN_SNAPSHOT_EMPTY"@,
                "COINBASE_SNAPSHOT_EMPTY"@,
                "SYMBOL_RULES_EMPTY"@,
            ];
            let err: Seq<Seq<char>> = seq![
                "CRITIQUE"@,
                "CRITICAL"@,
                "FAILED"@,
                "FAIL"@,
                "ERROR"@,
                "UNAVAILABLE"@,
                "BLOQU"@,
                "INDISPONIBLE"@,
                "429"@,
                "RATE LIMIT"@,
                "HARD_STALE"@,
                "ORDERBOOK_CROSSED"@,
                "ORDER_FAILED"@,
                "WS_UNAVAILABLE"@,
                "WS_TRADING"@,
                "ADD_ORDER"@,
                "REST_ERROR"@,
                "WS_ERROR"@,
                "WS_CONNECT_FAILED"@,
                "SUBSCRIBE_FAILED"@,
                "TOKIO_RUNTIME"@,
                "STATICS"@,
                "CONNECTIVITY"@,
                "IGNORÉ"@,
                "IGNORED"@,
                "DOWN"@,
                "OFFLINE"@,
                "MANQUANT"@,
            ];
            &&& (exists|i: int| 0 <= i < warn.len() && contains_seq(u, #[trigger] warn[i]))
                ==> severity_of(text) == IssueSeverity::Warning
            &&& (forall|i: int| 0 <= i < warn.len() ==> !contains_seq(u, #[trigger] warn[i]))
                && (exists|i: int| 0 <= i < err.len() && contains_seq(u, #[trigger] err[i]))
                ==> severity_of(text) == IssueSeverity::Error
            &&& (forall|i: int| 0 <= i < warn.len() ==> !contains_seq(u, #[trigger] warn[i]))
                && (forall|i: int| 0 <= i < err.len() ==> !contains_seq(u, #[trigger] err[i]))
                ==> severity_of(text) == IssueSeverity::Warning
        }),
{
    let warn: Seq<Seq<char>> = seq![
        "ORDERBOOK_RECEPTION_LATE"@,
        "MARKET_DATA_FLAT_BUT_WS_ALIVE"@,
        "WS SANS DONNÉES"@,
        "WS SANS DONNEES"@,
        "ATTENTE CARNET"@,
        "ORDER_BLOCKED"@,
        "WS_TRADING_OFF"@,
        "_SNAPSHOT_EMPTY"@,
        "REFERENCE_SNAPSHOT_EMPTY"@,
        "OKX_SNAPSHOT_EMPTY"@,
        "KRAKEN_SNAPSHOT_EMPTY"@,
        "COINBASE_SNAPSHOT_EMPTY"@,
        "SYMBOL_RULES_EMPTY"@,
    ];
    let err: Seq<Seq<char>> = seq![
        "CRITIQUE"@,
        "CRITICAL"@,
        "FAILED"@,
        "FAIL"@,
        "ERROR"@,
        "UNAVAILABLE"@,
        "BLOQU"@,
        "INDISPONIBLE"@,
        "429"@,
        "RATE LIMIT"@,
        "HARD_STALE"@,
        "ORDERBOOK_CROSSED"@,
        "ORDER_FAILED"@,
        "WS_UNAVAILABLE"@,
        "WS_TRADING"@,
        "ADD_ORDER"@,
        "REST_ERROR"@,
        "WS_ERROR"@,
        "WS_CONNECT_FAILED"@,
        "SUBSCRIBE_FAILED"@,
        "TOKIO_RUNTIME"@,
        "STATICS"@,
        "CONNECTIVITY"@,
        "IGNORÉ"@,
        "IGNORED"@,
        "DOWN"@,
        "OFFLINE"@,
        "MANQUANT"@,
    ];
    assert(warn =~= warn_only_markers());
    assert(err =~= error_markers());
}

} // verus!
