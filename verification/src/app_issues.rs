//! Per-application issue reporting: a TTL journal under a normalised
//! application id, and the boards that the banners show.

use std::time::Duration;

use vstd::prelude::*;

use crate::issues::{
    board_take_all, classified_push, classified_push_all, combined_board, push_unique, BoardModel,
    IssueSeverity, StackIssueBoard,
};
use crate::journal::{
    active, duration_from_secs, duration_nanos, journal_push, IssueJournal, IssueRecordView,
    JournalModel,
};
use crate::text::{ascii_upper, str_views, to_ascii_upper, trim, trim_str};

verus! {

/// Time to live of journal entries by default, in seconds.
pub const DEFAULT_ISSUE_TTL_SECS: u64 = 45;

/// Journal capacity by default.
pub const DEFAULT_MAX_ISSUE_RECORDS: usize = 16;

/// Lines per severity shown in a banner by default.
pub const DEFAULT_MAX_BANNER_ISSUES: usize = 6;

/// Title of the warning banner.
pub const DEFAULT_WARNING_BANNER_TITLE: &'static str = "AVERTISSEMENT";

/// The time to live of journal entries by default.
pub fn default_issue_ttl() -> (d: Duration)
    ensures
        duration_nanos(d) == DEFAULT_ISSUE_TTL_SECS * 1_000_000_000,
{
    duration_from_secs(DEFAULT_ISSUE_TTL_SECS)
}

/// Application id as journals and banners key it: trimmed, ASCII upper case.
pub open spec fn normalized_app_id(app_id: Seq<char>) -> Seq<char> {
    ascii_upper(trim(app_id))
}

/// Application id as journals and banners key it: trimmed, ASCII upper case.
pub fn normalize_app_id(app_id: &str) -> (r: String)
    ensures
        r@ == normalized_app_id(app_id@),
{
    let t = trim_str(app_id);
    to_ascii_upper(t.as_str())
}

/// The journal after a report: the trimmed text, keyed by `key` when that is
/// not blank, else by the text itself; a blank text changes nothing.
pub open spec fn report_step(
    j: JournalModel,
    severity: IssueSeverity,
    text: Seq<char>,
    key: Option<Seq<char>>,
    now: u128,
) -> JournalModel {
    let t = trim(text);
    if t.len() == 0 {
        j
    } else {
        match key {
            Some(k) => if trim(k).len() > 0 {
                journal_push(j, severity, t, Some(k), now)
            } else {
                journal_push(j, severity, t, None, now)
            },
            None => journal_push(j, severity, t, None, now),
        }
    }
}

/// Operational journal of one application (`ORDERBOOK`, `MANUAL_ORDERS`, …).
pub struct AppIssueReporter {
    journal: IssueJournal,
    app_id: String,
}

impl AppIssueReporter {
    /// The journal.
    pub closed spec fn journal_view(&self) -> IssueJournal {
        self.journal
    }

    /// The normalised application id.
    pub closed spec fn app_id_view(&self) -> Seq<char> {
        self.app_id@
    }

    /// The journal is well formed.
    pub open spec fn wf(&self) -> bool {
        self.journal_view().wf()
    }

    /// A reporter for `app_id` (trimmed, ASCII upper case) with an empty
    /// journal of the given time to live and capacity.
    pub fn new(app_id: &str, ttl: Duration, max_records: usize) -> (r: Self)
        ensures
            r.app_id_view() == normalized_app_id(app_id@),
            r.journal_view().model().records == Seq::<IssueRecordView>::empty(),
            r.journal_view().model().ttl == duration_nanos(ttl),
            r.journal_view().model().max_records == max_records,
            r.journal_view().model().dedupe_window == crate::journal::DEDUPE_WINDOW_SECS
                * 1_000_000_000,
            r.wf(),
    {
        AppIssueReporter { journal: IssueJournal::new(ttl, max_records), app_id: normalize_app_id(app_id) }
    }

    /// A reporter with the default time to live and capacity.
    pub fn with_defaults(app_id: &str) -> (r: Self)
        ensures
            r.app_id_view() == normalized_app_id(app_id@),
            r.journal_view().model().records == Seq::<IssueRecordView>::empty(),
            r.journal_view().model().ttl == DEFAULT_ISSUE_TTL_SECS * 1_000_000_000,
            r.journal_view().model().max_records == DEFAULT_MAX_ISSUE_RECORDS,
            r.wf(),
    {
        Self::new(app_id, default_issue_ttl(), DEFAULT_MAX_ISSUE_RECORDS)
    }

    /// The normalised application id.
    pub fn app_id(&self) -> (r: &str)
        ensures
            r@ == self.app_id_view(),
    {
        self.app_id.as_str()
    }

    /// The journal.
    pub fn journal(&self) -> (r: &IssueJournal)
        ensures
            *r == self.journal_view(),
    {
        &self.journal
    }

    /// The journal, for changes through its own methods.
    pub fn journal_mut(&mut self) -> (r: &mut IssueJournal)
        ensures
            *r == old(self).journal_view(),
            final(self).journal_view() == *final(r),
            final(self).app_id_view() == old(self).app_id_view(),
    {
        &mut self.journal
    }

    /// Drops the entries not alive now.
    pub fn prune(&mut self)
        requires
            old(self).wf(),
        ensures
            exists|now: u128|
                final(self).journal_view().model() == (JournalModel {
                    records: #[trigger] crate::journal::fresh(
                        old(self).journal_view().model().records,
                        now,
                        old(self).journal_view().model().ttl,
                    ),
                    ..old(self).journal_view().model()
                }),
            final(self).app_id_view() == old(self).app_id_view(),
            final(self).wf(),
    {
        self.journal.prune();
    }

    /// Drops the entries whose text `pred` holds of.
    pub fn clear_if(&mut self, pred: impl Fn(&str) -> bool)
        requires
            old(self).wf(),
            forall|t: &str| call_requires(pred, (t,)),
        ensures
            exists|keep: Seq<bool>|
                {
                    &&& keep.len() == old(self).journal_view().model().records.len()
                    &&& forall|i: int|
                        0 <= i < keep.len() ==> crate::journal::pred_said(
                            pred,
                            old(self).journal_view().model().records[i].text,
                            !#[trigger] keep[i],
                        )
                    &&& final(self).journal_view().model() == (JournalModel {
                        records: #[trigger] crate::journal::keep_by(
                            old(self).journal_view().model().records,
                            keep,
                        ),
                        ..old(self).journal_view().model()
                    })
                },
            final(self).app_id_view() == old(self).app_id_view(),
            final(self).wf(),
    {
        self.journal.clear_if(pred);
    }

    /// Records `text` at `severity`, keyed by `dedupe_key` when that is not
    /// blank, at time `now` (see `report_step`).
    pub fn log_and_push(
        journal: &mut IssueJournal,
        severity: IssueSeverity,
        text: &str,
        dedupe_key: Option<&str>,
        now: u128,
    )
        requires
            old(journal).wf(),
        ensures
            final(journal).model() == report_step(
                old(journal).model(),
                severity,
                text@,
                crate::journal::opt_view(dedupe_key),
                now,
            ),
            final(journal).wf(),
    {
        let trimmed = trim_str(text);
        if trimmed.as_str().unicode_len() == 0 {
            return;
        }
        match dedupe_key {
            Some(key) => {
                let kt = trim_str(key);
                if kt.as_str().unicode_len() > 0 {
                    journal.push_keyed_at(severity, trimmed, Some(key), now);
                } else {
                    journal.push_keyed_at(severity, trimmed, None, now);
                }
            },
            None => {
                journal.push_keyed_at(severity, trimmed, None, now);
            },
        }
    }

    /// Reports `text` now, keyed by its own text.
    pub fn report(&mut self, severity: IssueSeverity, text: &str)
        requires
            old(self).wf(),
        ensures
            exists|now: u128|
                final(self).journal_view().model() == #[trigger] report_step(
                    old(self).journal_view().model(),
                    severity,
                    text@,
                    None,
                    now,
                ),
            final(self).app_id_view() == old(self).app_id_view(),
            final(self).wf(),
    {
        let now = self.journal.clock_now();
        Self::log_and_push(&mut self.journal, severity, text, None, now);
    }

    /// Reports `text` now, keyed by `dedupe_key` unless that is blank.
    pub fn report_keyed(&mut self, severity: IssueSeverity, text: &str, dedupe_key: &str)
        requires
            old(self).wf(),
        ensures
            exists|now: u128|
                final(self).journal_view().model() == #[trigger] report_step(
                    old(self).journal_view().model(),
                    severity,
                    text@,
                    Some(dedupe_key@),
                    now,
                ),
            final(self).app_id_view() == old(self).app_id_view(),
            final(self).wf(),
    {
        let now = self.journal.clock_now();
        Self::log_and_push(&mut self.journal, severity, text, Some(dedupe_key), now);
    }
}

/// Title of an application's error banner: `ERREUR` and the trimmed name.
pub open spec fn error_title(app_display_name: Seq<char>) -> Seq<char> {
    "ERREUR "@ + trim(app_display_name)
}

/// Title of an application's error banner.
pub fn issue_error_title(app_display_name: &str) -> (r: String)
    ensures
        r@ == error_title(app_display_name@),
{
    let mut s = String::from_str("ERREUR ");
    let t = trim_str(app_display_name);
    s.append(t.as_str());
    s
}


/// Board of connectivity fragments from several sources, each classified
/// whole (no split on `·`).
pub fn connectivity_issue_board(fragments: &[&str]) -> (b: StackIssueBoard)
    ensures
        b@ == classified_push_all(
            (Seq::<Seq<char>>::empty(), Seq::<Seq<char>>::empty()),
            str_views(fragments@),
        ),
        b.wf(),
{
    let mut board = StackIssueBoard::new();
    let mut i: usize = 0;
    while i < fragments.len()
        invariant
            i <= fragments.len(),
            board.wf(),
            board@ == classified_push_all(
                (Seq::<Seq<char>>::empty(), Seq::<Seq<char>>::empty()),
                str_views(fragments@).subrange(0, i as int),
            ),
        decreases fragments.len() - i,
    {
        assert(str_views(fragments@).subrange(0, i + 1).drop_last() =~= str_views(
            fragments@,
        ).subrange(0, i as int));
        board.push_fragment(fragments[i]);
        i = i + 1;
    }
    assert(str_views(fragments@).subrange(0, fragments.len() as int) =~= str_views(fragments@));
    board
}

/// Board of the hub connectivity text (classified whole) and a local
/// operational error (always an error).
pub open spec fn operational_board(connectivity_text: Seq<char>, operational_error: Seq<char>) -> BoardModel {
    let b = classified_push((Seq::empty(), Seq::empty()), connectivity_text);
    if trim(operational_error).len() == 0 {
        b
    } else {
        (push_unique(b.0, trim(operational_error)), b.1)
    }
}

/// Board of the hub connectivity text and a local operational error.
pub fn operational_issue_board(connectivity_text: &str, operational_error: &str) -> (b: StackIssueBoard)
    ensures
        b@ == operational_board(connectivity_text@, operational_error@),
        b.wf(),
{
    let frags: [&str; 1] = [connectivity_text];
    let mut board = connectivity_issue_board(frags.as_slice());
    proof {
        let e = (Seq::<Seq<char>>::empty(), Seq::<Seq<char>>::empty());
        assert(str_views(frags@) =~= seq![connectivity_text@]);
        assert(seq![connectivity_text@].drop_last() =~= Seq::<Seq<char>>::empty());
        assert(seq![connectivity_text@].last() == connectivity_text@);
        assert(classified_push_all(e, Seq::<Seq<char>>::empty()) == e);
        assert(classified_push_all(e, seq![connectivity_text@]) == classified_push(e, connectivity_text@));
    }
    let err = trim_str(operational_error);
    if err.as_str().unicode_len() > 0 {
        board.push_error(err.as_str());
        proof {
            crate::text::lemma_trim_idempotent(operational_error@);
        }
    }
    board
}

/// Board of the connectivity text, then the journal entries alive now.
pub fn build_issue_board(connectivity_text: &str, journal: &IssueJournal, max_banner_issues: usize) -> (b: StackIssueBoard)
    ensures
        exists|now: u128|
            b@ == board_take_all(
                combined_board(connectivity_text@),
                #[trigger] active(journal.model().records, now, journal.model().ttl),
                max_banner_issues as nat,
            ),
        b.wf(),
{
    StackIssueBoard::from_journal_and_text(connectivity_text, journal, max_banner_issues)
}

proof fn lemma_ascii_upper_idempotent(s: Seq<char>)
    ensures
        ascii_upper(ascii_upper(s)) == ascii_upper(s),
{
    assert(ascii_upper(ascii_upper(s)) =~= ascii_upper(s));
}

/// Normalising an application id twice is normalising it once, so a
/// reporter built from another reporter's id keeps that id.
pub proof fn lemma_normalized_app_id_idempotent(app_id: Seq<char>)
    ensures
        normalized_app_id(normalized_app_id(app_id)) == normalized_app_id(app_id),
{
    let t = trim(app_id);
    crate::text::lemma_trim_is_trimmed(app_id);
    let u = ascii_upper(t);
    assert(u.len() == t.len());
    if u.len() > 0 {
        assert(u[0] == crate::text::ascii_upper_char(t[0]));
        assert(u.last() == crate::text::ascii_upper_char(t.last()));
        assert(!crate::text::is_ws(u[0]));
        assert(!crate::text::is_ws(u.last()));
    }
    crate::text::lemma_trimmed_fixed(u);
    lemma_ascii_upper_idempotent(t);
}
} // verus!
