//! Ring journal of operational messages with a time to live, de-duplication
//! by key within a window, and a bound on the number of entries.
//!
//! Times are nanoseconds on a monotonic clock that starts when the journal is
//! created; every operation that needs the current time has a variant that
//! takes it as an argument (`*_at`), whose contract is exact.

use std::collections::VecDeque;
use std::time::{Duration, Instant};

use vstd::prelude::*;

use crate::issues::IssueSeverity;
use crate::text::{is_trimmed, trim, trim_str};

verus! {

broadcast use vstd::std_specs::vecdeque::group_vec_dequeue_axioms;

#[verifier::external_type_specification]
#[verifier::external_body]
pub struct ExInstant(Instant);

/// The total number of nanoseconds of a `Duration`, as `Duration::as_nanos` returns it.
pub uninterp spec fn duration_nanos(d: Duration) -> nat;

/// Calls `Duration::as_nanos`, the total number of nanoseconds of `d`.
#[verifier::external_body]
fn duration_as_nanos(d: Duration) -> (n: u128)
    ensures
        n == duration_nanos(d),
{
    d.as_nanos()
}

/// Calls `Duration::from_secs`: a duration of `secs` whole seconds, that is
/// `secs * 10^9` nanoseconds.
#[verifier::external_body]
pub(crate) fn duration_from_secs(secs: u64) -> (d: Duration)
    ensures
        duration_nanos(d) == secs * 1_000_000_000,
{
    Duration::from_secs(secs)
}

/// Calls `Instant::now`. Nothing is stated of the reading.
#[verifier::external_body]
fn instant_now() -> Instant {
    Instant::now()
}

/// Calls `Instant::elapsed`: the time since `origin` on the monotonic clock.
/// Nothing is stated of the reading.
#[verifier::external_body]
fn instant_elapsed(origin: &Instant) -> Duration {
    origin.elapsed()
}

/// Window within which two messages with the same key are merged, in seconds.
pub const DEDUPE_WINDOW_SECS: u64 = 20;

/// One journal entry, as the contracts see it.
pub struct IssueRecordView {
    pub at: u128,
    pub severity: IssueSeverity,
    pub text: Seq<char>,
    pub key: Seq<char>,
}

/// The journal, as the contracts see it.
pub struct JournalModel {
    pub records: Seq<IssueRecordView>,
    pub ttl: u128,
    pub max_records: usize,
    pub dedupe_window: u128,
}

/// Time from `at` to `now`, zero when `at` is later (`Instant::duration_since`).
pub open spec fn since(now: u128, at: u128) -> int {
    if now >= at {
        now - at
    } else {
        0
    }
}

fn since_exec(now: u128, at: u128) -> (d: u128)
    ensures
        d == since(now, at),
{
    if now >= at {
        now - at
    } else {
        0
    }
}

/// The entry has key `key` and was touched less than `window` before `now`.
pub open spec fn key_match(r: IssueRecordView, key: Seq<char>, now: u128, window: u128) -> bool {
    r.key == key && since(now, r.at) < window
}

/// Index of the first entry at or after `i` that matches, or the length.
pub open spec fn first_match_from(
    recs: Seq<IssueRecordView>,
    key: Seq<char>,
    now: u128,
    window: u128,
    i: int,
) -> int
    decreases recs.len() - i,
{
    if i < 0 || i >= recs.len() {
        recs.len() as int
    } else if key_match(recs[i], key, now, window) {
        i
    } else {
        first_match_from(recs, key, now, window, i + 1)
    }
}

/// The last `n` entries of `s` (all of them when there are fewer).
pub open spec fn keep_last<A>(s: Seq<A>, n: nat) -> Seq<A> {
    if s.len() > n {
        s.subrange(s.len() - n, s.len() as int)
    } else {
        s
    }
}

/// The journal after a message `text` of `severity` with the optional
/// `key`, at time `now`. The trimmed text is the message; the trimmed key (the
/// trimmed text when there is no key) groups messages. A blank text or key
/// changes nothing. The first entry with the same key touched within the
/// window takes the new text and time, and becomes an error if the new message
/// is one; otherwise a new entry is appended and the oldest entries are
/// dropped beyond `max_records`.
pub open spec fn journal_push(
    j: JournalModel,
    severity: IssueSeverity,
    text: Seq<char>,
    key: Option<Seq<char>>,
    now: u128,
) -> JournalModel {
    let t = trim(text);
    let k = trim(
        match key {
            Some(k) => k,
            None => t,
        },
    );
    if t.len() == 0 || k.len() == 0 {
        j
    } else {
        let m = first_match_from(j.records, k, now, j.dedupe_window, 0);
        if m < j.records.len() {
            let r = j.records[m];
            JournalModel {
                records: j.records.update(
                    m,
                    IssueRecordView {
                        at: now,
                        severity: if severity == IssueSeverity::Error {
                            IssueSeverity::Error
                        } else {
                            r.severity
                        },
                        text: t,
                        key: r.key,
                    },
                ),
                ..j
            }
        } else {
            JournalModel {
                records: keep_last(
                    j.records.push(IssueRecordView { at: now, severity, text: t, key: k }),
                    j.max_records as nat,
                ),
                ..j
            }
        }
    }
}

/// The entries still alive at `now`: touched at most `ttl` before.
pub open spec fn fresh(recs: Seq<IssueRecordView>, now: u128, ttl: u128) -> Seq<IssueRecordView>
    decreases recs.len(),
{
    if recs.len() == 0 {
        recs
    } else if since(now, recs.last().at) <= ttl {
        fresh(recs.drop_last(), now, ttl).push(recs.last())
    } else {
        fresh(recs.drop_last(), now, ttl)
    }
}

/// (severity, text) of the entries alive at `now`, oldest first.
pub open spec fn active(recs: Seq<IssueRecordView>, now: u128, ttl: u128) -> Seq<
    (IssueSeverity, Seq<char>),
> {
    fresh(recs, now, ttl).map_values(|r: IssueRecordView| (r.severity, r.text))
}

/// The entries whose flag in `keep` is set, in order.
pub open spec fn keep_by(recs: Seq<IssueRecordView>, keep: Seq<bool>) -> Seq<IssueRecordView>
    decreases recs.len(),
{
    if recs.len() == 0 {
        recs
    } else if keep.last() {
        keep_by(recs.drop_last(), keep.drop_last()).push(recs.last())
    } else {
        keep_by(recs.drop_last(), keep.drop_last())
    }
}

/// Some call of `pred` on a text equal to `text` returned `b`.
pub open spec fn pred_said<F: Fn(&str) -> bool>(pred: F, text: Seq<char>, b: bool) -> bool {
    exists|t: &str| t@ == text && call_ensures(pred, (t,), b)
}

/// The view of an optional text.
pub open spec fn opt_view(k: Option<&str>) -> Option<Seq<char>> {
    match k {
        Some(k) => Some(k@),
        None => None,
    }
}

/// Every entry holds a non-empty trimmed text and key, and there are at most
/// `max_records` entries.
pub open spec fn records_wf(recs: Seq<IssueRecordView>, max_records: usize) -> bool {
    &&& recs.len() <= max_records
    &&& forall|i: int|
        0 <= i < recs.len() ==> {
            &&& (#[trigger] recs[i]).text.len() > 0
            &&& is_trimmed(recs[i].text)
            &&& recs[i].key.len() > 0
            &&& is_trimmed(recs[i].key)
        }
}

#[derive(Debug)]
struct IssueRecord {
    at: u128,
    severity: IssueSeverity,
    text: String,
    dedupe_key: String,
}

impl IssueRecord {
    closed spec fn model(&self) -> IssueRecordView {
        IssueRecordView { at: self.at, severity: self.severity, text: self.text@, key: self.dedupe_key@ }
    }
}

spec fn record_models(v: Seq<IssueRecord>) -> Seq<IssueRecordView> {
    v.map_values(|r: IssueRecord| r.model())
}

/// Ring journal of operational messages (errors and warnings).
#[derive(Debug)]
pub struct IssueJournal {
    records: VecDeque<IssueRecord>,
    ttl: u128,
    max_records: usize,
    dedupe_window: u128,
    origin: Instant,
}

/// Elements of `keep_by` and `fresh` come from the input, so properties of
/// every entry carry over.
proof fn lemma_keep_by_subset(recs: Seq<IssueRecordView>, keep: Seq<bool>)
    requires
        keep.len() == recs.len(),
    ensures
        keep_by(recs, keep).len() <= recs.len(),
        forall|i: int|
            0 <= i < keep_by(recs, keep).len() ==> exists|j: int|
                0 <= j < recs.len() && #[trigger] keep_by(recs, keep)[i] == recs[j],
    decreases recs.len(),
{
    if recs.len() > 0 {
        lemma_keep_by_subset(recs.drop_last(), keep.drop_last());
        let r = keep_by(recs, keep);
        let p = keep_by(recs.drop_last(), keep.drop_last());
        assert forall|i: int| 0 <= i < r.len() implies exists|j: int|
            0 <= j < recs.len() && #[trigger] r[i] == recs[j] by {
            if i < p.len() {
                let j = choose|j: int| 0 <= j < recs.drop_last().len() && p[i] == recs.drop_last()[j];
                assert(r[i] == recs[j]);
            } else {
                assert(r[i] == recs[recs.len() - 1]);
            }
        }
    }
}

proof fn lemma_fresh_subset(recs: Seq<IssueRecordView>, now: u128, ttl: u128)
    ensures
        fresh(recs, now, ttl).len() <= recs.len(),
        forall|i: int|
            0 <= i < fresh(recs, now, ttl).len() ==> exists|j: int|
                0 <= j < recs.len() && #[trigger] fresh(recs, now, ttl)[i] == recs[j],
        forall|i: int|
            0 <= i < fresh(recs, now, ttl).len() ==> since(now, #[trigger] fresh(recs, now, ttl)[i].at)
                <= ttl,
    decreases recs.len(),
{
    if recs.len() > 0 {
        lemma_fresh_subset(recs.drop_last(), now, ttl);
        let r = fresh(recs, now, ttl);
        let p = fresh(recs.drop_last(), now, ttl);
        assert forall|i: int| 0 <= i < r.len() implies exists|j: int|
            0 <= j < recs.len() && #[trigger] r[i] == recs[j] by {
            if i < p.len() {
                let j = choose|j: int| 0 <= j < recs.drop_last().len() && p[i] == recs.drop_last()[j];
                assert(r[i] == recs[j]);
            } else {
                assert(r[i] == recs[recs.len() - 1]);
            }
        }
    }
}

proof fn lemma_records_wf_subset(
    small: Seq<IssueRecordView>,
    big: Seq<IssueRecordView>,
    max_records: usize,
)
    requires
        records_wf(big, max_records),
        small.len() <= big.len(),
        forall|i: int|
            0 <= i < small.len() ==> exists|j: int| 0 <= j < big.len() && #[trigger] small[i] == big[j],
    ensures
        records_wf(small, max_records),
{
    assert forall|i: int| 0 <= i < small.len() implies {
        &&& (#[trigger] small[i]).text.len() > 0
        &&& is_trimmed(small[i].text)
        &&& small[i].key.len() > 0
        &&& is_trimmed(small[i].key)
    } by {
        let j = choose|j: int| 0 <= j < big.len() && small[i] == big[j];
        assert(big[j] == small[i]);
    }
}

impl IssueJournal {
    /// The journal as the contracts see it.
    pub closed spec fn model(&self) -> JournalModel {
        JournalModel {
            records: record_models(self.records@),
            ttl: self.ttl,
            max_records: self.max_records,
            dedupe_window: self.dedupe_window,
        }
    }

    /// At most `max_records` entries, each with a non-empty trimmed text and key.
    pub open spec fn wf(&self) -> bool {
        records_wf(self.model().records, self.model().max_records)
    }

    /// An empty journal whose entries live `ttl` and which holds at most
    /// `max_records` entries; messages with the same key are merged within
    /// twenty seconds.
    pub fn new(ttl: Duration, max_records: usize) -> (j: Self)
        ensures
            j.model().records == Seq::<IssueRecordView>::empty(),
            j.model().ttl == duration_nanos(ttl),
            j.model().max_records == max_records,
            j.model().dedupe_window == DEDUPE_WINDOW_SECS * 1_000_000_000,
            j.wf(),
    {
        let ttl_nanos = duration_as_nanos(ttl);
        let window = duration_as_nanos(duration_from_secs(DEDUPE_WINDOW_SECS));
        let j = IssueJournal {
            records: VecDeque::new(),
            ttl: ttl_nanos,
            max_records,
            dedupe_window: window,
            origin: instant_now(),
        };
        assert(j.model().records =~= Seq::<IssueRecordView>::empty());
        j
    }

    /// Nanoseconds since the journal was created, on the monotonic clock.
    pub(crate) fn clock_now(&self) -> u128 {
        duration_as_nanos(instant_elapsed(&self.origin))
    }

    /// Number of entries held.
    pub fn len(&self) -> (n: usize)
        ensures
            n == self.model().records.len(),
    {
        self.records.len()
    }

    /// Records the message at time `now` (see `journal_push`).
    pub fn push_keyed_at(
        &mut self,
        severity: IssueSeverity,
        text: String,
        dedupe_key: Option<&str>,
        now: u128,
    )
        requires
            old(self).wf(),
        ensures
            final(self).model() == journal_push(
                old(self).model(),
                severity,
                text@,
                opt_view(dedupe_key),
                now,
            ),
            final(self).wf(),
    {
        let ghost j0 = self.model();
        let t = trim_str(text.as_str());
        proof {
            crate::text::lemma_trim_is_trimmed(text@);
        }
        if t.as_str().unicode_len() == 0 {
            return;
        }
        let k = match dedupe_key {
            Some(k) => trim_str(k),
            None => trim_str(t.as_str()),
        };
        proof {
            match dedupe_key {
                Some(kk) => crate::text::lemma_trim_is_trimmed(kk@),
                None => crate::text::lemma_trim_is_trimmed(t@),
            }
        }
        if k.as_str().unicode_len() == 0 {
            return;
        }
        let n = self.records.len();
        let mut i: usize = 0;
        while i < n && !(self.records[i].dedupe_key == k && since_exec(now, self.records[i].at)
            < self.dedupe_window)
            invariant
                n == self.records@.len(),
                i <= n,
                self.model() == j0,
                first_match_from(j0.records, k@, now, j0.dedupe_window, 0) == first_match_from(
                    j0.records,
                    k@,
                    now,
                    j0.dedupe_window,
                    i as int,
                ),
            decreases n - i,
        {
            assert(j0.records[i as int] == self.records@[i as int].model());
            i = i + 1;
        }
        if i < n {
            let r = &self.records[i];
            assert(j0.records[i as int] == r.model());
            assert(key_match(j0.records[i as int], k@, now, j0.dedupe_window));
            assert(first_match_from(j0.records, k@, now, j0.dedupe_window, i as int) == i);
            let sev = if severity == IssueSeverity::Error {
                IssueSeverity::Error
            } else {
                r.severity
            };
            let old_key = r.dedupe_key.clone();
            let updated = IssueRecord { at: now, severity: sev, text: t, dedupe_key: old_key };
            let ghost pre = self.records@;
            let _ = self.records.remove(i);
            self.records.insert(i, updated);
            proof {
                assert(self.records@ =~= pre.update(i as int, updated));
                let newrecs = j0.records.update(i as int, updated.model());
                assert(record_models(self.records@) =~= newrecs);
                assert forall|x: int| 0 <= x < newrecs.len() implies {
                    &&& (#[trigger] newrecs[x]).text.len() > 0
                    &&& is_trimmed(newrecs[x].text)
                    &&& newrecs[x].key.len() > 0
                    &&& is_trimmed(newrecs[x].key)
                } by {
                    if x != i {
                        assert(newrecs[x] == j0.records[x]);
                    }
                }
            }
            return;
        }
        let rec = IssueRecord { at: now, severity, text: t, dedupe_key: k };
        let ghost grown = j0.records.push(rec.model());
        self.records.push_back(rec);
        assert(record_models(self.records@) =~= grown);
        while self.records.len() > self.max_records
            invariant
                self.max_records == j0.max_records,
                self.ttl == j0.ttl,
                self.dedupe_window == j0.dedupe_window,
                grown.len() >= self.records@.len(),
                self.records@.len() >= self.max_records || self.records@.len() == grown.len(),
                record_models(self.records@) == grown.subrange(
                    grown.len() - self.records@.len(),
                    grown.len() as int,
                ),
            decreases self.records@.len(),
        {
            let ghost pre = self.records@;
            let _ = self.records.pop_front();
            assert(record_models(self.records@) =~= record_models(pre).subrange(1, pre.len() as int));
            assert(record_models(self.records@) =~= grown.subrange(
                grown.len() - self.records@.len(),
                grown.len() as int,
            ));
        }
        proof {
            if grown.len() <= j0.max_records {
                assert(grown.subrange(0, grown.len() as int) =~= grown);
            }
            assert(record_models(self.records@) == keep_last(grown, j0.max_records as nat));
            assert forall|x: int| 0 <= x < record_models(self.records@).len() implies {
                &&& (#[trigger] record_models(self.records@)[x]).text.len() > 0
                &&& is_trimmed(record_models(self.records@)[x].text)
                &&& record_models(self.records@)[x].key.len() > 0
                &&& is_trimmed(record_models(self.records@)[x].key)
            } by {
                let y = grown.len() - self.records@.len() + x;
                assert(record_models(self.records@)[x] == grown[y]);
            }
        }
    }

    /// Records the message now; its contract is that of `push_keyed_at` at
    /// some reading of the clock.
    pub fn push_keyed(&mut self, severity: IssueSeverity, text: String, dedupe_key: Option<&str>)
        requires
            old(self).wf(),
        ensures
            exists|now: u128|
                final(self).model() == #[trigger] journal_push(
                    old(self).model(),
                    severity,
                    text@,
                    opt_view(dedupe_key),
                    now,
                ),
            final(self).wf(),
    {
        let now = self.clock_now();
        self.push_keyed_at(severity, text, dedupe_key, now);
    }

    /// Records the message now, keyed by its own text.
    pub fn push(&mut self, severity: IssueSeverity, text: String)
        requires
            old(self).wf(),
        ensures
            exists|now: u128|
                final(self).model() == #[trigger] journal_push(old(self).model(), severity, text@, None, now),
            final(self).wf(),
    {
        self.push_keyed(severity, text, None);
    }

    /// Drops the entries for which `pred` holds of their text.
    pub fn clear_if(&mut self, pred: impl Fn(&str) -> bool)
        requires
            old(self).wf(),
            forall|t: &str| call_requires(pred, (t,)),
        ensures
            exists|keep: Seq<bool>|
                {
                    &&& keep.len() == old(self).model().records.len()
                    &&& forall|i: int|
                        0 <= i < keep.len() ==> pred_said(
                            pred,
                            old(self).model().records[i].text,
                            !#[trigger] keep[i],
                        )
                    &&& final(self).model() == (JournalModel {
                        records: #[trigger] keep_by(old(self).model().records, keep),
                        ..old(self).model()
                    })
                },
            final(self).wf(),
    {
        let ghost j0 = self.model();
        let mut kept: VecDeque<IssueRecord> = VecDeque::new();
        let ghost mut keep: Seq<bool> = Seq::empty();
        let n = self.records.len();
        while self.records.len() > 0
            invariant
                self.ttl == j0.ttl,
                self.max_records == j0.max_records,
                self.dedupe_window == j0.dedupe_window,
                forall|t: &str| call_requires(pred, (t,)),
                keep.len() + self.records@.len() == j0.records.len(),
                record_models(self.records@) == j0.records.subrange(keep.len() as int, j0.records.len() as int),
                record_models(kept@) == keep_by(j0.records.subrange(0, keep.len() as int), keep),
                forall|i: int|
                    0 <= i < keep.len() ==> pred_said(pred, j0.records[i].text, !#[trigger] keep[i]),
            decreases self.records@.len(),
        {
            let ghost pre = self.records@;
            let r = self.records.pop_front().unwrap();
            let ghost idx = keep.len() as int;
            assert(record_models(pre)[0] == pre[0].model());
            assert(r.model() == j0.records[idx]);
            assert(record_models(self.records@) =~= record_models(pre).subrange(1, pre.len() as int));
            let s = r.text.as_str();
            let drop = pred(s);
            assert(s@ == j0.records[idx].text);
            assert(pred_said(pred, j0.records[idx].text, drop));
            let ghost keep2 = keep.push(!drop);
            assert(j0.records.subrange(0, idx + 1).drop_last() =~= j0.records.subrange(0, idx));
            assert(keep2.drop_last() =~= keep);
            if !drop {
                let ghost kpre = kept@;
                kept.push_back(r);
                assert(record_models(kept@) =~= record_models(kpre).push(r.model()));
            }
            proof {
                keep = keep2;
            }
            assert(record_models(self.records@) =~= j0.records.subrange(keep.len() as int, j0.records.len() as int));
        }
        self.records = kept;
        proof {
            assert(j0.records.subrange(0, keep.len() as int) =~= j0.records);
            lemma_keep_by_subset(j0.records, keep);
            lemma_records_wf_subset(keep_by(j0.records, keep), j0.records, j0.max_records);
        }
    }

    /// Drops the entries not alive at `now`.
    pub fn prune_at(&mut self, now: u128)
        requires
            old(self).wf(),
        ensures
            final(self).model() == (JournalModel {
                records: fresh(old(self).model().records, now, old(self).model().ttl),
                ..old(self).model()
            }),
            final(self).wf(),
    {
        let ghost j0 = self.model();
        let mut kept: VecDeque<IssueRecord> = VecDeque::new();
        let ghost mut done: int = 0;
        while self.records.len() > 0
            invariant
                self.ttl == j0.ttl,
                self.max_records == j0.max_records,
                self.dedupe_window == j0.dedupe_window,
                0 <= done <= j0.records.len(),
                done + self.records@.len() == j0.records.len(),
                record_models(self.records@) == j0.records.subrange(done, j0.records.len() as int),
                record_models(kept@) == fresh(j0.records.subrange(0, done), now, j0.ttl),
            decreases self.records@.len(),
        {
            let ghost pre = self.records@;
            let r = self.records.pop_front().unwrap();
            assert(record_models(pre)[0] == pre[0].model());
            assert(r.model() == j0.records[done]);
            assert(record_models(self.records@) =~= record_models(pre).subrange(1, pre.len() as int));
            assert(j0.records.subrange(0, done + 1).drop_last() =~= j0.records.subrange(0, done));
            let elapsed: u128 = if now >= r.at {
                now - r.at
            } else {
                0
            };
            if elapsed <= self.ttl {
                let ghost kpre = kept@;
                kept.push_back(r);
                assert(record_models(kept@) =~= record_models(kpre).push(r.model()));
            }
            proof {
                done = done + 1;
            }
            assert(record_models(self.records@) =~= j0.records.subrange(done, j0.records.len() as int));
        }
        self.records = kept;
        proof {
            assert(j0.records.subrange(0, done) =~= j0.records);
            lemma_fresh_subset(j0.records, now, j0.ttl);
            lemma_records_wf_subset(fresh(j0.records, now, j0.ttl), j0.records, j0.max_records);
        }
    }

    /// Drops the entries not alive now.
    pub fn prune(&mut self)
        requires
            old(self).wf(),
        ensures
            exists|now: u128|
                final(self).model() == (JournalModel {
                    records: #[trigger] fresh(old(self).model().records, now, old(self).model().ttl),
                    ..old(self).model()
                }),
            final(self).wf(),
    {
        let now = self.clock_now();
        self.prune_at(now);
    }

    /// (severity, text) of the entries alive at `now`, oldest first.
    pub fn active_records_at(&self, now: u128) -> (v: Vec<(IssueSeverity, String)>)
        ensures
            crate::issues::entry_views(v@) == active(self.model().records, now, self.model().ttl),
    {
        let ghost recs = self.model().records;
        let mut out: Vec<(IssueSeverity, String)> = Vec::new();
        let mut i: usize = 0;
        while i < self.records.len()
            invariant
                i <= self.records@.len(),
                recs == self.model().records,
                crate::issues::entry_views(out@) == active(recs.subrange(0, i as int), now, self.ttl),
            decreases self.records@.len() - i,
        {
            let r = &self.records[i];
            assert(r.model() == recs[i as int]);
            assert(recs.subrange(0, i + 1).drop_last() =~= recs.subrange(0, i as int));
            let elapsed: u128 = if now >= r.at {
                now - r.at
            } else {
                0
            };
            if elapsed <= self.ttl {
                let ghost opre = out@;
                out.push((r.severity, r.text.clone()));
                assert(crate::issues::entry_views(out@) =~= crate::issues::entry_views(opre).push(
                    (r.severity, r.text@),
                ));
                assert(active(recs.subrange(0, i + 1), now, self.ttl) =~= active(
                    recs.subrange(0, i as int),
                    now,
                    self.ttl,
                ).push((r.severity, r.text@)));
            } else {
                assert(active(recs.subrange(0, i + 1), now, self.ttl) =~= active(
                    recs.subrange(0, i as int),
                    now,
                    self.ttl,
                ));
            }
            i = i + 1;
        }
        assert(recs.subrange(0, self.records@.len() as int) =~= recs);
        out
    }

    /// (severity, text) of the entries alive now, oldest first.
    pub fn active_records(&self) -> (v: Vec<(IssueSeverity, String)>)
        ensures
            exists|now: u128|
                crate::issues::entry_views(v@) == #[trigger] active(self.model().records, now, self.model().ttl),
    {
        let now = self.clock_now();
        self.active_records_at(now)
    }
}

impl Default for IssueJournal {
    /// An empty journal with zero time to live, zero capacity and a zero
    /// de-duplication window.
    fn default() -> (j: Self)
        ensures
            j.model().records == Seq::<IssueRecordView>::empty(),
            j.model().ttl == 0,
            j.model().max_records == 0,
            j.model().dedupe_window == 0,
            j.wf(),
    {
        let j = IssueJournal {
            records: VecDeque::new(),
            ttl: 0,
            max_records: 0,
            dedupe_window: 0,
            origin: instant_now(),
        };
        assert(j.model().records =~= Seq::<IssueRecordView>::empty());
        j
    }
}

proof fn lemma_first_match_found(
    recs: Seq<IssueRecordView>,
    key: Seq<char>,
    now: u128,
    window: u128,
    i: int,
    j: int,
)
    requires
        0 <= i <= j < recs.len(),
        key_match(recs[j], key, now, window),
    ensures
        i <= first_match_from(recs, key, now, window, i) <= j,
        key_match(recs[first_match_from(recs, key, now, window, i)], key, now, window),
    decreases j - i,
{
    if !key_match(recs[i], key, now, window) {
        lemma_first_match_found(recs, key, now, window, i + 1, j);
    }
}

proof fn lemma_first_match_bounds(recs: Seq<IssueRecordView>, key: Seq<char>, now: u128, window: u128, i: int)
    requires
        0 <= i <= recs.len(),
    ensures
        i <= first_match_from(recs, key, now, window, i) <= recs.len(),
        first_match_from(recs, key, now, window, i) < recs.len() ==> key_match(
            recs[first_match_from(recs, key, now, window, i)],
            key,
            now,
            window,
        ),
    decreases recs.len() - i,
{
    if i < recs.len() && !key_match(recs[i], key, now, window) {
        lemma_first_match_bounds(recs, key, now, window, i + 1);
    }
}

proof fn lemma_fresh_contains(recs: Seq<IssueRecordView>, now: u128, ttl: u128, j: int)
    requires
        0 <= j < recs.len(),
        since(now, recs[j].at) <= ttl,
    ensures
        fresh(recs, now, ttl).contains(recs[j]),
    decreases recs.len(),
{
    if j == recs.len() - 1 {
        let f = fresh(recs, now, ttl);
        assert(f[f.len() - 1] == recs[j]);
    } else {
        lemma_fresh_contains(recs.drop_last(), now, ttl, j);
        let p = fresh(recs.drop_last(), now, ttl);
        let k = choose|k: int| 0 <= k < p.len() && p[k] == recs[j];
        let f = fresh(recs, now, ttl);
        assert(f[k] == recs[j]);
    }
}

/// The trimmed text and key of a message that `journal_push` records, with
/// the position and severity of the entry that holds it afterwards.
proof fn lemma_push_lands(
    j: JournalModel,
    severity: IssueSeverity,
    text: Seq<char>,
    key: Option<Seq<char>>,
    now: u128,
) -> (pos: int)
    requires
        records_wf(j.records, j.max_records),
        j.max_records > 0,
        trim(text).len() > 0,
        trim(
            match key {
                Some(k) => k,
                None => trim(text),
            },
        ).len() > 0,
    ensures
        0 <= pos < journal_push(j, severity, text, key, now).records.len(),
        journal_push(j, severity, text, key, now).records[pos].at == now,
        journal_push(j, severity, text, key, now).records[pos].text == trim(text),
        journal_push(j, severity, text, key, now).records[pos].key == trim(
            match key {
                Some(k) => k,
                None => trim(text),
            },
        ),
        severity == IssueSeverity::Error ==> journal_push(j, severity, text, key, now).records[pos].severity
            == IssueSeverity::Error,
{
    let t = trim(text);
    let k = trim(
        match key {
            Some(k) => k,
            None => t,
        },
    );
    lemma_first_match_bounds(j.records, k, now, j.dedupe_window, 0);
    let m = first_match_from(j.records, k, now, j.dedupe_window, 0);
    if m < j.records.len() {
        m
    } else {
        let grown = j.records.push(IssueRecordView { at: now, severity, text: t, key: k });
        let kept = keep_last(grown, j.max_records as nat);
        assert(kept[kept.len() - 1] == grown[grown.len() - 1]);
        kept.len() - 1
    }
}

/// What is reported is read back: right after a message with a non-blank
/// text and key is recorded at `now`, the entries alive at `now` include its
/// trimmed text, as an error if it was reported as one (the journal must be
/// able to hold an entry).
pub proof fn lemma_reported_message_is_active(
    j: JournalModel,
    severity: IssueSeverity,
    text: Seq<char>,
    key: Option<Seq<char>>,
    now: u128,
)
    requires
        records_wf(j.records, j.max_records),
        j.max_records > 0,
        trim(text).len() > 0,
        trim(
            match key {
                Some(k) => k,
                None => trim(text),
            },
        ).len() > 0,
    ensures
        exists|s: IssueSeverity|
            #[trigger] active(journal_push(j, severity, text, key, now).records, now, j.ttl).contains(
                (s, trim(text)),
            ) && (severity == IssueSeverity::Error ==> s == IssueSeverity::Error),
{
    let pos = lemma_push_lands(j, severity, text, key, now);
    let recs = journal_push(j, severity, text, key, now).records;
    lemma_fresh_contains(recs, now, j.ttl, pos);
    let f = fresh(recs, now, j.ttl);
    let k = choose|k: int| 0 <= k < f.len() && f[k] == recs[pos];
    let a = active(recs, now, j.ttl);
    assert(a[k] == (recs[pos].severity, trim(text)));
    assert(a.contains((recs[pos].severity, trim(text))));
}

/// The journal never holds more than `max_records` entries, and every entry
/// holds a non-empty trimmed text and key.
pub proof fn lemma_push_keeps_wf(
    j: JournalModel,
    severity: IssueSeverity,
    text: Seq<char>,
    key: Option<Seq<char>>,
    now: u128,
)
    requires
        records_wf(j.records, j.max_records),
    ensures
        records_wf(journal_push(j, severity, text, key, now).records, j.max_records),
        journal_push(j, severity, text, key, now).max_records == j.max_records,
        journal_push(j, severity, text, key, now).ttl == j.ttl,
{
    let t = trim(text);
    let k = trim(
        match key {
            Some(k) => k,
            None => t,
        },
    );
    crate::text::lemma_trim_is_trimmed(text);
    crate::text::lemma_trim_is_trimmed(
        match key {
            Some(k) => k,
            None => t,
        },
    );
    if t.len() > 0 && k.len() > 0 {
        lemma_first_match_bounds(j.records, k, now, j.dedupe_window, 0);
        let m = first_match_from(j.records, k, now, j.dedupe_window, 0);
        let r = journal_push(j, severity, text, key, now).records;
        if m < j.records.len() {
            assert forall|x: int| 0 <= x < r.len() implies {
                &&& (#[trigger] r[x]).text.len() > 0
                &&& is_trimmed(r[x].text)
                &&& r[x].key.len() > 0
                &&& is_trimmed(r[x].key)
            } by {
                if x != m {
                    assert(r[x] == j.records[x]);
                }
            }
        } else {
            let grown = j.records.push(IssueRecordView { at: now, severity, text: t, key: k });
            assert forall|x: int| 0 <= x < r.len() implies {
                &&& (#[trigger] r[x]).text.len() > 0
                &&& is_trimmed(r[x].text)
                &&& r[x].key.len() > 0
                &&& is_trimmed(r[x].key)
            } by {
                let y = grown.len() - r.len() + x;
                assert(r[x] == grown[y]);
            }
        }
    }
}

/// Repeating a message within the de-duplication window does not add an
/// entry: the second report of the same text (same key) updates the entry
/// that the first one left.
pub proof fn lemma_repeat_within_window_dedupes(
    j: JournalModel,
    s1: IssueSeverity,
    s2: IssueSeverity,
    text: Seq<char>,
    key: Option<Seq<char>>,
    t1: u128,
    t2: u128,
)
    requires
        records_wf(j.records, j.max_records),
        j.max_records > 0,
        trim(text).len() > 0,
        trim(
            match key {
                Some(k) => k,
                None => trim(text),
            },
        ).len() > 0,
        t1 <= t2,
        t2 - t1 < j.dedupe_window,
    ensures
        journal_push(journal_push(j, s1, text, key, t1), s2, text, key, t2).records.len()
            == journal_push(j, s1, text, key, t1).records.len(),
{
    let j1 = journal_push(j, s1, text, key, t1);
    let pos = lemma_push_lands(j, s1, text, key, t1);
    let k = trim(
        match key {
            Some(k) => k,
            None => trim(text),
        },
    );
    assert(key_match(j1.records[pos], k, t2, j1.dedupe_window));
    lemma_first_match_found(j1.records, k, t2, j1.dedupe_window, 0, pos);
}

proof fn lemma_fresh_fresh(recs: Seq<IssueRecordView>, now: u128, ttl: u128)
    ensures
        fresh(fresh(recs, now, ttl), now, ttl) == fresh(recs, now, ttl),
    decreases recs.len(),
{
    if recs.len() > 0 {
        lemma_fresh_fresh(recs.drop_last(), now, ttl);
        let p = fresh(recs.drop_last(), now, ttl);
        if since(now, recs.last().at) <= ttl {
            let f = p.push(recs.last());
            assert(f.drop_last() =~= p);
        }
    }
}

/// Pruning at a time leaves what is shown at that time unchanged.
pub proof fn lemma_prune_keeps_active(recs: Seq<IssueRecordView>, now: u128, ttl: u128)
    ensures
        active(fresh(recs, now, ttl), now, ttl) == active(recs, now, ttl),
        forall|i: int| 0 <= i < fresh(recs, now, ttl).len() ==> since(now, #[trigger] fresh(recs, now, ttl)[i].at) <= ttl,
{
    lemma_fresh_fresh(recs, now, ttl);
    lemma_fresh_subset(recs, now, ttl);
}

/// A warning never lowers an error: when a message merges into an entry
/// that is an error, the entry stays an error and takes the new text and time.
pub proof fn lemma_merge_keeps_error(
    j: JournalModel,
    severity: IssueSeverity,
    text: Seq<char>,
    key: Option<Seq<char>>,
    now: u128,
)
    requires
        trim(text).len() > 0,
        trim(
            match key {
                Some(k) => k,
                None => trim(text),
            },
        ).len() > 0,
        first_match_from(
            j.records,
            trim(
                match key {
                    Some(k) => k,
                    None => trim(text),
                },
            ),
            now,
            j.dedupe_window,
            0,
        ) < j.records.len(),
        j.records[first_match_from(
            j.records,
            trim(
                match key {
                    Some(k) => k,
                    None => trim(text),
                },
            ),
            now,
            j.dedupe_window,
            0,
        )].severity == IssueSeverity::Error,
    ensures
        ({
            let m = first_match_from(
                j.records,
                trim(
                    match key {
                        Some(k) => k,
                        None => trim(text),
                    },
                ),
                now,
                j.dedupe_window,
                0,
            );
            let r = journal_push(j, severity, text, key, now).records;
            &&& r.len() == j.records.len()
            &&& r[m].severity == IssueSeverity::Error
            &&& r[m].text == trim(text)
            &&& r[m].at == now
        }),
{
    let k = trim(
        match key {
            Some(k) => k,
            None => trim(text),
        },
    );
    lemma_first_match_bounds(j.records, k, now, j.dedupe_window, 0);
}

} // verus!
