//! Banners closed by hand (✕): which kinds and which contents the user has
//! dismissed, and which stacked issue banners remain to be shown.

use vstd::prelude::*;

use crate::text::{join, join_strings, trim, trim_str, views};

verus! {

/// Registry key of a dismissed content: the kind, `:`, the trimmed content.
pub open spec fn content_key(kind: Seq<char>, content: Seq<char>) -> Seq<char> {
    kind + ":"@ + trim(content)
}

/// At most the first `n` characters of `s`.
pub open spec fn take_chars(s: Seq<char>, n: nat) -> Seq<char> {
    if s.len() <= n {
        s
    } else {
        s.subrange(0, n as int)
    }
}

/// The log line written when a banner is dismissed; the summary is cut to
/// its first 200 characters.
pub open spec fn dismiss_log_line(app_id: Seq<char>, kind: Seq<char>, summary: Seq<char>) -> Seq<char> {
    "GUI_BANNER_DISMISSED | app="@ + trim(app_id) + " | kind="@ + kind + " | summary="@
        + take_chars(summary, 200)
}

/// The log line written when a banner is dismissed.
pub fn dismiss_log_message(app_id: &str, kind: &str, summary: &str) -> (r: String)
    ensures
        r@ == dismiss_log_line(app_id@, kind@, summary@),
{
    let n = summary.unicode_len();
    let cut = if n <= 200 {
        n
    } else {
        200
    };
    let preview = summary.substring_char(0, cut);
    proof {
        if n <= 200 {
            assert(summary@.subrange(0, n as int) =~= summary@);
        }
    }
    let mut s = String::from_str("GUI_BANNER_DISMISSED | app=");
    let a = trim_str(app_id);
    s.append(a.as_str());
    s.append(" | kind=");
    s.append(kind);
    s.append(" | summary=");
    s.append(preview);
    s
}

/// Kinds dismissed for the whole session, and contents dismissed until the
/// message changes.
#[derive(Clone)]
pub struct BannerDismissRegistry {
    kinds: Vec<String>,
    content: Vec<String>,
}

impl View for BannerDismissRegistry {
    /// (dismissed kinds, dismissed content keys).
    type V = (Set<Seq<char>>, Set<Seq<char>>);

    closed spec fn view(&self) -> (Set<Seq<char>>, Set<Seq<char>>) {
        (views(self.kinds@).to_set(), views(self.content@).to_set())
    }
}

fn find_line(lines: &Vec<String>, key: &String) -> (r: bool)
    ensures
        r == views(lines@).contains(key@),
{
    let mut i: usize = 0;
    while i < lines.len()
        invariant
            i <= lines.len(),
            forall|k: int| 0 <= k < i ==> #[trigger] views(lines@)[k] != key@,
        decreases lines.len() - i,
    {
        if lines[i] == *key {
            assert(views(lines@)[i as int] == key@);
            return true;
        }
        i = i + 1;
    }
    false
}

fn insert_line(lines: &mut Vec<String>, key: String) -> (added: bool)
    ensures
        views(final(lines)@).to_set() == views(old(lines)@).to_set().insert(key@),
        added == !views(old(lines)@).to_set().contains(key@),
{
    if find_line(lines, &key) {
        assert(views(lines@).to_set() =~= views(lines@).to_set().insert(key@));
        false
    } else {
        let ghost pre = views(lines@);
        lines.push(key);
        assert(views(lines@) =~= pre.push(key@));
        assert(views(lines@).to_set() =~= pre.to_set().insert(key@)) by {
            assert forall|x: Seq<char>| pre.push(key@).contains(x) <==> (pre.contains(x) || x
                == key@) by {
                if pre.push(key@).contains(x) {
                    let i = choose|i: int| 0 <= i < pre.push(key@).len() && pre.push(key@)[i] == x;
                    if i < pre.len() {
                        assert(pre[i] == x);
                    }
                }
                if pre.contains(x) {
                    let i = choose|i: int| 0 <= i < pre.len() && pre[i] == x;
                    assert(pre.push(key@)[i] == x);
                }
                if x == key@ {
                    assert(pre.push(key@)[pre.len() as int] == x);
                }
            }
        }
        true
    }
}

/// The registry key of a dismissed content.
pub fn content_key_string(kind: &str, content: &str) -> (r: String)
    ensures
        r@ == content_key(kind@, content@),
{
    let mut s = String::from_str(kind);
    s.append(":");
    let t = trim_str(content);
    s.append(t.as_str());
    s
}

impl BannerDismissRegistry {
    /// Nothing dismissed.
    pub fn new() -> (r: Self)
        ensures
            r@.0 == Set::<Seq<char>>::empty(),
            r@.1 == Set::<Seq<char>>::empty(),
    {
        let r = BannerDismissRegistry { kinds: Vec::new(), content: Vec::new() };
        assert(r@.0 =~= Set::<Seq<char>>::empty());
        assert(r@.1 =~= Set::<Seq<char>>::empty());
        r
    }

    /// The kind was dismissed.
    pub fn is_dismissed_kind(&self, kind: &str) -> (r: bool)
        ensures
            r == self@.0.contains(kind@),
    {
        find_line(&self.kinds, &String::from_str(kind))
    }

    /// This content of this kind was dismissed.
    pub fn is_dismissed_content(&self, kind: &str, content: &str) -> (r: bool)
        ensures
            r == self@.1.contains(content_key(kind@, content@)),
    {
        find_line(&self.content, &content_key_string(kind, content))
    }

    /// Dismisses `kind` for the session. Returns the log line when the kind
    /// was not dismissed before, and nothing otherwise.
    pub fn dismiss_kind(&mut self, app_id: &str, kind: &str, summary: &str) -> (log: Option<String>)
        ensures
            final(self)@ == (old(self)@.0.insert(kind@), old(self)@.1),
            log is Some <==> !old(self)@.0.contains(kind@),
            log matches Some(m) ==> m@ == dismiss_log_line(app_id@, kind@, summary@),
    {
        if insert_line(&mut self.kinds, String::from_str(kind)) {
            Some(dismiss_log_message(app_id, kind, summary))
        } else {
            None
        }
    }

    /// Dismisses this content of this kind until the message changes.
    /// Returns the log line when it was not dismissed before.
    pub fn dismiss_content(&mut self, app_id: &str, kind: &str, content: &str) -> (log: Option<String>)
        ensures
            final(self)@ == (old(self)@.0, old(self)@.1.insert(content_key(kind@, content@))),
            log is Some <==> !old(self)@.1.contains(content_key(kind@, content@)),
            log matches Some(m) ==> m@ == dismiss_log_line(app_id@, kind@, content@),
    {
        if insert_line(&mut self.content, content_key_string(kind, content)) {
            Some(dismiss_log_message(app_id, kind, content))
        } else {
            None
        }
    }
}

impl Default for BannerDismissRegistry {
    fn default() -> (r: Self)
        ensures
            r@.0 == Set::<Seq<char>>::empty(),
            r@.1 == Set::<Seq<char>>::empty(),
    {
        Self::new()
    }
}

/// Separator of the lines of one banner, ` · `.
pub open spec fn banner_join_sep() -> Seq<char> {
    crate::issues::detail_sep()
}

/// The detail text of a banner: its lines joined by ` · `.
pub open spec fn banner_detail(lines: Seq<Seq<char>>) -> Seq<char> {
    join(lines, banner_join_sep())
}

/// Which stacked issue banners to draw, with their detail texts.
pub struct IssueBannerPlan {
    pub error_detail: Option<String>,
    pub warning_detail: Option<String>,
}

/// The detail of the banner of `lines` under `kind`, unless there are no
/// lines or the user dismissed exactly that detail.
pub open spec fn banner_shown(reg: (Set<Seq<char>>, Set<Seq<char>>), kind: Seq<char>, lines: Seq<Seq<char>>) -> Option<Seq<char>> {
    if lines.len() == 0 || reg.1.contains(content_key(kind, banner_detail(lines))) {
        None
    } else {
        Some(banner_detail(lines))
    }
}

/// The view of an optional text.
pub open spec fn opt_string_view(o: Option<String>) -> Option<Seq<char>> {
    match o {
        Some(s) => Some(s@),
        None => None,
    }
}

fn banner_for(reg: &BannerDismissRegistry, kind: &str, lines: &[String]) -> (r: Option<String>)
    ensures
        opt_string_view(r) == banner_shown(reg@, kind@, views(lines@)),
{
    if lines.len() == 0 {
        return None;
    }
    let sep = " \u{b7} ";
    proof {
        reveal_strlit(" \u{b7} ");
        assert(sep@ =~= banner_join_sep());
    }
    let detail = join_strings(lines, sep);
    if reg.is_dismissed_content(kind, detail.as_str()) {
        None
    } else {
        Some(detail)
    }
}

/// Decides the stacked banners: the error banner (kind `error`) and the
/// warning banner (kind `warning`), each shown unless empty or dismissed.
pub fn issue_banner_plan(reg: &BannerDismissRegistry, errors: &[String], warnings: &[String]) -> (p: IssueBannerPlan)
    ensures
        opt_string_view(p.error_detail) == banner_shown(reg@, "error"@, views(errors@)),
        opt_string_view(p.warning_detail) == banner_shown(reg@, "warning"@, views(warnings@)),
{
    IssueBannerPlan {
        error_detail: banner_for(reg, "error", errors),
        warning_detail: banner_for(reg, "warning", warnings),
    }
}

/// A dismissed content is keyed by its trimmed text: the banner stays
/// dismissed while the trimmed message is the same, and comes back as soon as
/// it changes.
pub proof fn lemma_content_key_tracks_message(kind: Seq<char>, c1: Seq<char>, c2: Seq<char>)
    ensures
        content_key(kind, c1) == content_key(kind, c2) <==> trim(c1) == trim(c2),
{
    let p = kind + ":"@;
    if content_key(kind, c1) == content_key(kind, c2) {
        assert((p + trim(c1)).subrange(p.len() as int, (p + trim(c1)).len() as int) =~= trim(c1));
        assert((p + trim(c2)).subrange(p.len() as int, (p + trim(c2)).len() as int) =~= trim(c2));
    }
}
} // verus!
