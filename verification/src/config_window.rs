//! Configuration window titles, Config Manager deep links, and the decisions
//! taken around the config-persist bus.

use vstd::prelude::*;

use crate::text::{join, str_views, to_lowercase, trim, trim_str, unicode_lower};

verus! {

/// Label of the toolbar button that opens Config Manager.
pub const MENU_CONFIG_LABEL: &'static str = "Config Manager";

/// macOS bundle id of Config Manager.
pub const CONFIG_MANAGER_BUNDLE_ID: &'static str = "io.aestrk.configmanager";

/// URL scheme of Config Manager deep links.
pub const CONFIG_MANAGER_URL_SCHEME: &'static str = "io.aestrk.configmanager";

/// OS title of a configuration window: `{app} — Configuration`.
pub open spec fn viewport_title(app_title: Seq<char>) -> Seq<char> {
    app_title + " \u{2014} Configuration"@
}

/// OS title of a configuration window.
pub fn config_viewport_title(app_title: &str) -> (r: String)
    ensures
        r@ == viewport_title(app_title@),
{
    let mut s = String::from_str(app_title);
    s.append(" \u{2014} Configuration");
    s
}

/// Deep link that opens Config Manager on the section of `app_id`.
pub open spec fn manager_url(app_id: Seq<char>) -> Seq<char> {
    "io.aestrk.configmanager://app/"@ + app_id
}

/// Deep link that opens Config Manager on the section of `app_id`.
pub fn config_manager_url(app_id: &str) -> (r: String)
    ensures
        r@ == manager_url(app_id@),
{
    let mut s = String::from_str("io.aestrk.configmanager://app/");
    s.append(app_id);
    s
}

/// One entry of a persisted JSON object: its key and whether its value is null.
pub struct PersistEntry {
    pub key: String,
    pub is_null: bool,
}

/// The entry counts as a setting: its key does not start with `_` and its
/// value is not null.
pub open spec fn entry_counts(key: Seq<char>, is_null: bool) -> bool {
    !(key.len() > 0 && key[0] == '_') && !is_null
}

/// A persisted payload is worth applying: it is an object with at least one
/// entry that counts.
pub open spec fn payload_nonempty(object: Option<Seq<PersistEntry>>) -> bool {
    match object {
        None => false,
        Some(es) => has_setting(es),
    }
}

/// Some entry counts as a setting.
pub open spec fn has_setting(es: Seq<PersistEntry>) -> bool {
    exists|i: int| #![trigger es[i]] 0 <= i < es.len() && entry_counts(es[i].key@, es[i].is_null)
}

fn any_setting(es: &[PersistEntry]) -> (r: bool)
    ensures
        r == has_setting(es@),
{
    let mut i: usize = 0;
    while i < es.len()
        invariant
            i <= es.len(),
            forall|k: int| #![trigger es@[k]] 0 <= k < i ==> !entry_counts(es@[k].key@, es@[k].is_null),
        decreases es.len() - i,
    {
        let e = &es[i];
        let n = e.key.as_str().unicode_len();
        let underscore = n > 0 && e.key.as_str().get_char(0) == '_';
        if !underscore && !e.is_null {
            assert(entry_counts(es@[i as int].key@, es@[i as int].is_null));
            return true;
        }
        i = i + 1;
    }
    false
}

/// Whether a persisted payload (its object entries, `None` when it is not an
/// object) holds at least one setting.
pub fn persist_payload_nonempty(object: Option<&[PersistEntry]>) -> (r: bool)
    ensures
        r == payload_nonempty(
            match object {
                Some(es) => Some(es@),
                None => None,
            },
        ),
{
    match object {
        None => false,
        Some(es) => any_setting(es),
    }
}

/// A flag value that means "yes": `1`, `true`, `yes` or `on`.
pub open spec fn is_truthy(v: Seq<char>) -> bool {
    v == "1"@ || v == "true"@ || v == "yes"@ || v == "on"@
}

/// The config-persist relay is started here unless the environment says it
/// runs elsewhere (the variable set to a trimmed, lower-cased yes-value).
pub open spec fn relay_wanted(external: Option<Seq<char>>) -> bool {
    match external {
        None => true,
        Some(v) => !is_truthy(unicode_lower(trim(v))),
    }
}

/// Whether to start the config-persist relay, given the value of the
/// variable that says it runs elsewhere (`None` when unset).
pub fn persist_relay_wanted(external: Option<&str>) -> (r: bool)
    ensures
        r == relay_wanted(
            match external {
                Some(v) => Some(v@),
                None => None,
            },
        ),
{
    match external {
        None => true,
        Some(v) => {
            let t = trim_str(v);
            let l = to_lowercase(t.as_str());
            let s = l.as_str();
            !(crate::text::str_eq(s, "1") || crate::text::str_eq(s, "true") || crate::text::str_eq(
                s,
                "yes",
            ) || crate::text::str_eq(s, "on"))
        },
    }
}


/// Key under which a config-persist listener is installed once: the persist
/// id, then the environment keys, separated by NUL characters.
pub open spec fn listener_key(persist_id: Seq<char>, env_keys: Seq<Seq<char>>) -> Seq<char> {
    if env_keys.len() == 0 {
        persist_id
    } else {
        persist_id + "\0"@ + join(env_keys, "\0"@)
    }
}

/// Key under which a config-persist listener is installed once.
pub fn persist_listener_key(persist_id: &str, env_keys: &[&str]) -> (r: String)
    ensures
        r@ == listener_key(persist_id@, str_views(env_keys@)),
{
    let mut s = String::from_str(persist_id);
    if env_keys.len() == 0 {
        return s;
    }
    s.append("\0");
    let mut i: usize = 0;
    let ghost base = s@;
    while i < env_keys.len()
        invariant
            i <= env_keys.len(),
            base == persist_id@ + "\0"@,
            s@ == base + join(str_views(env_keys@).subrange(0, i as int), "\0"@),
        decreases env_keys.len() - i,
    {
        let ghost pre = str_views(env_keys@).subrange(0, i as int);
        assert(str_views(env_keys@).subrange(0, i + 1).drop_last() =~= pre);
        if i > 0 {
            s.append("\0");
        }
        s.append(env_keys[i]);
        assert(s@ =~= base + join(str_views(env_keys@).subrange(0, i + 1), "\0"@));
        i = i + 1;
    }
    assert(str_views(env_keys@).subrange(0, env_keys.len() as int) =~= str_views(env_keys@));
    s
}

/// Whether a payload holds a setting looks at every entry, in no particular
/// order: a non-object or empty object holds none, a single entry counts
/// exactly when its key does not start with `_` and its value is not null,
/// and two lists of entries put together hold a setting exactly when one of
/// them does.
pub proof fn lemma_payload_setting_any_entry(a: Seq<PersistEntry>, b: Seq<PersistEntry>, e: PersistEntry)
    ensures
        !payload_nonempty(None),
        !payload_nonempty(Some(Seq::<PersistEntry>::empty())),
        payload_nonempty(Some(seq![e])) == (!(e.key@.len() > 0 && e.key@[0] == '_') && !e.is_null),
        payload_nonempty(Some(a + b)) == (payload_nonempty(Some(a)) || payload_nonempty(Some(b))),
{
    let one = seq![e];
    if has_setting(one) {
        let i = choose|i: int| #![trigger one[i]] 0 <= i < one.len() && entry_counts(one[i].key@, one[i].is_null);
        assert(one[i] == e);
    }
    if !(e.key@.len() > 0 && e.key@[0] == '_') && !e.is_null {
        assert(one[0] == e);
        assert(entry_counts(one[0].key@, one[0].is_null));
    }
    let ab = a + b;
    if has_setting(ab) {
        let i = choose|i: int| #![trigger ab[i]] 0 <= i < ab.len() && entry_counts(ab[i].key@, ab[i].is_null);
        if i < a.len() {
            assert(ab[i] == a[i]);
            assert(entry_counts(a[i].key@, a[i].is_null));
        } else {
            assert(ab[i] == b[i - a.len()]);
            assert(entry_counts(b[i - a.len()].key@, b[i - a.len()].is_null));
        }
    }
    if has_setting(a) {
        let i = choose|i: int| #![trigger a[i]] 0 <= i < a.len() && entry_counts(a[i].key@, a[i].is_null);
        assert(ab[i] == a[i]);
    }
    if has_setting(b) {
        let i = choose|i: int| #![trigger b[i]] 0 <= i < b.len() && entry_counts(b[i].key@, b[i].is_null);
        assert(ab[a.len() + i] == b[i]);
    }
}

} // verus!
