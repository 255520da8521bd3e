//! Character-level text helpers shared by the issue journal, the banners and
//! the order tables: Unicode white-space trimming, ASCII case mapping,
//! substring search, splitting and joining.

use vstd::prelude::*;

verus! {

/// The Unicode `White_Space` property, as `char::is_whitespace` documents it.
pub open spec fn is_ws(c: char) -> bool {
    let u = c as u32;
    ||| 0x09 <= u <= 0x0D
    ||| u == 0x20
    ||| u == 0x85
    ||| u == 0xA0
    ||| u == 0x1680
    ||| 0x2000 <= u <= 0x200A
    ||| u == 0x2028
    ||| u == 0x2029
    ||| u == 0x202F
    ||| u == 0x205F
    ||| u == 0x3000
}

/// `s` without its leading white space.
pub open spec fn trim_start(s: Seq<char>) -> Seq<char>
    decreases s.len(),
{
    if s.len() > 0 && is_ws(s[0]) {
        trim_start(s.drop_first())
    } else {
        s
    }
}

/// `s` without its trailing white space.
pub open spec fn trim_end(s: Seq<char>) -> Seq<char>
    decreases s.len(),
{
    if s.len() > 0 && is_ws(s.last()) {
        trim_end(s.drop_last())
    } else {
        s
    }
}

/// `s` without leading and trailing white space (`str::trim`).
pub open spec fn trim(s: Seq<char>) -> Seq<char> {
    trim_end(trim_start(s))
}

/// Neither end of `s` is white space.
pub open spec fn is_trimmed(s: Seq<char>) -> bool {
    s.len() > 0 ==> !is_ws(s[0]) && !is_ws(s.last())
}

/// ASCII upper-case of one character (`char::to_ascii_uppercase`).
pub open spec fn ascii_upper_char(c: char) -> char {
    if 'a' <= c && c <= 'z' {
        ((c as u32) - 32) as char
    } else {
        c
    }
}

/// ASCII upper-case of a text (`str::to_ascii_uppercase`).
pub open spec fn ascii_upper(s: Seq<char>) -> Seq<char> {
    s.map_values(|c: char| ascii_upper_char(c))
}

/// `needle` occurs in `hay` as a contiguous run (`str::contains`).
pub open spec fn contains_seq(hay: Seq<char>, needle: Seq<char>) -> bool {
    exists|i: int|
        0 <= i && i + needle.len() <= hay.len() && #[trigger] hay.subrange(i, i + needle.len())
            == needle
}

/// The pieces of `s` between occurrences of `sep` (`str::split` on a char),
/// empty pieces included.
pub open spec fn split_on(s: Seq<char>, sep: char) -> Seq<Seq<char>>
    decreases s.len(),
{
    if s.len() == 0 {
        seq![Seq::<char>::empty()]
    } else {
        let rest = split_on(s.drop_last(), sep);
        if s.last() == sep {
            rest.push(Seq::<char>::empty())
        } else {
            rest.update(rest.len() - 1, rest.last().push(s.last()))
        }
    }
}

/// The texts of `parts` separated by `sep` (`[String]::join`).
pub open spec fn join(parts: Seq<Seq<char>>, sep: Seq<char>) -> Seq<char>
    decreases parts.len(),
{
    if parts.len() == 0 {
        Seq::<char>::empty()
    } else if parts.len() == 1 {
        parts[0]
    } else {
        join(parts.drop_last(), sep) + sep + parts.last()
    }
}

/// Full Unicode upper-case mapping of a text, as `str::to_uppercase` computes it.
pub uninterp spec fn unicode_upper(s: Seq<char>) -> Seq<char>;

/// Full Unicode lower-case mapping of a text, as `str::to_lowercase` computes it.
pub uninterp spec fn unicode_lower(s: Seq<char>) -> Seq<char>;

/// Calls `str::to_uppercase`. The result is the Unicode upper-case mapping
/// of `s`, a function of `s` alone; its tables are not written out here.
#[verifier::external_body]
pub(crate) fn to_uppercase(s: &str) -> (r: String)
    ensures
        r@ == unicode_upper(s@),
{
    s.to_uppercase()
}

/// Calls `str::to_lowercase`. The result is the Unicode lower-case mapping
/// of `s`, a function of `s` alone; its tables are not written out here.
#[verifier::external_body]
pub(crate) fn to_lowercase(s: &str) -> (r: String)
    ensures
        r@ == unicode_lower(s@),
{
    s.to_lowercase()
}

/// Calls `String::push`, which appends one character at the end.
#[verifier::external_body]
pub(crate) fn push_char(s: &mut String, c: char)
    ensures
        final(s)@ == old(s)@.push(c),
{
    s.push(c)
}

/// `c` is white space in the sense of `char::is_whitespace`.
pub fn is_whitespace(c: char) -> (r: bool)
    ensures
        r == is_ws(c),
{
    let u = c as u32;
    (0x09 <= u && u <= 0x0D) || u == 0x20 || u == 0x85 || u == 0xA0 || u == 0x1680 || (0x2000
        <= u && u <= 0x200A) || u == 0x2028 || u == 0x2029 || u == 0x202F || u == 0x205F || u
        == 0x3000
}

/// The characters of `s`, in order.
pub fn chars_of(s: &str) -> (v: Vec<char>)
    ensures
        v@ == s@,
{
    let n = s.unicode_len();
    let mut v: Vec<char> = Vec::new();
    let mut i: usize = 0;
    while i < n
        invariant
            n == s@.len(),
            i <= n,
            v@ == s@.subrange(0, i as int),
        decreases n - i,
    {
        v.push(s.get_char(i));
        i = i + 1;
    }
    assert(s@.subrange(0, n as int) == s@);
    v
}

/// The text made of the characters `v`.
pub fn string_of(v: &Vec<char>) -> (s: String)
    ensures
        s@ == v@,
{
    let mut s = String::new();
    let mut i: usize = 0;
    while i < v.len()
        invariant
            i <= v.len(),
            s@ == v@.subrange(0, i as int),
        decreases v.len() - i,
    {
        push_char(&mut s, v[i]);
        assert(v@.subrange(0, i + 1) == v@.subrange(0, i as int).push(v@[i as int]));
        i = i + 1;
    }
    assert(v@.subrange(0, v.len() as int) == v@);
    s
}

/// Two texts hold the same characters.
pub fn str_eq(a: &str, b: &str) -> (r: bool)
    ensures
        r == (a@ == b@),
{
    let x = chars_of(a);
    let y = chars_of(b);
    chars_eq(&x, &y)
}

/// Two character vectors are equal.
pub fn chars_eq(x: &Vec<char>, y: &Vec<char>) -> (r: bool)
    ensures
        r == (x@ == y@),
{
    if x.len() != y.len() {
        return false;
    }
    let mut i: usize = 0;
    while i < x.len()
        invariant
            x@.len() == y@.len(),
            i <= x.len(),
            forall|k: int| 0 <= k < i ==> x@[k] == y@[k],
        decreases x.len() - i,
    {
        if x[i] != y[i] {
            return false;
        }
        i = i + 1;
    }
    assert(x@ =~= y@);
    true
}

proof fn lemma_trim_start_skip(s: Seq<char>, i: int)
    requires
        0 <= i <= s.len(),
        forall|k: int| 0 <= k < i ==> is_ws(s[k]),
    ensures
        trim_start(s) == trim_start(s.subrange(i, s.len() as int)),
    decreases i,
{
    if i > 0 {
        assert(s.drop_first() =~= s.subrange(1, s.len() as int));
        lemma_trim_start_skip(s.drop_first(), i - 1);
        assert(s.drop_first().subrange(i - 1, s.drop_first().len() as int) =~= s.subrange(
            i,
            s.len() as int,
        ));
    } else {
        assert(s.subrange(0, s.len() as int) =~= s);
    }
}

proof fn lemma_trim_end_cut(s: Seq<char>, j: int)
    requires
        0 <= j <= s.len(),
        forall|k: int| j <= k < s.len() ==> is_ws(s[k]),
    ensures
        trim_end(s) == trim_end(s.subrange(0, j)),
    decreases s.len() - j,
{
    if j < s.len() {
        assert(s.drop_last() =~= s.subrange(0, s.len() - 1));
        lemma_trim_end_cut(s.drop_last(), j);
        assert(s.drop_last().subrange(0, j) =~= s.subrange(0, j));
    } else {
        assert(s.subrange(0, j) =~= s);
    }
}

/// The text of `s` without leading and trailing white space (`str::trim`).
pub fn trim_str(s: &str) -> (r: String)
    ensures
        r@ == trim(s@),
{
    let v = chars_of(s);
    let n = v.len();
    let mut i: usize = 0;
    while i < n && is_whitespace(v[i])
        invariant
            n == v@.len(),
            v@ == s@,
            i <= n,
            forall|k: int| 0 <= k < i ==> is_ws(v@[k]),
        decreases n - i,
    {
        i = i + 1;
    }
    let mut j: usize = n;
    while j > i && is_whitespace(v[j - 1])
        invariant
            n == v@.len(),
            v@ == s@,
            i <= j <= n,
            forall|k: int| j <= k < n ==> is_ws(v@[k]),
        decreases j - i,
    {
        j = j - 1;
    }
    proof {
        let t = v@.subrange(i as int, n as int);
        lemma_trim_start_skip(v@, i as int);
        assert(trim_start(t) == t);
        lemma_trim_end_cut(t, j - i);
        let u = t.subrange(0, j - i);
        assert(u =~= v@.subrange(i as int, j as int));
        assert(trim_end(u) == u);
    }
    String::from_str(s.substring_char(i, j))
}

/// `needle` occurs in `hay`.
pub fn contains_chars(hay: &Vec<char>, needle: &Vec<char>) -> (r: bool)
    ensures
        r == contains_seq(hay@, needle@),
{
    let n = needle.len();
    let hl = hay.len();
    if n == 0 {
        assert(hay@.subrange(0, 0 + needle@.len() as int) =~= needle@);
        return true;
    }
    if n > hl {
        return false;
    }
    let last = hl - n;
    let mut i: usize = 0;
    while i <= last
        invariant
            n == needle@.len(),
            n >= 1,
            hl == hay@.len(),
            last + n == hl,
            i <= last + 1,
            forall|k: int| 0 <= k < i ==> #[trigger] hay@.subrange(k, k + n) != needle@,
        decreases last + 1 - i,
    {
        let mut j: usize = 0;
        while j < n && hay[i + j] == needle[j]
            invariant
                n == needle@.len(),
                hl == hay@.len(),
                last + n == hl,
                i <= last,
                j <= n,
                forall|k: int| 0 <= k < j ==> hay@[i + k] == needle@[k],
            decreases n - j,
        {
            j = j + 1;
        }
        if j == n {
            assert(hay@.subrange(i as int, i + n) =~= needle@);
            return true;
        }
        assert(hay@.subrange(i as int, i + n)[j as int] != needle@[j as int]);
        i = i + 1;
    }
    proof {
        assert forall|k: int|
            0 <= k && k + needle@.len() <= hay@.len() implies #[trigger] hay@.subrange(
            k,
            k + needle@.len(),
        ) != needle@ by {
            assert(k < i);
        }
    }
    false
}

/// `needle` occurs in `hay`, both given as texts.
pub fn str_contains(hay: &Vec<char>, needle: &str) -> (r: bool)
    ensures
        r == contains_seq(hay@, needle@),
{
    let n = chars_of(needle);
    contains_chars(hay, &n)
}

/// ASCII upper-case of a text (`str::to_ascii_uppercase`).
pub fn to_ascii_upper(s: &str) -> (r: String)
    ensures
        r@ == ascii_upper(s@),
{
    let v = chars_of(s);
    let mut out: Vec<char> = Vec::new();
    let mut i: usize = 0;
    while i < v.len()
        invariant
            i <= v.len(),
            out@ == ascii_upper(v@.subrange(0, i as int)),
        decreases v.len() - i,
    {
        let c = v[i];
        let u = if 'a' <= c && c <= 'z' {
            let b = c as u32 - 32;
            assert(b < 256);
            (b as u8) as char
        } else {
            c
        };
        assert(u == ascii_upper_char(c));
        out.push(u);
        assert(ascii_upper(v@.subrange(0, i + 1)) =~= ascii_upper(v@.subrange(0, i as int)).push(
            ascii_upper_char(v@[i as int]),
        ));
        i = i + 1;
    }
    assert(v@.subrange(0, v.len() as int) =~= v@);
    string_of(&out)
}

proof fn lemma_split_step(s: Seq<char>, i: int, sep: char)
    requires
        0 <= i < s.len(),
    ensures
        split_on(s.subrange(0, i + 1), sep) == ({
            let rest = split_on(s.subrange(0, i), sep);
            if s[i] == sep {
                rest.push(Seq::<char>::empty())
            } else {
                rest.update(rest.len() - 1, rest.last().push(s[i]))
            }
        }),
{
    assert(s.subrange(0, i + 1).drop_last() =~= s.subrange(0, i));
}

/// `split_on` always yields at least one piece.
pub proof fn lemma_split_nonempty(s: Seq<char>, sep: char)
    ensures
        split_on(s, sep).len() >= 1,
    decreases s.len(),
{
    if s.len() > 0 {
        lemma_split_nonempty(s.drop_last(), sep);
    }
}

/// The pieces of `s` between occurrences of `sep`.
pub fn split_chars(s: &Vec<char>, sep: char) -> (r: Vec<Vec<char>>)
    ensures
        r@.map_values(|p: Vec<char>| p@) == split_on(s@, sep),
{
    let mut done: Vec<Vec<char>> = Vec::new();
    let mut cur: Vec<char> = Vec::new();
    let mut i: usize = 0;
    while i < s.len()
        invariant
            i <= s.len(),
            done@.map_values(|p: Vec<char>| p@).push(cur@) == split_on(s@.subrange(0, i as int), sep),
        decreases s.len() - i,
    {
        proof {
            lemma_split_step(s@, i as int, sep);
        }
        let c = s[i];
        if c == sep {
            let piece = cur;
            cur = Vec::new();
            done.push(piece);
            assert(done@.map_values(|p: Vec<char>| p@).push(cur@) =~= split_on(
                s@.subrange(0, i as int),
                sep,
            ).push(Seq::<char>::empty()));
        } else {
            let ghost before = done@.map_values(|p: Vec<char>| p@).push(cur@);
            cur.push(c);
            assert(done@.map_values(|p: Vec<char>| p@).push(cur@) =~= before.update(
                before.len() - 1,
                before.last().push(c),
            ));
        }
        i = i + 1;
    }
    assert(s@.subrange(0, s.len() as int) =~= s@);
    done.push(cur);
    assert(done@.map_values(|p: Vec<char>| p@) =~= split_on(s@, sep));
    done
}

/// The views of a sequence of string slices.
pub open spec fn str_views(v: Seq<&str>) -> Seq<Seq<char>> {
    v.map_values(|s: &str| s@)
}

/// The views of a sequence of strings.
pub open spec fn views(v: Seq<String>) -> Seq<Seq<char>> {
    v.map_values(|s: String| s@)
}

/// The texts of `parts` separated by `sep` (`[String]::join`).
pub fn join_strings(parts: &[String], sep: &str) -> (r: String)
    ensures
        r@ == join(views(parts@), sep@),
{
    let mut out = String::new();
    let mut i: usize = 0;
    while i < parts.len()
        invariant
            i <= parts.len(),
            out@ == join(views(parts@).subrange(0, i as int), sep@),
        decreases parts.len() - i,
    {
        let ghost pre = views(parts@).subrange(0, i as int);
        let ghost nxt = views(parts@).subrange(0, i + 1);
        assert(nxt.drop_last() =~= pre);
        if i > 0 {
            out.append(sep);
        } else {
            assert(pre.len() == 0);
        }
        out.append(parts[i].as_str());
        i = i + 1;
    }
    assert(views(parts@).subrange(0, parts.len() as int) =~= views(parts@));
    out
}

proof fn lemma_trim_start_shape(s: Seq<char>)
    ensures
        trim_start(s).len() <= s.len(),
        trim_start(s) == s.subrange(s.len() - trim_start(s).len(), s.len() as int),
        trim_start(s).len() > 0 ==> !is_ws(trim_start(s)[0]),
    decreases s.len(),
{
    if s.len() > 0 && is_ws(s[0]) {
        lemma_trim_start_shape(s.drop_first());
        let r = trim_start(s.drop_first());
        assert(s.drop_first().subrange(s.drop_first().len() - r.len(), s.drop_first().len() as int)
            =~= s.subrange(s.len() - r.len(), s.len() as int));
    } else {
        assert(s.subrange(0, s.len() as int) =~= s);
    }
}

proof fn lemma_trim_end_shape(s: Seq<char>)
    ensures
        trim_end(s).len() <= s.len(),
        trim_end(s) == s.subrange(0, trim_end(s).len() as int),
        trim_end(s).len() > 0 ==> !is_ws(trim_end(s).last()),
    decreases s.len(),
{
    if s.len() > 0 && is_ws(s.last()) {
        lemma_trim_end_shape(s.drop_last());
        let r = trim_end(s.drop_last());
        assert(s.drop_last().subrange(0, r.len() as int) =~= s.subrange(0, r.len() as int));
    } else {
        assert(s.subrange(0, s.len() as int) =~= s);
    }
}

/// The trimmed text has no white space at either end.
pub proof fn lemma_trim_is_trimmed(s: Seq<char>)
    ensures
        is_trimmed(trim(s)),
        trim(s).len() <= s.len(),
{
    lemma_trim_start_shape(s);
    let a = trim_start(s);
    lemma_trim_end_shape(a);
    let b = trim_end(a);
    if b.len() > 0 {
        assert(b[0] == a[0]);
    }
}

/// A text with no white space at either end is its own trim.
pub proof fn lemma_trimmed_fixed(s: Seq<char>)
    requires
        is_trimmed(s),
    ensures
        trim(s) == s,
{
}

/// Trimming twice is trimming once.
pub proof fn lemma_trim_idempotent(s: Seq<char>)
    ensures
        trim(trim(s)) == trim(s),
{
    lemma_trim_is_trimmed(s);
    lemma_trimmed_fixed(trim(s));
}

/// A text without the separator is a single piece.
pub proof fn lemma_split_no_sep(s: Seq<char>, sep: char)
    requires
        !s.contains(sep),
    ensures
        split_on(s, sep) == seq![s],
    decreases s.len(),
{
    if s.len() == 0 {
        assert(s =~= Seq::<char>::empty());
    } else {
        assert(!s.drop_last().contains(sep)) by {
            if s.drop_last().contains(sep) {
                let i = choose|i: int| 0 <= i < s.drop_last().len() && s.drop_last()[i] == sep;
                assert(s[i] == sep);
            }
        }
        lemma_split_no_sep(s.drop_last(), sep);
        assert(s.last() != sep) by {
            assert(s[s.len() - 1] == s.last());
        }
        assert(s.drop_last().push(s.last()) =~= s);
        assert(split_on(s, sep) =~= seq![s]);
    }
}

/// Splitting `a`, the separator, then a piece `b` without it, adds `b`.
pub proof fn lemma_split_concat(a: Seq<char>, sep: char, b: Seq<char>)
    requires
        !b.contains(sep),
    ensures
        split_on(a + seq![sep] + b, sep) == split_on(a, sep).push(b),
    decreases b.len(),
{
    let s = a + seq![sep] + b;
    if b.len() == 0 {
        assert(s.drop_last() =~= a);
        assert(s.last() == sep);
        assert(b =~= Seq::<char>::empty());
    } else {
        let b2 = b.drop_last();
        assert(!b2.contains(sep)) by {
            if b2.contains(sep) {
                let i = choose|i: int| 0 <= i < b2.len() && b2[i] == sep;
                assert(b[i] == sep);
            }
        }
        lemma_split_concat(a, sep, b2);
        assert(s.drop_last() =~= a + seq![sep] + b2);
        assert(s.last() == b.last());
        assert(b.last() != sep) by {
            assert(b[b.len() - 1] == b.last());
        }
        assert(b2.push(b.last()) =~= b);
        assert(split_on(s, sep) =~= split_on(a, sep).push(b));
    }
}

proof fn lemma_trim_start_push(p: Seq<char>, x: char)
    ensures
        trim_start(p.push(x)) == if trim_start(p).len() == 0 {
            trim_start(seq![x])
        } else {
            trim_start(p).push(x)
        },
    decreases p.len(),
{
    if p.len() == 0 {
        assert(p.push(x) =~= seq![x]);
    } else if is_ws(p[0]) {
        assert(p.push(x).drop_first() =~= p.drop_first().push(x));
        lemma_trim_start_push(p.drop_first(), x);
    } else {
        assert(p.push(x)[0] == p[0]);
    }
}

/// Trailing white space does not change the trim.
pub proof fn lemma_trim_push_ws(p: Seq<char>, x: char)
    requires
        is_ws(x),
    ensures
        trim(p.push(x)) == trim(p),
{
    lemma_trim_start_push(p, x);
    let q = trim_start(p);
    if q.len() == 0 {
        let one = seq![x];
        assert(one[0] == x);
        assert(one.drop_first() =~= Seq::<char>::empty());
        assert(trim_start(one.drop_first()) =~= Seq::<char>::empty());
        assert(trim_start(one) =~= Seq::<char>::empty());
    } else {
        assert(q.push(x).drop_last() =~= q);
    }
}

/// Leading white space does not change the trim.
pub proof fn lemma_trim_prepend_ws(x: char, l: Seq<char>)
    requires
        is_ws(x),
    ensures
        trim(seq![x] + l) == trim(l),
{
    assert((seq![x] + l).drop_first() =~= l);
}

/// The pieces of `split_on` never hold the separator.
pub proof fn lemma_split_pieces_lack_sep(s: Seq<char>, sep: char)
    ensures
        forall|i: int|
            0 <= i < split_on(s, sep).len() ==> !(#[trigger] split_on(s, sep)[i]).contains(sep),
    decreases s.len(),
{
    if s.len() > 0 {
        lemma_split_pieces_lack_sep(s.drop_last(), sep);
        lemma_split_nonempty(s.drop_last(), sep);
        let rest = split_on(s.drop_last(), sep);
        let r = split_on(s, sep);
        assert forall|i: int| 0 <= i < r.len() implies !(#[trigger] r[i]).contains(sep) by {
            if s.last() == sep {
                if i < rest.len() {
                    assert(r[i] == rest[i]);
                } else {
                    assert(r[i] =~= Seq::<char>::empty());
                }
            } else if i < rest.len() - 1 {
                assert(r[i] == rest[i]);
            } else {
                let p = rest.last().push(s.last());
                assert(r[i] == p);
                assert(!rest[rest.len() - 1].contains(sep));
                if p.contains(sep) {
                    let k = choose|k: int| 0 <= k < p.len() && p[k] == sep;
                    if k < p.len() - 1 {
                        assert(rest.last()[k] == sep);
                    }
                }
            }
        }
    }
}

/// Trimming keeps only characters of the text.
pub proof fn lemma_trim_keeps_absent(p: Seq<char>, c: char)
    requires
        !p.contains(c),
    ensures
        !trim(p).contains(c),
{
    lemma_trim_start_shape(p);
    let a = trim_start(p);
    lemma_trim_end_shape(a);
    let b = trim_end(a);
    if b.contains(c) {
        let k = choose|k: int| 0 <= k < b.len() && b[k] == c;
        assert(a[k] == c);
        assert(p[p.len() - a.len() + k] == c);
    }
}

/// Putting a non-separator character in front of a text puts it in front of
/// the first piece.
pub proof fn lemma_split_prepend(c: char, s: Seq<char>, sep: char)
    requires
        c != sep,
    ensures
        split_on(seq![c] + s, sep) == split_on(s, sep).update(0, seq![c] + split_on(s, sep)[0]),
    decreases s.len(),
{
    lemma_split_nonempty(s, sep);
    let cs = seq![c] + s;
    if s.len() == 0 {
        assert(cs =~= seq![c]);
        assert(cs.drop_last() =~= Seq::<char>::empty());
        assert(s =~= Seq::<char>::empty());
        assert(split_on(s, sep) =~= seq![Seq::<char>::empty()]);
        assert(split_on(cs.drop_last(), sep) =~= seq![Seq::<char>::empty()]);
        assert(cs.last() == c);
        assert(Seq::<char>::empty().push(c) =~= seq![c]);
        assert(split_on(cs, sep) =~= seq![seq![c]]);
        assert(seq![c] + Seq::<char>::empty() =~= seq![c]);
        assert(split_on(s, sep).update(0, seq![c] + split_on(s, sep)[0]) =~= seq![seq![c]]);
    } else {
        let s2 = s.drop_last();
        let x = s.last();
        lemma_split_prepend(c, s2, sep);
        lemma_split_nonempty(s2, sep);
        assert(cs.drop_last() =~= seq![c] + s2);
        assert(cs.last() == x);
        let p = split_on(s2, sep);
        let r = p.update(0, seq![c] + p[0]);
        if x == sep {
            assert(split_on(s, sep) == p.push(Seq::<char>::empty()));
            assert(split_on(cs, sep) == r.push(Seq::<char>::empty()));
            assert(split_on(s, sep)[0] == p[0]);
            assert(r.push(Seq::<char>::empty()) =~= p.push(Seq::<char>::empty()).update(
                0,
                seq![c] + p[0],
            ));
        } else {
            let q = p.update(p.len() - 1, p.last().push(x));
            assert(split_on(s, sep) == q);
            assert(split_on(cs, sep) == r.update(r.len() - 1, r.last().push(x)));
            if p.len() == 1 {
                assert(q[0] == p[0].push(x));
                assert((seq![c] + p[0]).push(x) =~= seq![c] + p[0].push(x));
                assert(r.update(r.len() - 1, r.last().push(x)) =~= q.update(0, seq![c] + q[0]));
            } else {
                assert(q[0] == p[0]);
                assert(r.last() == p.last());
                assert(r.update(r.len() - 1, r.last().push(x)) =~= q.update(0, seq![c] + q[0]));
            }
        }
    }
}

} // verus!
