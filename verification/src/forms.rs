//! Form definitions and records: aliases and names derived from user text,
//! field assignments, field kinds and record path selection.

use vstd::prelude::*;
use crate::text;
use crate::glob;
use crate::messages::ApiError;

verus! {

/// One character of alias derivation: letters, digits and `_` are kept in
/// lower case; a run of `-` or whitespace after some kept text becomes a
/// single `-`; anything else is dropped. The flag records that the last
/// character written was such a separator.
pub open spec fn alias_step(st: (Seq<char>, bool), c: char) -> (Seq<char>, bool) {
    if text::is_alnum(c) || c == '_' {
        (st.0.push(text::lower_char(c)), false)
    } else if (c == '-' || text::is_ws(c)) && st.0.len() > 0 && !st.1 {
        (st.0.push('-'), true)
    } else {
        st
    }
}

/// Alias derivation over a whole text; it stops once 128 characters are written.
pub open spec fn alias_scan(s: Seq<char>) -> (Seq<char>, bool)
    decreases s.len(),
{
    if s.len() == 0 {
        (Seq::empty(), false)
    } else {
        let st = alias_scan(s.drop_last());
        if st.0.len() >= 128 { st } else { alias_step(st, s.last()) }
    }
}

/// The default alias of a form name: the derived text without trailing `-`,
/// `form` when nothing is left, and prefixed with `form-` (then cut to 128
/// characters) when it would not start with a letter or `_`.
pub open spec fn form_alias(name: Seq<char>) -> Seq<char> {
    let a = text::trim_end_char(alias_scan(text::trim(name)).0, '-');
    let a = if a.len() == 0 { "form"@ } else { a };
    if a[0] == '_' || text::is_alpha(a[0]) {
        a
    } else {
        let b = "form-"@ + a;
        text::trim_end_char(if b.len() > 128 { b.subrange(0, 128) } else { b }, '-')
    }
}

proof fn lemma_scan_stable(s: Seq<char>, i: int)
    requires
        0 <= i <= s.len(),
        alias_scan(s.subrange(0, i)).0.len() >= 128,
    ensures
        alias_scan(s) == alias_scan(s.subrange(0, i)),
    decreases s.len() - i,
{
    if i < s.len() {
        let t = s.subrange(0, i + 1);
        assert(t.drop_last() =~= s.subrange(0, i));
        assert(alias_scan(t) == alias_scan(s.subrange(0, i)));
        lemma_scan_stable(s, i + 1);
    } else {
        assert(s.subrange(0, i) =~= s);
    }
}

/// A character that an alias may hold: a lower-case ASCII letter or digit,
/// `_` or `-`.
pub open spec fn alias_char(c: char) -> bool {
    ('a' <= c && c <= 'z') || ('0' <= c && c <= '9') || c == '_' || c == '-'
}

/// A well-formed form alias: 1 to 128 alias characters, starting with a
/// lower-case letter or `_` and not ending with `-`.
pub open spec fn is_form_alias(a: Seq<char>) -> bool {
    &&& 1 <= a.len() <= 128
    &&& (a[0] == '_' || ('a' <= a[0] && a[0] <= 'z'))
    &&& a.last() != '-'
    &&& forall|i: int| 0 <= i < a.len() ==> alias_char(#[trigger] a[i])
}

proof fn lemma_scan_well_formed(s: Seq<char>)
    ensures ({
        let a = alias_scan(s).0;
        &&& a.len() <= 128
        &&& (forall|i: int| 0 <= i < a.len() ==> alias_char(#[trigger] a[i]))
        &&& (a.len() > 0 ==> a[0] != '-')
    }),
    decreases s.len(),
{
    if s.len() > 0 {
        lemma_scan_well_formed(s.drop_last());
        let st = alias_scan(s.drop_last());
        if st.0.len() < 128 {
            let c = s.last();
            let next = alias_step(st, c);
            if text::is_alnum(c) || c == '_' {
                assert(alias_char(text::lower_char(c)));
                assert forall|i: int| 0 <= i < next.0.len() implies alias_char(#[trigger] next.0[i]) by {
                    if i < st.0.len() {
                        assert(next.0[i] == st.0[i]);
                    }
                }
            } else if (c == '-' || text::is_ws(c)) && st.0.len() > 0 && !st.1 {
                assert forall|i: int| 0 <= i < next.0.len() implies alias_char(#[trigger] next.0[i]) by {
                    if i < st.0.len() {
                        assert(next.0[i] == st.0[i]);
                    }
                }
            }
        }
    }
}

proof fn lemma_trail_stops(s: Seq<char>, c: char)
    ensures
        text::trail_len(s, text::char_pred(c)) <= s.len(),
        text::trail_len(s, text::char_pred(c)) < s.len()
            ==> s[s.len() - 1 - text::trail_len(s, text::char_pred(c))] != c,
    decreases s.len(),
{
    if s.len() > 0 && s.last() == c {
        lemma_trail_stops(s.drop_last(), c);
        let k = text::trail_len(s.drop_last(), text::char_pred(c));
        if k < s.drop_last().len() {
            assert(s.drop_last()[s.drop_last().len() - 1 - k] == s[s.len() - 1 - (k + 1)]);
        }
    }
}

proof fn lemma_trail_all(s: Seq<char>, c: char)
    ensures
        forall|j: int| s.len() - text::trail_len(s, text::char_pred(c)) <= j < s.len() ==> #[trigger] s[j] == c,
    decreases s.len(),
{
    text::lemma_trail_le(s, text::char_pred(c));
    if s.len() > 0 && s.last() == c {
        lemma_trail_all(s.drop_last(), c);
        assert forall|j: int| s.len() - text::trail_len(s, text::char_pred(c)) <= j < s.len() implies #[trigger] s[j] == c by {
            if j < s.len() - 1 {
                assert(s[j] == s.drop_last()[j]);
            }
        }
    }
}

/// Every alias derived from a name is a well-formed alias.
pub proof fn lemma_form_alias_is_well_formed(name: Seq<char>)
    ensures is_form_alias(form_alias(name)),
{
    let scanned = alias_scan(text::trim(name)).0;
    lemma_scan_well_formed(text::trim(name));
    lemma_trail_stops(scanned, '-');
    let t = text::trim_end_char(scanned, '-');
    assert forall|i: int| 0 <= i < t.len() implies alias_char(#[trigger] t[i]) by {
        assert(t[i] == scanned[i]);
    }
    if t.len() > 0 {
        assert(t[0] == scanned[0]);
        assert(t.last() == scanned[t.len() - 1]);
    }
    reveal_strlit("form");
    reveal_strlit("form-");
    let a = if t.len() == 0 { "form"@ } else { t };
    assert(forall|i: int| 0 <= i < a.len() ==> alias_char(#[trigger] a[i]));
    if !(a[0] == '_' || text::is_alpha(a[0])) {
        let b = "form-"@ + a;
        assert forall|i: int| 0 <= i < b.len() implies alias_char(#[trigger] b[i]) by {
            if i >= 5 {
                assert(b[i] == a[i - 5]);
            }
        }
        let cut = if b.len() > 128 { b.subrange(0, 128) } else { b };
        assert(cut.len() >= 6);
        assert(cut[0] == 'f' && cut[1] == 'o' && cut[2] == 'r' && cut[3] == 'm');
        assert forall|i: int| 0 <= i < cut.len() implies alias_char(#[trigger] cut[i]) by {
            assert(cut[i] == b[i]);
        }
        lemma_trail_stops(cut, '-');
        let k = text::trail_len(cut, text::char_pred('-'));
        lemma_trail_all(cut, '-');
        if k > cut.len() - 4 {
            assert(cut[3] == '-');
        }
        let r = text::trim_end_char(cut, '-');
        assert(r[0] == 'f');
        assert forall|i: int| 0 <= i < r.len() implies alias_char(#[trigger] r[i]) by {
            assert(r[i] == cut[i]);
        }
        assert(r.last() == cut[r.len() - 1]);
    }
}

/// No two `-` stand next to each other.
pub open spec fn no_double_dash(a: Seq<char>) -> bool {
    forall|i: int| 0 <= i < a.len() - 1 ==> !(#[trigger] a[i] == '-' && a[i + 1] == '-')
}

proof fn lemma_scan_no_double_dash(s: Seq<char>)
    ensures
        no_double_dash(alias_scan(s).0),
        alias_scan(s).1 == (alias_scan(s).0.len() > 0 && alias_scan(s).0.last() == '-'),
    decreases s.len(),
{
    if s.len() > 0 {
        lemma_scan_no_double_dash(s.drop_last());
        let st = alias_scan(s.drop_last());
        if st.0.len() < 128 {
            let c = s.last();
            let next = alias_step(st, c);
            if text::is_alnum(c) || c == '_' {
                assert(text::lower_char(c) != '-');
                assert forall|i: int| 0 <= i < next.0.len() - 1 implies !(#[trigger] next.0[i] == '-' && next.0[i + 1] == '-') by {
                    if i + 1 < st.0.len() {
                        assert(next.0[i] == st.0[i] && next.0[i + 1] == st.0[i + 1]);
                    }
                }
            } else if (c == '-' || text::is_ws(c)) && st.0.len() > 0 && !st.1 {
                assert forall|i: int| 0 <= i < next.0.len() - 1 implies !(#[trigger] next.0[i] == '-' && next.0[i + 1] == '-') by {
                    if i + 1 < st.0.len() {
                        assert(next.0[i] == st.0[i] && next.0[i + 1] == st.0[i + 1]);
                    } else {
                        assert(next.0[i] == st.0.last());
                    }
                }
            }
        }
    }
}

proof fn lemma_prefix_no_double_dash(a: Seq<char>, n: int)
    requires no_double_dash(a), 0 <= n <= a.len(),
    ensures no_double_dash(a.subrange(0, n)),
{
    assert forall|i: int| 0 <= i < a.subrange(0, n).len() - 1 implies
        !(#[trigger] a.subrange(0, n)[i] == '-' && a.subrange(0, n)[i + 1] == '-') by {
        assert(a.subrange(0, n)[i] == a[i] && a.subrange(0, n)[i + 1] == a[i + 1]);
    }
}

/// An alias with no `--` is copied unchanged by the derivation's scan.
proof fn lemma_scan_copies_alias(a: Seq<char>, n: int)
    requires
        is_form_alias(a),
        no_double_dash(a),
        0 <= n <= a.len(),
    ensures
        alias_scan(a.subrange(0, n)) == (a.subrange(0, n), n > 0 && a[n - 1] == '-'),
    decreases n,
{
    if n > 0 {
        lemma_scan_copies_alias(a, n - 1);
        let p = a.subrange(0, n);
        assert(p.drop_last() =~= a.subrange(0, n - 1));
        let c = a[n - 1];
        assert(alias_char(c));
        if c == '-' {
            assert(n - 1 > 0) by {
                if n - 1 == 0 {
                    assert(a[0] == c);
                }
            }
            assert(a[n - 2] != '-');
        } else {
            assert(text::lower_char(c) == c);
        }
        assert(a.subrange(0, n - 1).push(if c == '-' { '-' } else { text::lower_char(c) }) =~= p);
    }
}

/// A well-formed alias without `--` is its own alias.
proof fn lemma_form_alias_of_alias(a: Seq<char>)
    requires
        is_form_alias(a),
        no_double_dash(a),
    ensures form_alias(a) == a,
{
    assert(!text::is_ws(a[0])) by {
        assert(alias_char(a[0]));
    }
    assert(!text::is_ws(a.last())) by {
        assert(alias_char(a[a.len() - 1]));
    }
    assert(text::lead_len(a, text::ws_pred()) == 0);
    assert(text::trim_start(a) =~= a);
    assert(text::trail_len(a, text::ws_pred()) == 0);
    assert(text::trim_end(a) =~= a);
    assert(text::trim(a) == a);
    lemma_scan_copies_alias(a, a.len() as int);
    assert(a.subrange(0, a.len() as int) =~= a);
    assert(text::trail_len(a, text::char_pred('-')) == 0);
    assert(text::trim_end_char(a, '-') =~= a);
}

/// The default alias of a form name holds no `--`, and deriving the alias of
/// that alias gives it back.
pub proof fn lemma_form_alias_is_stable(name: Seq<char>)
    ensures
        no_double_dash(form_alias(name)),
        form_alias(form_alias(name)) == form_alias(name),
{
    lemma_form_alias_is_well_formed(name);
    lemma_scan_well_formed(text::trim(name));
    let scanned = alias_scan(text::trim(name)).0;
    lemma_scan_no_double_dash(text::trim(name));
    text::lemma_trail_le(scanned, text::char_pred('-'));
    let t = text::trim_end_char(scanned, '-');
    lemma_prefix_no_double_dash(scanned, t.len() as int);
    reveal_strlit("form");
    reveal_strlit("form-");
    let a = if t.len() == 0 { "form"@ } else { t };
    assert(no_double_dash(a)) by {
        if t.len() == 0 {
            assert(a =~= seq!['f', 'o', 'r', 'm']);
        }
    }
    if !(a[0] == '_' || text::is_alpha(a[0])) {
        let b = "form-"@ + a;
        assert(t.len() > 0);
        assert(a[0] == scanned[0]);
        assert(a[0] != '-');
        assert(alias_char(a[0]));
        assert(no_double_dash(b)) by {
            assert forall|i: int| 0 <= i < b.len() - 1 implies !(#[trigger] b[i] == '-' && b[i + 1] == '-') by {
                if i >= 5 {
                    assert(b[i] == a[i - 5] && b[i + 1] == a[i - 4]);
                } else if i == 4 {
                    assert(b[i + 1] == a[0]);
                }
            }
        }
        let cut = if b.len() > 128 { b.subrange(0, 128) } else { b };
        assert(no_double_dash(cut)) by {
            if b.len() > 128 {
                lemma_prefix_no_double_dash(b, 128);
            }
        }
        text::lemma_trail_le(cut, text::char_pred('-'));
        lemma_prefix_no_double_dash(cut, text::trim_end_char(cut, '-').len() as int);
    }
    lemma_form_alias_of_alias(form_alias(name));
}

/// Derives a form alias from a form name.
pub fn default_form_alias(name: &str) -> (r: String)
    ensures
        r@ == form_alias(name@),
        is_form_alias(r@),
{
    proof { lemma_form_alias_is_well_formed(name@); }
    let t = text::str_trim(name);
    let n = t.unicode_len();
    let mut alias = String::new();
    let mut previous_separator = false;
    let mut i: usize = 0;
    while i < n && alias.as_str().unicode_len() < 128
        invariant
            i <= n,
            n == t@.len(),
            (alias@, previous_separator) == alias_scan(t@.subrange(0, i as int)),
        decreases n - i,
    {
        let ch = t.get_char(i);
        let ghost pre = t@.subrange(0, i as int);
        assert(t@.subrange(0, i + 1).drop_last() =~= pre);
        if text::char_is_alnum(ch) || ch == '_' {
            text::push_char(&mut alias, text::char_to_lower(ch));
            previous_separator = false;
        } else if (ch == '-' || text::char_is_ws(ch)) && alias.as_str().unicode_len() > 0 && !previous_separator {
            text::push_char(&mut alias, '-');
            previous_separator = true;
        }
        i = i + 1;
    }
    proof {
        if i == n {
            assert(t@.subrange(0, n as int) =~= t@);
        } else {
            lemma_scan_stable(t@, i as int);
        }
    }
    assert((alias@, previous_separator) == alias_scan(t@));
    let trimmed = text::trim_end_matches_char(alias.as_str(), '-');
    proof { reveal_strlit("form"); }
    let a = if trimmed.unicode_len() == 0 { text::owned("form") } else { text::owned(trimmed) };
    let first = a.as_str().get_char(0);
    if first == '_' || text::char_is_alpha(first) {
        return a;
    }
    let b = text::concat2("form-", a.as_str());
    let bs = b.as_str();
    let cut = if bs.unicode_len() > 128 { bs.substring_char(0, 128) } else { bs };
    text::owned(text::trim_end_matches_char(cut, '-'))
}

/// The default name of a form record: the last non-empty component of its path.
pub open spec fn form_name_of(path: Seq<char>) -> Seq<char> {
    let t = text::trim_end_char(path, '/');
    if t.len() == 0 {
        "form"@
    } else {
        glob::last_component(t)
    }
}

/// The default name of a form record at `path`.
pub fn default_form_name(path: &str) -> (r: String)
    ensures r@ == form_name_of(path@),
{
    let t = text::trim_end_matches_char(path, '/');
    let n = t.unicode_len();
    if n == 0 {
        return text::owned("form");
    }
    match text::rfind_char_index(t, '/') {
        None => text::owned(t),
        Some(k) => {
            proof { text::lemma_rfind_char(t@, '/'); }
            text::owned(t.substring_char(k + 1, n))
        },
    }
}

/// A line read from a terminal or file without its line ending.
pub open spec fn without_newline(v: Seq<char>) -> Seq<char> {
    if v.len() > 0 && v.last() == '\n' {
        let w = v.drop_last();
        if w.len() > 0 && w.last() == '\r' { w.drop_last() } else { w }
    } else {
        v
    }
}

/// Removes one trailing `\n` or `\r\n`.
pub fn trim_trailing_newline(value: String) -> (r: String)
    ensures r@ == without_newline(value@),
{
    let v = value.as_str();
    let n = v.unicode_len();
    if n > 0 && v.get_char(n - 1) == '\n' {
        if n > 1 && v.get_char(n - 2) == '\r' {
            text::owned(v.substring_char(0, n - 2))
        } else {
            text::owned(v.substring_char(0, n - 1))
        }
    } else {
        value
    }
}

/// A form record path matches a selection pattern: a glob (holding `*` or `?`)
/// is matched against the path without leading slashes; any other pattern
/// selects that path and the paths below it.
pub open spec fn form_path_selected(pattern: Seq<char>, path: Seq<char>) -> bool {
    if text::has_char(pattern, '*') || text::has_char(pattern, '?') {
        glob::glob(vstd::utf8::encode_utf8(text::trim_start_char(pattern, '/')),
            vstd::utf8::encode_utf8(text::trim_start_char(path, '/')))
    } else {
        let p = if pattern.len() > 0 && pattern[0] == '/' { pattern } else { seq!['/'] + pattern };
        path == p || text::has_prefix(path, p.push('/'))
    }
}

/// Whether a form record path matches a selection pattern.
pub fn form_path_matches(pattern: &str, path: &str) -> (r: bool)
    ensures r == form_path_selected(pattern@, path@),
{
    if glob::contains_glob(pattern) {
        return glob::glob_matches(text::trim_start_matches_char(pattern, '/'),
            text::trim_start_matches_char(path, '/'));
    }
    proof { reveal_strlit("/"); }
    assert("/"@ =~= seq!['/']);
    let p = if pattern.unicode_len() > 0 && pattern.get_char(0) == '/' {
        text::owned(pattern)
    } else {
        text::concat2("/", pattern)
    };
    if text::str_eq(path, p.as_str()) {
        return true;
    }
    proof {
        if text::has_prefix(path@, p@.push('/')) {
            assert(path@.subrange(0, p@.len() as int) =~= path@.subrange(0, p@.len() + 1 as int).subrange(0, p@.len() as int));
            assert(p@.push('/').subrange(0, p@.len() as int) =~= p@);
            assert(path@[p@.len() as int] == path@.subrange(0, p@.len() + 1 as int)[p@.len() as int]);
        }
    }
    match text::strip_prefix(path, p.as_str()) {
        None => false,
        Some(rest) => {
            let r = rest.unicode_len() > 0 && rest.get_char(0) == '/';
            proof {
                if r {
                    assert(path@.subrange(0, p@.len() + 1 as int) =~= p@.push('/'));
                } else if text::has_prefix(path@, p@.push('/')) {
                    assert(rest@[0] == path@[p@.len() as int]);
                }
            }
            r
        },
    }
}

/// Splits a `FIELD=VALUE` assignment at its first `=`.
pub fn parse_field_assignment(spec: &str) -> (r: Result<(String, String), ApiError>)
    ensures
        match text::find_char(spec@, '=') {
            None => r matches Err(ApiError::InvalidInput(m)) && m@ == "form field assignment must be FIELD=VALUE"@,
            Some(k) => if k == 0 {
                r matches Err(ApiError::InvalidInput(m)) && m@ == "form field id cannot be empty"@
            } else {
                r matches Ok((f, v)) && f@ == spec@.subrange(0, k) && v@ == spec@.subrange(k + 1, spec@.len() as int)
            },
        },
{
    let n = spec.unicode_len();
    match text::find_char_index(spec, '=') {
        None => Err(ApiError::InvalidInput(text::owned("form field assignment must be FIELD=VALUE"))),
        Some(k) => {
            if k == 0 {
                Err(ApiError::InvalidInput(text::owned("form field id cannot be empty")))
            } else {
                Ok((text::owned(spec.substring_char(0, k)), text::owned(spec.substring_char(k + 1, n))))
            }
        },
    }
}

/// The kind of value a form field holds.
#[derive(Clone, Copy, Debug, PartialEq, Eq, Structural)]
pub enum FieldKind {
    Text,
    Secret,
    Url,
    Email,
    Date,
    Month,
    Notes,
    Number,
}

pub open spec fn field_kind_of(v: Seq<char>) -> Option<FieldKind> {
    if v == "text"@ { Some(FieldKind::Text) }
    else if v == "secret"@ || v == "password"@ { Some(FieldKind::Secret) }
    else if v == "url"@ { Some(FieldKind::Url) }
    else if v == "email"@ { Some(FieldKind::Email) }
    else if v == "date"@ { Some(FieldKind::Date) }
    else if v == "month"@ { Some(FieldKind::Month) }
    else if v == "notes"@ { Some(FieldKind::Notes) }
    else if v == "number"@ { Some(FieldKind::Number) }
    else { None }
}

/// Parses a field kind name; `password` is an alias of `secret`.
pub fn parse_field_kind(value: &str) -> (r: Result<FieldKind, ApiError>)
    ensures
        field_kind_of(value@) matches Some(k) ==> r == Ok::<FieldKind, ApiError>(k),
        field_kind_of(value@) is None ==> (r matches Err(ApiError::InvalidInput(m))
            && m@ == "unsupported form field kind: "@ + value@),
{
    if text::str_eq(value, "text") { Ok(FieldKind::Text) }
    else if text::str_eq(value, "secret") || text::str_eq(value, "password") { Ok(FieldKind::Secret) }
    else if text::str_eq(value, "url") { Ok(FieldKind::Url) }
    else if text::str_eq(value, "email") { Ok(FieldKind::Email) }
    else if text::str_eq(value, "date") { Ok(FieldKind::Date) }
    else if text::str_eq(value, "month") { Ok(FieldKind::Month) }
    else if text::str_eq(value, "notes") { Ok(FieldKind::Notes) }
    else if text::str_eq(value, "number") { Ok(FieldKind::Number) }
    else { Err(ApiError::InvalidInput(text::concat2("unsupported form field kind: ", value))) }
}

/// A field of a form definition.
#[derive(Clone, Debug)]
pub struct FieldDefinition {
    pub id: String,
    pub label: String,
    pub kind: FieldKind,
    pub required: bool,
}

/// The parts of a field spec `ID[:KIND[:required[:LABEL]]]`: split at the
/// first three `:`, the label keeping any further ones.
pub open spec fn field_spec_parts(spec: Seq<char>) -> (Seq<char>, Option<Seq<char>>, Option<Seq<char>>, Option<Seq<char>>) {
    match text::split_once_char(spec, ':') {
        None => (spec, None, None, None),
        Some((id, r1)) => match text::split_once_char(r1, ':') {
            None => (id, Some(r1), None, None),
            Some((kind, r2)) => match text::split_once_char(r2, ':') {
                None => (id, Some(kind), Some(r2), None),
                Some((req, label)) => (id, Some(kind), Some(req), Some(label)),
            },
        },
    }
}

/// Parses a field spec `ID[:KIND[:required[:LABEL]]]`: the kind defaults to
/// text, the field is required only when its third part is `required`, and
/// an absent or empty label is the id.
pub fn parse_field_spec(spec: &str) -> (r: Result<FieldDefinition, ApiError>)
    ensures
        ({
            let (id, kind, req, label) = field_spec_parts(spec@);
            match kind {
                Some(k) if field_kind_of(k) is None => r matches Err(ApiError::InvalidInput(m))
                    && m@ == "unsupported form field kind: "@ + k,
                _ => r matches Ok(f)
                    && f.id@ == id
                    && f.kind == (match kind { Some(k) => field_kind_of(k).unwrap(), None => FieldKind::Text })
                    && f.required == (req == Some("required"@))
                    && f.label@ == (match label { Some(l) => if l.len() > 0 { l } else { id }, None => id }),
            }
        }),
{
    let (id, rest) = match text::split_once_char_str(spec, ':') {
        None => (spec, None),
        Some((a, b)) => (a, Some(b)),
    };
    let (kind_text, rest) = match rest {
        None => (None, None),
        Some(r1) => match text::split_once_char_str(r1, ':') {
            None => (Some(r1), None),
            Some((a, b)) => (Some(a), Some(b)),
        },
    };
    let (req_text, label_text) = match rest {
        None => (None, None),
        Some(r2) => match text::split_once_char_str(r2, ':') {
            None => (Some(r2), None),
            Some((a, b)) => (Some(a), Some(b)),
        },
    };
    let kind = match kind_text {
        Some(k) => match parse_field_kind(k) {
            Ok(kind) => kind,
            Err(e) => return Err(e),
        },
        None => FieldKind::Text,
    };
    let required = match req_text {
        Some(q) => text::str_eq(q, "required"),
        None => false,
    };
    let label = match label_text {
        Some(l) => if l.unicode_len() > 0 { text::owned(l) } else { text::owned(id) },
        None => text::owned(id),
    };
    Ok(FieldDefinition { id: text::owned(id), label, kind, required })
}

/// The name and alias of a form definition: the name is `--name` or else the
/// alias; the alias is the one given or else derived from the name.
pub fn form_name_and_alias(alias: Option<&str>, name: Option<&str>) -> (r: Result<(String, String), ApiError>)
    ensures
        alias is None && name is None ==> (r matches Err(ApiError::InvalidInput(m))
            && m@ == "form define requires an alias or --name"@),
        alias is Some || name is Some ==> (r matches Ok((n, a)) && ({
            let chosen = match name { Some(x) => x@, None => alias->0@ };
            &&& n@ == chosen
            &&& a@ == match alias { Some(x) => x@, None => form_alias(chosen) }
        })),
{
    let chosen = match name {
        Some(x) => text::owned(x),
        None => match alias {
            Some(a) => text::owned(a),
            None => return Err(ApiError::InvalidInput(text::owned("form define requires an alias or --name"))),
        },
    };
    let a = match alias {
        Some(x) => text::owned(x),
        None => default_form_alias(chosen.as_str()),
    };
    Ok((chosen, a))
}

/// Where `form set` reads a field's value from.
#[derive(Clone, Debug)]
pub enum FieldValueSource {
    Interactive,
    Stdin,
    Value(String),
    File(String),
    FromEnv(String),
    /// The value given as a positional argument.
    Literal(String),
}

/// The number of value sources given to `form set`.
pub open spec fn field_source_count(interactive: bool, stdin: bool, value: Option<&str>, file: Option<&str>,
    from_env: Option<&str>, literal: Option<&str>) -> nat
{
    (if interactive { 1nat } else { 0nat }) + (if stdin { 1nat } else { 0nat }) + (if value is Some { 1nat } else { 0nat })
        + (if file is Some { 1nat } else { 0nat }) + (if from_env is Some { 1nat } else { 0nat })
        + (if literal is Some { 1nat } else { 0nat })
}

/// The value source of `form set`: exactly one of `--interactive`, `--stdin`,
/// `--value`, `--file`, `--from-env` and a positional value.
pub fn form_value_source(
    interactive: bool,
    stdin: bool,
    value: Option<&str>,
    file: Option<&str>,
    from_env: Option<&str>,
    literal: Option<&str>,
) -> (r: Result<FieldValueSource, ApiError>)
    ensures
        field_source_count(interactive, stdin, value, file, from_env, literal) != 1 ==> (r matches Err(ApiError::InvalidInput(m))
            && m@ == "form set accepts exactly one value source"@),
        field_source_count(interactive, stdin, value, file, from_env, literal) == 1 ==> (r is Ok
            && (interactive ==> r matches Ok(FieldValueSource::Interactive))
            && (stdin ==> r matches Ok(FieldValueSource::Stdin))
            && (value matches Some(v) ==> r matches Ok(FieldValueSource::Value(x)) && x@ == v@)
            && (file matches Some(v) ==> r matches Ok(FieldValueSource::File(x)) && x@ == v@)
            && (from_env matches Some(v) ==> r matches Ok(FieldValueSource::FromEnv(x)) && x@ == v@)
            && (literal matches Some(v) ==> r matches Ok(FieldValueSource::Literal(x)) && x@ == v@)),
{
    let count: usize = (if interactive { 1usize } else { 0usize }) + (if stdin { 1usize } else { 0usize })
        + (if value.is_some() { 1usize } else { 0usize }) + (if file.is_some() { 1usize } else { 0usize })
        + (if from_env.is_some() { 1usize } else { 0usize }) + (if literal.is_some() { 1usize } else { 0usize });
    if count != 1 {
        return Err(ApiError::InvalidInput(text::owned("form set accepts exactly one value source")));
    }
    if interactive {
        return Ok(FieldValueSource::Interactive);
    }
    if stdin {
        return Ok(FieldValueSource::Stdin);
    }
    match value {
        Some(v) => return Ok(FieldValueSource::Value(text::owned(v))),
        None => {},
    }
    match file {
        Some(v) => return Ok(FieldValueSource::File(text::owned(v))),
        None => {},
    }
    match from_env {
        Some(v) => return Ok(FieldValueSource::FromEnv(text::owned(v))),
        None => {},
    }
    match literal {
        Some(v) => Ok(FieldValueSource::Literal(text::owned(v))),
        None => Err(ApiError::InvalidInput(text::owned("form set accepts exactly one value source"))),
    }
}

} // verus!
