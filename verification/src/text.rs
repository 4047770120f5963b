//! Character-level string operations with specifications over `Seq<char>`.

use vstd::prelude::*;

verus! {

/// Whitespace as `char::is_whitespace` defines it (the Unicode `White_Space` property).
pub open spec fn is_ws(c: char) -> bool {
    ||| c == '\t' || c == '\n' || c == '\u{0B}' || c == '\u{0C}' || c == '\r' || c == ' '
    ||| c == '\u{85}' || c == '\u{A0}' || c == '\u{1680}'
    ||| ('\u{2000}' <= c && c <= '\u{200A}')
    ||| c == '\u{2028}' || c == '\u{2029}' || c == '\u{202F}' || c == '\u{205F}' || c == '\u{3000}'
}

pub fn char_is_ws(c: char) -> (r: bool)
    ensures r == is_ws(c),
{
    c == '\t' || c == '\n' || c == '\u{0B}' || c == '\u{0C}' || c == '\r' || c == ' '
        || c == '\u{85}' || c == '\u{A0}' || c == '\u{1680}'
        || ('\u{2000}' <= c && c <= '\u{200A}')
        || c == '\u{2028}' || c == '\u{2029}' || c == '\u{202F}' || c == '\u{205F}' || c == '\u{3000}'
}

/// Number of leading characters of `s` that satisfy `p`.
pub open spec fn lead_len(s: Seq<char>, p: spec_fn(char) -> bool) -> nat
    decreases s.len(),
{
    if s.len() > 0 && p(s[0]) {
        1 + lead_len(s.drop_first(), p)
    } else {
        0
    }
}

/// Number of trailing characters of `s` that satisfy `p`.
pub open spec fn trail_len(s: Seq<char>, p: spec_fn(char) -> bool) -> nat
    decreases s.len(),
{
    if s.len() > 0 && p(s.last()) {
        1 + trail_len(s.drop_last(), p)
    } else {
        0
    }
}

pub proof fn lemma_lead_len(s: Seq<char>, p: spec_fn(char) -> bool, i: int)
    requires
        0 <= i <= s.len(),
        forall|j: int| 0 <= j < i ==> p(#[trigger] s[j]),
        i == s.len() || !p(s[i]),
    ensures
        lead_len(s, p) == i,
    decreases s.len(),
{
    if s.len() > 0 && p(s[0]) {
        assert forall|j: int| 0 <= j < i - 1 implies p(#[trigger] s.drop_first()[j]) by {
            assert(s.drop_first()[j] == s[j + 1]);
        }
        lemma_lead_len(s.drop_first(), p, i - 1);
    }
}

pub proof fn lemma_trail_len(s: Seq<char>, p: spec_fn(char) -> bool, i: int)
    requires
        0 <= i <= s.len(),
        forall|j: int| s.len() - i <= j < s.len() ==> p(#[trigger] s[j]),
        i == s.len() || !p(s[s.len() - 1 - i]),
    ensures
        trail_len(s, p) == i,
    decreases s.len(),
{
    if s.len() > 0 && p(s.last()) {
        assert forall|j: int| s.drop_last().len() - (i - 1) <= j < s.drop_last().len()
            implies p(#[trigger] s.drop_last()[j]) by {
            assert(s.drop_last()[j] == s[j]);
        }
        lemma_trail_len(s.drop_last(), p, i - 1);
    }
}

pub open spec fn ws_pred() -> spec_fn(char) -> bool {
    |c: char| is_ws(c)
}

pub open spec fn digit_pred() -> spec_fn(char) -> bool {
    |c: char| is_digit(c)
}

pub open spec fn char_pred(x: char) -> spec_fn(char) -> bool {
    |c: char| c == x
}

/// `str::trim_start`.
pub open spec fn trim_start(s: Seq<char>) -> Seq<char> {
    s.subrange(lead_len(s, ws_pred()) as int, s.len() as int)
}

/// `str::trim_end`.
pub open spec fn trim_end(s: Seq<char>) -> Seq<char> {
    s.subrange(0, s.len() - trail_len(s, ws_pred()))
}

/// `str::trim`.
pub open spec fn trim(s: Seq<char>) -> Seq<char> {
    trim_end(trim_start(s))
}

/// `str::trim_start_matches` with a single character.
pub open spec fn trim_start_char(s: Seq<char>, c: char) -> Seq<char> {
    s.subrange(lead_len(s, char_pred(c)) as int, s.len() as int)
}

/// `str::trim_end_matches` with a single character.
pub open spec fn trim_end_char(s: Seq<char>, c: char) -> Seq<char> {
    s.subrange(0, s.len() - trail_len(s, char_pred(c)))
}

pub proof fn lemma_lead_le(s: Seq<char>, p: spec_fn(char) -> bool)
    ensures lead_len(s, p) <= s.len(),
    decreases s.len(),
{
    if s.len() > 0 && p(s[0]) {
        lemma_lead_le(s.drop_first(), p);
    }
}

pub proof fn lemma_trail_le(s: Seq<char>, p: spec_fn(char) -> bool)
    ensures trail_len(s, p) <= s.len(),
    decreases s.len(),
{
    if s.len() > 0 && p(s.last()) {
        lemma_trail_le(s.drop_last(), p);
    }
}

/// Copies a string slice into a new `String`.
pub fn owned(s: &str) -> (r: String)
    ensures r@ == s@,
{
    s.to_owned()
}

/// Index of the first character of `s` from `start` on that is not whitespace.
fn skip_ws_forward(s: &str) -> (i: usize)
    ensures
        i == lead_len(s@, ws_pred()),
        i <= s@.len(),
{
    let n = s.unicode_len();
    let mut i: usize = 0;
    while i < n && char_is_ws(s.get_char(i))
        invariant
            i <= n,
            n == s@.len(),
            forall|j: int| 0 <= j < i ==> ws_pred()(#[trigger] s@[j]),
        decreases n - i,
    {
        i = i + 1;
    }
    proof {
        lemma_lead_len(s@, ws_pred(), i as int);
    }
    i
}

/// Number of trailing whitespace characters of `s`.
fn count_ws_backward(s: &str) -> (k: usize)
    ensures
        k == trail_len(s@, ws_pred()),
        k <= s@.len(),
{
    let n = s.unicode_len();
    let mut k: usize = 0;
    while k < n && char_is_ws(s.get_char(n - 1 - k))
        invariant
            k <= n,
            n == s@.len(),
            forall|j: int| n - k <= j < n ==> ws_pred()(#[trigger] s@[j]),
        decreases n - k,
    {
        k = k + 1;
    }
    proof {
        lemma_trail_len(s@, ws_pred(), k as int);
    }
    k
}

/// `str::trim`.
pub fn str_trim(s: &str) -> (r: &str)
    ensures r@ == trim(s@),
{
    let i = skip_ws_forward(s);
    let n = s.unicode_len();
    let a = s.substring_char(i, n);
    let k = count_ws_backward(a);
    let m = a.unicode_len();
    a.substring_char(0, m - k)
}


/// `p` is a prefix of `s`.
pub open spec fn has_prefix(s: Seq<char>, p: Seq<char>) -> bool {
    p.len() <= s.len() && s.subrange(0, p.len() as int) == p
}

/// `p` is a suffix of `s`.
pub open spec fn has_suffix(s: Seq<char>, p: Seq<char>) -> bool {
    p.len() <= s.len() && s.subrange(s.len() - p.len(), s.len() as int) == p
}

/// `p` occurs in `s` starting at index `i`.
pub open spec fn occurs_at(s: Seq<char>, p: Seq<char>, i: int) -> bool {
    0 <= i && i + p.len() <= s.len() && s.subrange(i, i + p.len()) == p
}

/// First index at or after `i` where `p` occurs in `s`.
pub open spec fn find_from(s: Seq<char>, p: Seq<char>, i: int) -> Option<int>
    decreases s.len() + 1 - i,
{
    if i < 0 || i + p.len() > s.len() {
        None
    } else if occurs_at(s, p, i) {
        Some(i)
    } else {
        find_from(s, p, i + 1)
    }
}

/// `str::find` with a string pattern, as a character index.
pub open spec fn find(s: Seq<char>, p: Seq<char>) -> Option<int> {
    find_from(s, p, 0)
}

/// `str::contains` with a string pattern.
pub open spec fn contains(s: Seq<char>, p: Seq<char>) -> bool {
    find(s, p) is Some
}

/// `s` holds the character `c`.
pub open spec fn has_char(s: Seq<char>, c: char) -> bool {
    exists|i: int| 0 <= i < s.len() && s[i] == c
}

/// Index of the last `c` in `s`.
pub open spec fn rfind_char(s: Seq<char>, c: char) -> Option<int>
    decreases s.len(),
{
    if s.len() == 0 {
        None
    } else if s.last() == c {
        Some(s.len() - 1)
    } else {
        rfind_char(s.drop_last(), c)
    }
}

/// Index of the first `c` in `s`.
pub open spec fn find_char(s: Seq<char>, c: char) -> Option<int> {
    find(s, seq![c])
}

pub proof fn lemma_find_from_found(s: Seq<char>, p: Seq<char>, i: int, k: int)
    requires
        0 <= i <= k,
        occurs_at(s, p, k),
        forall|j: int| i <= j < k ==> !occurs_at(s, p, j),
    ensures
        find_from(s, p, i) == Some(k),
    decreases k - i,
{
    if i < k {
        lemma_find_from_found(s, p, i + 1, k);
    }
}

pub proof fn lemma_find_from_none(s: Seq<char>, p: Seq<char>, i: int)
    requires
        0 <= i,
        forall|j: int| i <= j && j + p.len() <= s.len() ==> !occurs_at(s, p, j),
    ensures
        find_from(s, p, i) is None,
    decreases s.len() + 1 - i,
{
    if i + p.len() <= s.len() {
        lemma_find_from_none(s, p, i + 1);
    }
}

pub proof fn lemma_find_from_props(s: Seq<char>, p: Seq<char>, i: int)
    requires 0 <= i,
    ensures
        find_from(s, p, i) matches Some(k) ==> i <= k && occurs_at(s, p, k)
            && forall|j: int| i <= j < k ==> !occurs_at(s, p, j),
        find_from(s, p, i) is None ==> forall|j: int| i <= j ==> !occurs_at(s, p, j),
    decreases s.len() + 1 - i,
{
    if i + p.len() <= s.len() && !occurs_at(s, p, i) {
        lemma_find_from_props(s, p, i + 1);
    }
}

pub proof fn lemma_rfind_char(s: Seq<char>, c: char)
    ensures
        rfind_char(s, c) matches Some(k) ==> 0 <= k < s.len() && s[k] == c
            && forall|j: int| k < j < s.len() ==> s[j] != c,
        rfind_char(s, c) is None ==> forall|j: int| 0 <= j < s.len() ==> s[j] != c,
    decreases s.len(),
{
    if s.len() > 0 && s.last() != c {
        lemma_rfind_char(s.drop_last(), c);
        assert forall|j: int| 0 <= j < s.len() - 1 implies s.drop_last()[j] == s[j] by {}
    }
}

/// `String::push`: appends one character.
#[verifier::external_body]
pub(crate) fn push_char(s: &mut String, c: char)
    ensures final(s)@ == old(s)@.push(c),
{
    s.push(c);
}

/// Appends a string slice.
pub fn push_str(s: &mut String, t: &str)
    ensures final(s)@ == old(s)@ + t@,
{
    s.append(t);
}

/// String slice equality.
pub fn str_eq(a: &str, b: &str) -> (r: bool)
    ensures r == (a@ == b@),
{
    let n = a.unicode_len();
    if n != b.unicode_len() {
        return false;
    }
    let mut i: usize = 0;
    while i < n
        invariant
            i <= n,
            n == a@.len(),
            n == b@.len(),
            forall|j: int| 0 <= j < i ==> a@[j] == b@[j],
        decreases n - i,
    {
        if a.get_char(i) != b.get_char(i) {
            return false;
        }
        i = i + 1;
    }
    assert(a@ =~= b@);
    true
}

/// Compares `p` with the characters of `s` from index `at`.
fn matches_at(s: &str, p: &str, at: usize) -> (r: bool)
    requires at <= s@.len(),
    ensures r == occurs_at(s@, p@, at as int),
{
    let n = s.unicode_len();
    let m = p.unicode_len();
    if m > n - at {
        return false;
    }
    let mut i: usize = 0;
    while i < m
        invariant
            i <= m,
            m == p@.len(),
            n == s@.len(),
            at + m <= n,
            forall|j: int| 0 <= j < i ==> s@[at + j] == p@[j],
        decreases m - i,
    {
        if s.get_char(at + i) != p.get_char(i) {
            assert(s@.subrange(at as int, at + m)[i as int] == s@[at + i]);
            return false;
        }
        i = i + 1;
    }
    assert(s@.subrange(at as int, at + m) =~= p@);
    true
}

/// `str::starts_with` with a string pattern.
pub fn starts_with(s: &str, p: &str) -> (r: bool)
    ensures r == has_prefix(s@, p@),
{
    matches_at(s, p, 0)
}

/// `str::ends_with` with a string pattern.
pub fn ends_with(s: &str, p: &str) -> (r: bool)
    ensures r == has_suffix(s@, p@),
{
    let n = s.unicode_len();
    let m = p.unicode_len();
    if m > n {
        return false;
    }
    matches_at(s, p, n - m)
}

/// `str::find` with a string pattern, as a character index.
pub fn find_str(s: &str, p: &str) -> (r: Option<usize>)
    ensures
        r matches Some(k) ==> find(s@, p@) == Some(k as int),
        r is None ==> find(s@, p@) is None,
{
    let n = s.unicode_len();
    let m = p.unicode_len();
    if m > n {
        proof { lemma_find_from_none(s@, p@, 0); }
        return None;
    }
    let mut i: usize = 0;
    loop
        invariant
            n == s@.len(),
            m == p@.len(),
            m <= n,
            i <= n - m,
            forall|j: int| 0 <= j < i ==> !occurs_at(s@, p@, j),
        decreases n - m - i,
    {
        if matches_at(s, p, i) {
            proof { lemma_find_from_found(s@, p@, 0, i as int); }
            return Some(i);
        }
        if i == n - m {
            proof { lemma_find_from_none(s@, p@, 0); }
            return None;
        }
        i = i + 1;
    }
}

/// `str::contains` with a string pattern.
pub fn contains_str(s: &str, p: &str) -> (r: bool)
    ensures r == contains(s@, p@),
{
    find_str(s, p).is_some()
}

/// Index of the first `c` in `s`.
pub fn find_char_index(s: &str, c: char) -> (r: Option<usize>)
    ensures
        r matches Some(k) ==> find_char(s@, c) == Some(k as int) && k < s@.len() && s@[k as int] == c,
        r is None ==> find_char(s@, c) is None && !has_char(s@, c),
{
    let n = s.unicode_len();
    let mut i: usize = 0;
    while i < n
        invariant
            n == s@.len(),
            i <= n,
            forall|j: int| 0 <= j < i ==> s@[j] != c,
        decreases n - i,
    {
        if s.get_char(i) == c {
            proof {
                assert forall|j: int| 0 <= j < i implies !occurs_at(s@, seq![c], j) by {
                    assert(s@.subrange(j, j + 1)[0] == s@[j]);
                }
                assert(s@.subrange(i as int, i + 1) =~= seq![c]);
                lemma_find_from_found(s@, seq![c], 0, i as int);
            }
            return Some(i);
        }
        i = i + 1;
    }
    proof {
        assert forall|j: int| 0 <= j && j + 1 <= s@.len() implies !occurs_at(s@, seq![c], j) by {
            assert(s@.subrange(j, j + 1)[0] == s@[j]);
        }
        lemma_find_from_none(s@, seq![c], 0);
    }
    None
}

/// `s` holds the character `c`.
pub fn contains_char(s: &str, c: char) -> (r: bool)
    ensures r == has_char(s@, c),
{
    find_char_index(s, c).is_some()
}

/// Index of the last `c` in `s`.
pub fn rfind_char_index(s: &str, c: char) -> (r: Option<usize>)
    ensures
        r matches Some(k) ==> rfind_char(s@, c) == Some(k as int),
        r is None ==> rfind_char(s@, c) is None,
{
    proof { lemma_rfind_char(s@, c); }
    let n = s.unicode_len();
    let mut k: usize = n;
    while k > 0
        invariant
            n == s@.len(),
            k <= n,
            forall|j: int| k <= j < n ==> s@[j] != c,
        decreases k,
    {
        if s.get_char(k - 1) == c {
            proof { lemma_rfind_unique(s@, c, k - 1); }
            return Some(k - 1);
        }
        k = k - 1;
    }
    proof { lemma_rfind_unique_none(s@, c); }
    None
}

proof fn lemma_rfind_unique(s: Seq<char>, c: char, k: int)
    requires
        0 <= k < s.len(),
        s[k] == c,
        forall|j: int| k < j < s.len() ==> s[j] != c,
    ensures rfind_char(s, c) == Some(k),
    decreases s.len(),
{
    if s.last() != c {
        assert forall|j: int| k < j < s.len() - 1 implies s.drop_last()[j] != c by {}
        lemma_rfind_unique(s.drop_last(), c, k);
    }
}

proof fn lemma_rfind_unique_none(s: Seq<char>, c: char)
    requires forall|j: int| 0 <= j < s.len() ==> s[j] != c,
    ensures rfind_char(s, c) is None,
    decreases s.len(),
{
    if s.len() > 0 {
        assert forall|j: int| 0 <= j < s.len() - 1 implies s.drop_last()[j] != c by {}
        lemma_rfind_unique_none(s.drop_last(), c);
    }
}

/// `str::trim_start_matches` with a single character.
pub fn trim_start_matches_char(s: &str, c: char) -> (r: &str)
    ensures r@ == trim_start_char(s@, c),
{
    let n = s.unicode_len();
    let mut i: usize = 0;
    while i < n && s.get_char(i) == c
        invariant
            i <= n,
            n == s@.len(),
            forall|j: int| 0 <= j < i ==> char_pred(c)(#[trigger] s@[j]),
        decreases n - i,
    {
        i = i + 1;
    }
    proof { lemma_lead_len(s@, char_pred(c), i as int); }
    s.substring_char(i, n)
}

/// `str::trim_end_matches` with a single character.
pub fn trim_end_matches_char(s: &str, c: char) -> (r: &str)
    ensures r@ == trim_end_char(s@, c),
{
    let n = s.unicode_len();
    let mut k: usize = 0;
    while k < n && s.get_char(n - 1 - k) == c
        invariant
            k <= n,
            n == s@.len(),
            forall|j: int| n - k <= j < n ==> char_pred(c)(#[trigger] s@[j]),
        decreases n - k,
    {
        k = k + 1;
    }
    proof { lemma_trail_len(s@, char_pred(c), k as int); }
    s.substring_char(0, n - k)
}

/// `str::strip_prefix` with a string pattern.
pub fn strip_prefix<'a>(s: &'a str, p: &str) -> (r: Option<&'a str>)
    ensures
        r matches Some(t) ==> has_prefix(s@, p@) && t@ == s@.subrange(p@.len() as int, s@.len() as int),
        r is None ==> !has_prefix(s@, p@),
{
    if starts_with(s, p) {
        Some(s.substring_char(p.unicode_len(), s.unicode_len()))
    } else {
        None
    }
}

/// The characters of `s` with every `c` replaced by `with`.
pub open spec fn replace_char(s: Seq<char>, c: char, with: Seq<char>) -> Seq<char>
    decreases s.len(),
{
    if s.len() == 0 {
        Seq::empty()
    } else {
        replace_char(s.drop_last(), c, with) + if s.last() == c { with } else { seq![s.last()] }
    }
}

/// `str::replace` of one character by a string.
pub fn replace_char_with(s: &str, c: char, with: &str) -> (r: String)
    ensures r@ == replace_char(s@, c, with@),
{
    let n = s.unicode_len();
    let mut out = String::new();
    let mut i: usize = 0;
    while i < n
        invariant
            i <= n,
            n == s@.len(),
            out@ == replace_char(s@.subrange(0, i as int), c, with@),
        decreases n - i,
    {
        let ch = s.get_char(i);
        proof {
            assert(s@.subrange(0, i + 1).drop_last() =~= s@.subrange(0, i as int));
        }
        if ch == c {
            push_str(&mut out, with);
        } else {
            push_char(&mut out, ch);
        }
        i = i + 1;
    }
    assert(s@.subrange(0, n as int) =~= s@);
    out
}


/// ASCII lower-casing of one character (`char::to_ascii_lowercase`).
pub open spec fn lower_char(c: char) -> char {
    if 'A' <= c && c <= 'Z' {
        ((c as u32) + 32) as char
    } else {
        c
    }
}

/// ASCII lower-casing of a string (`str::to_ascii_lowercase`).
pub open spec fn lower(s: Seq<char>) -> Seq<char> {
    s.map_values(|c: char| lower_char(c))
}

pub fn char_to_lower(c: char) -> (r: char)
    ensures r == lower_char(c),
{
    if 'A' <= c && c <= 'Z' {
        ((c as u8) + 32u8) as char
    } else {
        c
    }
}

/// `str::to_ascii_lowercase`.
pub fn to_lower(s: &str) -> (r: String)
    ensures r@ == lower(s@),
{
    let n = s.unicode_len();
    let mut out = String::new();
    let mut i: usize = 0;
    while i < n
        invariant
            i <= n,
            n == s@.len(),
            out@ == lower(s@.subrange(0, i as int)),
        decreases n - i,
    {
        let c = char_to_lower(s.get_char(i));
        push_char(&mut out, c);
        i = i + 1;
        assert(out@ =~= lower(s@.subrange(0, i as int)));
    }
    assert(s@.subrange(0, n as int) =~= s@);
    out
}

/// ASCII letter or digit (`char::is_ascii_alphanumeric`).
pub open spec fn is_alnum(c: char) -> bool {
    ('0' <= c && c <= '9') || ('a' <= c && c <= 'z') || ('A' <= c && c <= 'Z')
}

/// ASCII letter (`char::is_ascii_alphabetic`).
pub open spec fn is_alpha(c: char) -> bool {
    ('a' <= c && c <= 'z') || ('A' <= c && c <= 'Z')
}

/// ASCII digit (`char::is_ascii_digit`).
pub open spec fn is_digit(c: char) -> bool {
    '0' <= c && c <= '9'
}

pub fn char_is_alnum(c: char) -> (r: bool)
    ensures r == is_alnum(c),
{
    ('0' <= c && c <= '9') || ('a' <= c && c <= 'z') || ('A' <= c && c <= 'Z')
}

pub fn char_is_alpha(c: char) -> (r: bool)
    ensures r == is_alpha(c),
{
    ('a' <= c && c <= 'z') || ('A' <= c && c <= 'Z')
}

pub fn char_is_digit(c: char) -> (r: bool)
    ensures r == is_digit(c),
{
    '0' <= c && c <= '9'
}

/// Concatenation of two string slices.
pub fn concat2(a: &str, b: &str) -> (r: String)
    ensures r@ == a@ + b@,
{
    let mut out = owned(a);
    push_str(&mut out, b);
    out
}

/// Concatenation of three string slices.
pub fn concat3(a: &str, b: &str, c: &str) -> (r: String)
    ensures r@ == a@ + b@ + c@,
{
    let mut out = owned(a);
    push_str(&mut out, b);
    push_str(&mut out, c);
    out
}


/// The decimal digit character for `d < 10`.
pub open spec fn digit_char(d: nat) -> char {
    ((d + 48) as u32) as char
}

/// Decimal representation of a natural number, without leading zeros.
pub open spec fn dec(n: nat) -> Seq<char>
    decreases n,
{
    if n < 10 {
        seq![digit_char(n)]
    } else {
        dec(n / 10) + seq![digit_char(n % 10)]
    }
}

/// `dec(n)` left-padded with zeros to at least `width` characters.
pub open spec fn dec_padded(n: nat, width: nat) -> Seq<char> {
    let d = dec(n);
    if d.len() < width {
        Seq::new((width - d.len()) as nat, |i: int| '0') + d
    } else {
        d
    }
}

/// A signed integer zero-padded to `width` characters, the sign counted in
/// the width (the `{:0w}` format of a signed integer).
pub open spec fn signed_padded(x: int, width: nat) -> Seq<char> {
    if x >= 0 {
        dec_padded(x as nat, width)
    } else {
        seq!['-'] + dec_padded((-x) as nat, if width >= 1 { (width - 1) as nat } else { 0 })
    }
}

/// Decimal formatting of an unsigned integer (`u64::to_string`).
pub fn decimal(n: u64) -> (r: String)
    ensures r@ == dec(n as nat),
    decreases n,
{
    if n < 10 {
        let mut s = String::new();
        push_char(&mut s, ((n as u8) + 48u8) as char);
        assert(s@ =~= seq![digit_char(n as nat)]);
        s
    } else {
        let mut s = decimal(n / 10);
        push_char(&mut s, (((n % 10) as u8) + 48u8) as char);
        s
    }
}

/// Decimal formatting padded with zeros to `width` characters (`{n:0width$}`).
pub fn decimal_padded(n: u64, width: usize) -> (r: String)
    ensures r@ == dec_padded(n as nat, width as nat),
{
    let d = decimal(n);
    let len = d.as_str().unicode_len();
    if len < width {
        let mut out = String::new();
        let mut i: usize = 0;
        while i < width - len
            invariant
                i <= width - len,
                out@ == Seq::new(i as nat, |j: int| '0'),
            decreases width - len - i,
        {
            push_char(&mut out, '0');
            i = i + 1;
            assert(out@ =~= Seq::new(i as nat, |j: int| '0'));
        }
        push_str(&mut out, d.as_str());
        out
    } else {
        d
    }
}

/// Zero-padded formatting of a signed integer (`format!("{:0width$}", x)`).
pub fn signed_padded_text(x: i64, width: usize) -> (r: String)
    requires x > i64::MIN,
    ensures r@ == signed_padded(x as int, width as nat),
{
    if x >= 0 {
        decimal_padded(x as u64, width)
    } else {
        let w: usize = if width >= 1 { width - 1 } else { 0 };
        let digits = decimal_padded((0 - x) as u64, w);
        proof { reveal_strlit("-"); }
        concat2("-", digits.as_str())
    }
}

/// A line without the carriage return of a `\r\n` ending.
pub open spec fn without_cr(x: Seq<char>) -> Seq<char> {
    if x.len() > 0 && x.last() == '\r' { x.drop_last() } else { x }
}

/// The lines of a text as `str::lines` gives them: split at each `\n`, a
/// `\r` before it dropped, and no empty line after a final `\n`.
pub open spec fn lines(s: Seq<char>) -> Seq<Seq<char>>
    decreases s.len(),
{
    if s.len() == 0 {
        Seq::empty()
    } else {
        match find_char(s, '\n') {
            None => seq![s],
            Some(k) => {
                proof { lemma_find_from_props(s, seq!['\n'], 0); }
                seq![without_cr(s.subrange(0, k))] + lines(s.subrange(k + 1, s.len() as int))
            },
        }
    }
}

/// The lines of a text (`str::lines`).
pub fn split_lines<'a>(s: &'a str) -> (r: Vec<&'a str>)
    ensures r@.map_values(|l: &str| l@) == lines(s@),
{
    let mut out: Vec<&'a str> = Vec::new();
    let mut rest: &'a str = s;
    let ghost target = lines(s@);
    loop
        invariant
            out@.map_values(|l: &str| l@) + lines(rest@) == target,
            target == lines(s@),
        decreases rest@.len(),
    {
        let n = rest.unicode_len();
        if n == 0 {
            assert(out@.map_values(|l: &str| l@) + lines(rest@) =~= out@.map_values(|l: &str| l@));
            return out;
        }
        match find_char_index(rest, '\n') {
            None => {
                let ghost before = out@.map_values(|l: &str| l@);
                out.push(rest);
                assert(out@.map_values(|l: &str| l@) =~= before + lines(rest@));
                return out;
            },
            Some(k) => {
                proof { lemma_find_from_props(rest@, seq!['\n'], 0); }
                let mut line = rest.substring_char(0, k);
                if k > 0 && line.get_char(k - 1) == '\r' {
                    line = line.substring_char(0, k - 1);
                }
                assert(line@ =~= without_cr(rest@.subrange(0, k as int)));
                let ghost before = out@.map_values(|l: &str| l@);
                let next = rest.substring_char(k + 1, n);
                out.push(line);
                assert(out@.map_values(|l: &str| l@) =~= before.push(line@));
                assert(lines(rest@) == seq![line@] + lines(next@));
                assert(out@.map_values(|l: &str| l@) + lines(next@) =~= before + lines(rest@));
                rest = next;
            },
        }
    }
}

/// `str::trim_matches` with a single character: the text without that
/// character at either end.
pub open spec fn trim_matches_char(s: Seq<char>, c: char) -> Seq<char> {
    trim_end_char(trim_start_char(s, c), c)
}

/// `str::trim_matches` with a single character.
pub fn trim_matches_char_str(s: &str, c: char) -> (r: &str)
    ensures r@ == trim_matches_char(s@, c),
{
    trim_end_matches_char(trim_start_matches_char(s, c), c)
}

/// `str::split_once` with a character: the text before and after the first
/// occurrence.
pub open spec fn split_once_char(s: Seq<char>, c: char) -> Option<(Seq<char>, Seq<char>)> {
    match find_char(s, c) {
        None => None,
        Some(k) => Some((s.subrange(0, k), s.subrange(k + 1, s.len() as int))),
    }
}

/// `str::split_once` with a character.
pub fn split_once_char_str<'a>(s: &'a str, c: char) -> (r: Option<(&'a str, &'a str)>)
    ensures
        match split_once_char(s@, c) {
            None => r is None,
            Some((a, b)) => r matches Some((x, y)) && x@ == a && y@ == b,
        },
{
    match find_char_index(s, c) {
        None => None,
        Some(k) => {
            proof { lemma_find_from_props(s@, seq![c], 0); }
            let n = s.unicode_len();
            Some((s.substring_char(0, k), s.substring_char(k + 1, n)))
        },
    }
}

} // verus!
