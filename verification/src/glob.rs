//! Include and exclude rules for host paths, and the glob matchers they use.
//!
//! A glob pattern matches byte by byte: `?` matches one byte, `*` matches any
//! run of bytes, and every other byte matches itself.

use vstd::prelude::*;
use crate::text;

verus! {

/// The glob language: `pattern` matches all of `t`.
pub open spec fn glob(p: Seq<u8>, t: Seq<u8>) -> bool
    decreases p.len() + t.len(),
{
    if p.len() == 0 {
        t.len() == 0
    } else if p.last() == 42u8 {
        glob(p.drop_last(), t) || (t.len() > 0 && glob(p, t.drop_last()))
    } else {
        t.len() > 0 && (p.last() == 63u8 || p.last() == t.last()) && glob(p.drop_last(), t.drop_last())
    }
}

/// All bytes of `p` from `i` on are `*`.
pub open spec fn only_stars_from(p: Seq<u8>, i: int) -> bool {
    forall|k: int| i <= k < p.len() ==> p[k] == 42u8
}

/// The single-star backtracking matcher: `i` and `j` are the positions in the
/// pattern and the text, `star` the position of the last `*` taken and `m`
/// the text position that `*` has consumed up to. A pattern byte that equals
/// the text byte (or is `?`) is consumed first, then a `*` is taken, then the
/// last `*` is made to consume one more byte.
pub open spec fn backtrack(p: Seq<u8>, t: Seq<u8>, i: int, j: int, star: Option<int>, m: int) -> bool
    decreases t.len() - m, t.len() - j, p.len() - i,
{
    if !(0 <= i <= p.len() && 0 <= m <= j <= t.len() && (star matches Some(s) ==> 0 <= s < i)) {
        false
    } else if j < t.len() {
        if i < p.len() && (p[i] == 63u8 || p[i] == t[j]) {
            backtrack(p, t, i + 1, j + 1, star, m)
        } else if i < p.len() && p[i] == 42u8 {
            backtrack(p, t, i + 1, j, Some(i), j)
        } else {
            match star {
                Some(s) => backtrack(p, t, s + 1, m + 1, star, m + 1),
                None => false,
            }
        }
    } else {
        only_stars_from(p, i)
    }
}

proof fn lemma_star_matches_all(x: Seq<u8>)
    ensures glob(seq![42u8], x),
    decreases x.len(),
{
    let st = seq![42u8];
    assert(st.len() == 1 && st.last() == 42u8);
    assert(st.drop_last() =~= Seq::<u8>::empty());
    assert(glob(st.drop_last(), Seq::<u8>::empty()));
    if x.len() > 0 {
        lemma_star_matches_all(x.drop_last());
    }
    assert(glob(st, x) == (glob(st.drop_last(), x) || (x.len() > 0 && glob(st, x.drop_last()))));
}

/// The glob language read from the front: a leading `*` matches nothing or
/// one more byte; any other leading byte matches one byte.
proof fn lemma_glob_front(p: Seq<u8>, t: Seq<u8>)
    requires p.len() > 0,
    ensures
        p[0] == 42u8 ==> glob(p, t) == (glob(p.drop_first(), t) || (t.len() > 0 && glob(p, t.drop_first()))),
        p[0] != 42u8 ==> glob(p, t) == (t.len() > 0 && (p[0] == 63u8 || p[0] == t[0])
            && glob(p.drop_first(), t.drop_first())),
    decreases p.len() + t.len(),
{
    if p.len() == 1 {
        assert(p.drop_last() =~= Seq::<u8>::empty());
        assert(p.drop_first() =~= Seq::<u8>::empty());
        if p[0] == 42u8 {
            assert(p =~= seq![42u8]);
            lemma_star_matches_all(t);
            if t.len() > 0 {
                lemma_star_matches_all(t.drop_first());
            }
        } else if t.len() > 0 {
            assert(t.drop_last().len() == 0 <==> t.len() == 1);
            assert(t.drop_first().len() == t.drop_last().len());
            if t.len() == 1 {
                assert(t.last() == t[0]);
            }
            assert(p.last() == p[0]);
            assert(glob(p.drop_last(), t.drop_last()) == (t.drop_last().len() == 0));
            assert(glob(p.drop_first(), t.drop_first()) == (t.drop_first().len() == 0));
            assert(p[0] != 42u8 ==> glob(p, t) == ((p.last() == 63u8 || p.last() == t.last())
                && glob(p.drop_last(), t.drop_last())));
            assert(p[0] != 42u8 ==> glob(p, t) == ((p[0] == 63u8 || p[0] == t[0]) && glob(p.drop_first(), t.drop_first())));
        }
    } else {
        let q = p.drop_first();
        let pl = p.drop_last();
        assert(glob(p, t) == if p.last() == 42u8 {
            glob(pl, t) || (t.len() > 0 && glob(p, t.drop_last()))
        } else {
            t.len() > 0 && (p.last() == 63u8 || p.last() == t.last()) && glob(pl, t.drop_last())
        });
        assert(q.len() > 0);
        if t.len() > 0 {
            let t1 = t.drop_first();
            assert(glob(q, t1) == if q.last() == 42u8 {
                glob(q.drop_last(), t1) || (t1.len() > 0 && glob(q, t1.drop_last()))
            } else {
                t1.len() > 0 && (q.last() == 63u8 || q.last() == t1.last()) && glob(q.drop_last(), t1.drop_last())
            });
        }
        assert(glob(q, t) == if q.last() == 42u8 {
            glob(q.drop_last(), t) || (t.len() > 0 && glob(q, t.drop_last()))
        } else {
            t.len() > 0 && (q.last() == 63u8 || q.last() == t.last()) && glob(q.drop_last(), t.drop_last())
        });
        assert(pl.drop_first() =~= q.drop_last());
        assert(q.last() == p.last());
        assert(pl[0] == p[0]);
        lemma_glob_front(pl, t);
        if t.len() > 0 {
            let t1 = t.drop_first();
            let tl = t.drop_last();
            if t.len() > 1 {
                assert(tl.drop_first() =~= t1.drop_last());
                assert(t1.last() == t.last());
                assert(tl[0] == t[0]);
            }
            lemma_glob_front(p, tl);
            lemma_glob_front(pl, tl);
            assert(p[0] != 42u8 && p.last() == 42u8 ==> glob(p, t) == ((p[0] == 63u8 || p[0] == t[0]) && glob(q, t1)));
            assert(p[0] != 42u8 && p.last() != 42u8 ==> glob(p, t) == ((p[0] == 63u8 || p[0] == t[0]) && glob(q, t1)));
        }
        assert(p[0] != 42u8 && t.len() == 0 ==> !glob(p, t));
    }
}

/// Matching of the pattern from byte `i` against the text from byte `j`.
pub open spec fn suffix_match(p: Seq<u8>, t: Seq<u8>, i: int, j: int) -> bool {
    glob(p.subrange(i, p.len() as int), t.subrange(j, t.len() as int))
}

proof fn lemma_suffix_steps(p: Seq<u8>, t: Seq<u8>, i: int, j: int)
    requires 0 <= i <= p.len(), 0 <= j <= t.len(),
    ensures
        i == p.len() ==> suffix_match(p, t, i, j) == (j == t.len()),
        i < p.len() && p[i] == 42u8 ==> suffix_match(p, t, i, j)
            == (suffix_match(p, t, i + 1, j) || (j < t.len() && suffix_match(p, t, i, j + 1))),
        i < p.len() && p[i] != 42u8 ==> suffix_match(p, t, i, j)
            == (j < t.len() && (p[i] == 63u8 || p[i] == t[j]) && suffix_match(p, t, i + 1, j + 1)),
{
    let ps = p.subrange(i, p.len() as int);
    let ts = t.subrange(j, t.len() as int);
    if i < p.len() {
        lemma_glob_front(ps, ts);
        assert(ps.drop_first() =~= p.subrange(i + 1, p.len() as int));
        assert(ps[0] == p[i]);
        if j < t.len() {
            assert(ts.drop_first() =~= t.subrange(j + 1, t.len() as int));
            assert(ts[0] == t[j]);
        }
    } else {
        assert(ps.len() == 0);
    }
}

/// A `*` at `i` matches when the rest of the pattern matches from some later
/// text position.
proof fn lemma_star_reach(p: Seq<u8>, t: Seq<u8>, i: int, j: int)
    requires 0 <= i < p.len(), p[i] == 42u8, 0 <= j <= t.len(),
    ensures suffix_match(p, t, i, j) == exists|k: int| j <= k <= t.len() && #[trigger] suffix_match(p, t, i + 1, k),
    decreases t.len() - j,
{
    lemma_suffix_steps(p, t, i, j);
    if j < t.len() {
        lemma_star_reach(p, t, i, j + 1);
        if exists|k: int| j <= k <= t.len() && #[trigger] suffix_match(p, t, i + 1, k) {
            let k = choose|k: int| j <= k <= t.len() && #[trigger] suffix_match(p, t, i + 1, k);
            if k > j {
                assert(j + 1 <= k);
            }
        }
    }
}

/// A star-free stretch of `len` pattern bytes from `x` consumes exactly `len`
/// text bytes.
proof fn lemma_literal_stretch(p: Seq<u8>, t: Seq<u8>, x: int, k: int, len: int)
    requires
        0 <= x, x + len <= p.len(), 0 <= len, 0 <= k <= t.len(),
        forall|q: int| x <= q < x + len ==> p[q] != 42u8,
        suffix_match(p, t, x, k),
    ensures k + len <= t.len(), suffix_match(p, t, x + len, k + len),
    decreases len,
{
    if len > 0 {
        lemma_suffix_steps(p, t, x, k);
        lemma_literal_stretch(p, t, x + 1, k + 1, len - 1);
    }
}

/// The state of the backtracking matcher that the text's bytes in
/// `[m, j)` were matched by the pattern's star-free bytes after the last `*`.
pub open spec fn backtrack_state(p: Seq<u8>, t: Seq<u8>, i: int, j: int, star: Option<int>, m: int) -> bool {
    &&& 0 <= i <= p.len()
    &&& 0 <= m <= j <= t.len()
    &&& match star {
        None => true,
        Some(s) => 0 <= s < i && p[s] == 42u8 && i - (s + 1) == j - m
            && forall|q: int| s + 1 <= q < i ==> p[q] != 42u8,
    }
}

/// The rest of the pattern matches the rest of the text, or the last `*`
/// can take more bytes.
pub open spec fn backtrack_goal(p: Seq<u8>, t: Seq<u8>, i: int, j: int, star: Option<int>, m: int) -> bool {
    suffix_match(p, t, i, j) || match star {
        None => false,
        Some(s) => exists|k: int| m < k <= t.len() && #[trigger] suffix_match(p, t, s + 1, k),
    }
}

/// What the backtracking matcher decides from a state: the rest of the
/// pattern matches the rest of the text, or the last `*` can take more bytes.
#[verifier::spinoff_prover]
#[verifier::rlimit(40)]
proof fn lemma_backtrack_meaning(p: Seq<u8>, t: Seq<u8>, i: int, j: int, star: Option<int>, m: int)
    requires
        backtrack_state(p, t, i, j, star, m),
        forall|q: int| 0 <= q < t.len() ==> t[q] != 42u8,
    ensures backtrack(p, t, i, j, star, m) == backtrack_goal(p, t, i, j, star, m),
    decreases t.len() - m, t.len() - j, p.len() - i,
{
    lemma_suffix_steps(p, t, i, j);
    if j < t.len() {
        if i < p.len() && (p[i] == 63u8 || p[i] == t[j]) {
            assert(p[i] != 42u8);
            lemma_backtrack_meaning(p, t, i + 1, j + 1, star, m);
            assert(backtrack(p, t, i, j, star, m) == backtrack_goal(p, t, i, j, star, m));
        } else if i < p.len() && p[i] == 42u8 {
            assert(backtrack(p, t, i, j, star, m) == backtrack(p, t, i + 1, j, Some(i), j));
            lemma_backtrack_meaning(p, t, i + 1, j, Some(i), j);
            lemma_star_reach(p, t, i, j);
            assert(backtrack_goal(p, t, i + 1, j, Some(i), j) == suffix_match(p, t, i, j)) by {
                if exists|k: int| j < k <= t.len() && #[trigger] suffix_match(p, t, i + 1, k) {
                    let k = choose|k: int| j < k <= t.len() && #[trigger] suffix_match(p, t, i + 1, k);
                    assert(suffix_match(p, t, i + 1, k));
                }
                if suffix_match(p, t, i + 1, j) {
                    assert(suffix_match(p, t, i + 1, j));
                }
                if suffix_match(p, t, i, j) {
                    let k = choose|k: int| j <= k <= t.len() && #[trigger] suffix_match(p, t, i + 1, k);
                    if k > j {
                        assert(exists|k2: int| j < k2 <= t.len() && #[trigger] suffix_match(p, t, i + 1, k2));
                    }
                }
            }
            match star {
                None => {},
                Some(s) => {
                    if exists|k: int| m < k <= t.len() && #[trigger] suffix_match(p, t, s + 1, k) {
                        let k = choose|k: int| m < k <= t.len() && #[trigger] suffix_match(p, t, s + 1, k);
                        lemma_literal_stretch(p, t, s + 1, k, i - (s + 1));
                        let k2 = k + (i - (s + 1));
                        lemma_star_reach(p, t, i, k2);
                        let k3 = choose|k3: int| k2 <= k3 <= t.len() && #[trigger] suffix_match(p, t, i + 1, k3);
                        assert(suffix_match(p, t, i + 1, k3));
                        assert(suffix_match(p, t, i, j));
                    }
                },
            }
            assert(backtrack(p, t, i, j, star, m) == backtrack_goal(p, t, i, j, star, m));
        } else {
            match star {
                None => {},
                Some(s) => {
                    lemma_backtrack_meaning(p, t, s + 1, m + 1, star, m + 1);
                    if exists|k: int| m < k <= t.len() && #[trigger] suffix_match(p, t, s + 1, k) {
                        let k = choose|k: int| m < k <= t.len() && #[trigger] suffix_match(p, t, s + 1, k);
                        if k == m + 1 {
                        } else {
                            assert(m + 1 < k);
                        }
                    }
                },
            }
            assert(backtrack(p, t, i, j, star, m) == backtrack_goal(p, t, i, j, star, m));
        }
    } else {
        let ps = p.subrange(i, p.len() as int);
        lemma_only_stars(ps);
        assert forall|k: int| 0 <= k < ps.len() implies ps[k] == p[i + k] by {}
        assert(only_stars_from(p, i) == (forall|k: int| 0 <= k < ps.len() ==> ps[k] == 42u8)) by {
            if only_stars_from(p, i) {
                assert forall|k: int| 0 <= k < ps.len() implies ps[k] == 42u8 by {
                    assert(ps[k] == p[i + k]);
                }
            }
            if forall|k: int| 0 <= k < ps.len() ==> ps[k] == 42u8 {
                assert forall|k: int| i <= k < p.len() implies p[k] == 42u8 by {
                    assert(ps[k - i] == p[k]);
                }
            }
        }
        assert(t.subrange(j, t.len() as int) =~= Seq::<u8>::empty());
        match star {
            None => {},
            Some(s) => {
                if exists|k: int| m < k <= t.len() && #[trigger] suffix_match(p, t, s + 1, k) {
                    let k = choose|k: int| m < k <= t.len() && #[trigger] suffix_match(p, t, s + 1, k);
                    lemma_literal_stretch(p, t, s + 1, k, i - (s + 1));
                }
            },
        }
    }
}

proof fn lemma_only_stars(x: Seq<u8>)
    ensures glob(x, Seq::<u8>::empty()) == (forall|k: int| 0 <= k < x.len() ==> x[k] == 42u8),
    decreases x.len(),
{
    if x.len() > 0 {
        lemma_only_stars(x.drop_last());
        if forall|k: int| 0 <= k < x.drop_last().len() ==> x.drop_last()[k] == 42u8 {
            if x.last() == 42u8 {
                assert forall|k: int| 0 <= k < x.len() implies x[k] == 42u8 by {
                    if k < x.len() - 1 {
                        assert(x[k] == x.drop_last()[k]);
                    }
                }
            }
        }
        if forall|k: int| 0 <= k < x.len() ==> x[k] == 42u8 {
            assert forall|k: int| 0 <= k < x.drop_last().len() implies x.drop_last()[k] == 42u8 by {
                assert(x.drop_last()[k] == x[k]);
            }
            assert(x[x.len() - 1] == 42u8);
        }
    }
}

/// On a text without `*`, the backtracking component matcher decides the
/// glob language: `?` matches one byte, `*` any run of bytes, any other byte
/// itself.
pub proof fn lemma_component_matcher_is_glob(p: Seq<u8>, t: Seq<u8>)
    requires forall|q: int| 0 <= q < t.len() ==> t[q] != 42u8,
    ensures backtrack(p, t, 0, 0, None, 0) == glob(p, t),
{
    lemma_backtrack_meaning(p, t, 0, 0, None, 0);
    assert(p.subrange(0, p.len() as int) =~= p);
    assert(t.subrange(0, t.len() as int) =~= t);
}

/// `glob_match_component` and `glob_matches` agree on a text whose bytes hold
/// no `*`.
pub proof fn lemma_component_matches_agree_with_glob(pattern: Seq<char>, text: Seq<char>)
    requires
        forall|q: int| 0 <= q < vstd::utf8::encode_utf8(text).len() ==> #[trigger] vstd::utf8::encode_utf8(text)[q] != 42u8,
    ensures
        component_matches(pattern, text) == glob(vstd::utf8::encode_utf8(pattern), vstd::utf8::encode_utf8(text)),
{
    lemma_component_matcher_is_glob(vstd::utf8::encode_utf8(pattern), vstd::utf8::encode_utf8(text));
}

/// Matches one path component against a glob pattern, byte by byte.
pub fn glob_match_component(pattern: &str, text: &str) -> (r: bool)
    ensures r == backtrack(vstd::utf8::encode_utf8(pattern@), vstd::utf8::encode_utf8(text@), 0, 0, None, 0),
{
    let pat = pattern.as_bytes();
    let txt = text.as_bytes();
    let ghost pb = pat@;
    let ghost tb = txt@;
    let mut p: usize = 0;
    let mut t: usize = 0;
    let mut star: Option<usize> = None;
    let mut matched: usize = 0;
    while t < txt.len()
        invariant
            pb == pat@,
            tb == txt@,
            pb == vstd::utf8::encode_utf8(pattern@),
            tb == vstd::utf8::encode_utf8(text@),
            0 <= p <= pat@.len(),
            0 <= matched <= t <= txt@.len(),
            star matches Some(s) ==> s < p,
            backtrack(pb, tb, 0, 0, None, 0) == backtrack(pb, tb, p as int, t as int,
                match star { Some(s) => Some(s as int), None => None }, matched as int),
        decreases txt@.len() - matched, txt@.len() - t, pat@.len() - p,
    {
        if p < pat.len() && (pat[p] == 63u8 || pat[p] == txt[t]) {
            p = p + 1;
            t = t + 1;
        } else if p < pat.len() && pat[p] == 42u8 {
            star = Some(p);
            matched = t;
            p = p + 1;
        } else if let Some(star_index) = star {
            p = star_index + 1;
            matched = matched + 1;
            t = matched;
        } else {
            assert(!backtrack(pb, tb, p as int, t as int, None, matched as int));
            return false;
        }
    }
    let ghost p_end = p;
    assert(backtrack(pb, tb, 0, 0, None, 0) == only_stars_from(pb, p_end as int));
    while p < pat.len() && pat[p] == 42u8
        invariant
            pb == pat@,
            pb == vstd::utf8::encode_utf8(pattern@),
            tb == vstd::utf8::encode_utf8(text@),
            backtrack(pb, tb, 0, 0, None, 0) == only_stars_from(pb, p_end as int),
            p_end <= p <= pat@.len(),
            forall|k: int| p_end <= k < p ==> pat@[k] == 42u8,
        decreases pat@.len() - p,
    {
        p = p + 1;
    }
    p == pat.len()
}

/// Matches text against a glob pattern in which `*` also matches `/`.
pub fn glob_matches(pattern: &str, text: &str) -> (r: bool)
    ensures r == glob(vstd::utf8::encode_utf8(pattern@), vstd::utf8::encode_utf8(text@)),
{
    let pattern = pattern.as_bytes();
    let text = text.as_bytes();
    let n = text.len();
    let mut dp: Vec<bool> = Vec::new();
    dp.push(true);
    let mut j: usize = 0;
    while j < n
        invariant
            j <= n,
            n == text@.len(),
            dp@.len() == j + 1,
            forall|x: int| 0 <= x <= j ==> dp@[x] == glob(Seq::empty(), text@.subrange(0, x)),
        decreases n - j,
    {
        dp.push(false);
        j = j + 1;
    }
    let mut k: usize = 0;
    while k < pattern.len()
        invariant
            k <= pattern@.len(),
            n == text@.len(),
            dp@.len() == n + 1,
            forall|x: int| 0 <= x <= n ==> dp@[x] == glob(pattern@.subrange(0, k as int), text@.subrange(0, x)),
        decreases pattern@.len() - k,
    {
        let pc = pattern[k];
        let ghost pk = pattern@.subrange(0, k as int);
        let ghost pk1 = pattern@.subrange(0, k + 1);
        assert(pk1.drop_last() =~= pk);
        assert(pk1.last() == pc);
        let mut next: Vec<bool> = Vec::new();
        if pc == 42u8 {
            next.push(dp[0]);
        } else {
            next.push(false);
        }
        assert(text@.subrange(0, 0) =~= Seq::<u8>::empty());
        let mut x: usize = 0;
        while x < n
            invariant
                x <= n,
                n == text@.len(),
                dp@.len() == n + 1,
                next@.len() == x + 1,
                pk1.drop_last() == pk,
                pk1.last() == pc,
                pk1.len() > 0,
                forall|y: int| 0 <= y <= n ==> dp@[y] == glob(pk, text@.subrange(0, y)),
                forall|y: int| 0 <= y <= x ==> next@[y] == glob(pk1, text@.subrange(0, y)),
            decreases n - x,
        {
            let ghost ty1 = text@.subrange(0, x + 1);
            assert(ty1.drop_last() =~= text@.subrange(0, x as int));
            assert(ty1.last() == text@[x as int]);
            let v = if pc == 42u8 {
                dp[x + 1] || next[x] || dp[x]
            } else if pc == 63u8 {
                dp[x]
            } else {
                dp[x] && text[x] == pc
            };
            next.push(v);
            x = x + 1;
        }
        dp = next;
        k = k + 1;
    }
    assert(pattern@.subrange(0, pattern@.len() as int) =~= pattern@);
    assert(text@.subrange(0, n as int) =~= text@);
    dp[n]
}


/// A path component matches a component pattern.
pub open spec fn component_matches(pattern: Seq<char>, text: Seq<char>) -> bool {
    backtrack(vstd::utf8::encode_utf8(pattern), vstd::utf8::encode_utf8(text), 0, 0, None, 0)
}

/// The pieces of `s` between `/` separators (`str::split('/')`).
pub open spec fn split_slash(s: Seq<char>) -> Seq<Seq<char>>
    decreases s.len(),
{
    match text::find_char(s, '/') {
        None => seq![s],
        Some(k) => {
            proof { text::lemma_find_from_props(s, seq!['/'], 0); }
            seq![s.subrange(0, k)] + split_slash(s.subrange(k + 1, s.len() as int))
        },
    }
}

/// The text after the last `/` of `s`, or all of `s`.
pub open spec fn last_component(s: Seq<char>) -> Seq<char> {
    match text::rfind_char(s, '/') {
        None => s,
        Some(k) => s.subrange(k + 1, s.len() as int),
    }
}

/// `s` without its leading `./` prefixes (`trim_start_matches("./")`).
pub open spec fn strip_dot_slash(s: Seq<char>) -> Seq<char>
    decreases s.len(),
{
    if text::has_prefix(s, seq!['.', '/']) {
        strip_dot_slash(s.subrange(2, s.len() as int))
    } else {
        s
    }
}

/// Component-wise glob matching, where a `**` pattern component matches any
/// number of whole components.
pub open spec fn parts_match(pattern: Seq<Seq<char>>, t: Seq<Seq<char>>) -> bool
    decreases pattern.len() + t.len(),
{
    if pattern.len() == 0 {
        t.len() == 0
    } else if pattern[0] == "**"@ {
        parts_match(pattern.drop_first(), t) || (t.len() > 0 && parts_match(pattern, t.drop_first()))
    } else {
        t.len() > 0 && component_matches(pattern[0], t[0]) && parts_match(pattern.drop_first(), t.drop_first())
    }
}

/// The views of a sequence of string slices.
pub open spec fn str_views(v: Seq<&str>) -> Seq<Seq<char>> {
    v.map_values(|s: &str| s@)
}

/// The views of a sequence of strings.
pub open spec fn string_views(v: Seq<String>) -> Seq<Seq<char>> {
    v.map_values(|s: String| s@)
}

/// Splits `s` at every `/` (`str::split('/')`).
pub fn split_slash_exec(s: &str) -> (r: Vec<&str>)
    ensures str_views(r@) == split_slash(s@),
{
    let mut out: Vec<&str> = Vec::new();
    let mut rest = s;
    let ghost target = split_slash(s@);
    loop
        invariant
            target == str_views(out@) + split_slash(rest@),
            target == split_slash(s@),
        decreases rest@.len(),
    {
        let n = rest.unicode_len();
        match text::find_char_index(rest, '/') {
            None => {
                let ghost before = out@;
                out.push(rest);
                assert(str_views(out@) =~= str_views(before) + seq![rest@]);
                return out;
            }
            Some(k) => {
                proof { text::lemma_find_from_props(rest@, seq!['/'], 0); }
                let piece = rest.substring_char(0, k);
                let next = rest.substring_char(k + 1, n);
                let ghost before = out@;
                out.push(piece);
                assert(str_views(out@) =~= str_views(before) + seq![piece@]);
                assert(split_slash(rest@) == seq![piece@] + split_slash(next@));
                assert(target == str_views(out@) + split_slash(next@));
                rest = next;
            }
        }
    }
}

fn parts_from(pattern: &[&str], t: &[&str], i: usize, j: usize) -> (r: bool)
    requires
        i <= pattern@.len(),
        j <= t@.len(),
    ensures
        r == parts_match(str_views(pattern@).subrange(i as int, pattern@.len() as int),
            str_views(t@).subrange(j as int, t@.len() as int)),
    decreases pattern@.len() - i + t@.len() - j,
{
    let ghost pv = str_views(pattern@).subrange(i as int, pattern@.len() as int);
    let ghost tv = str_views(t@).subrange(j as int, t@.len() as int);
    if i == pattern.len() {
        return j == t.len();
    }
    assert(pv[0] == pattern@[i as int]@);
    assert(pv.drop_first() =~= str_views(pattern@).subrange(i + 1, pattern@.len() as int));
    if j < t.len() {
        assert(tv[0] == t@[j as int]@);
        assert(tv.drop_first() =~= str_views(t@).subrange(j + 1, t@.len() as int));
    }
    if text::str_eq(pattern[i], "**") {
        return parts_from(pattern, t, i + 1, j) || (j < t.len() && parts_from(pattern, t, i, j + 1));
    }
    j < t.len() && glob_match_component(pattern[i], t[j]) && parts_from(pattern, t, i + 1, j + 1)
}

/// Matches path components against pattern components; a `**` pattern
/// component matches any number of whole components.
pub fn glob_match_parts(pattern: &[&str], t: &[&str]) -> (r: bool)
    ensures r == parts_match(str_views(pattern@), str_views(t@)),
{
    assert(str_views(pattern@).subrange(0, pattern@.len() as int) =~= str_views(pattern@));
    assert(str_views(t@).subrange(0, t@.len() as int) =~= str_views(t@));
    parts_from(pattern, t, 0, 0)
}

/// The rule text that is compared: leading `./` and trailing `/` removed.
pub open spec fn rule_core(rule: Seq<char>) -> Seq<char> {
    text::trim_end_char(strip_dot_slash(rule), '/')
}

/// A host path (relative, `/`-separated) matches a rule: it is the rule's
/// path or lies below it, its last component matches a one-component rule,
/// or its components match the rule's components.
pub open spec fn rule_matches(path: Seq<char>, rule: Seq<char>) -> bool {
    let r = rule_core(rule);
    ||| path == r
    ||| text::has_prefix(path, r.push('/'))
    ||| (!text::has_char(r, '/') && component_matches(r, last_component(path)))
    ||| parts_match(split_slash(r), split_slash(path))
}

proof fn lemma_last_component_of_joined(dir: Seq<char>, name: Seq<char>)
    requires !text::has_char(name, '/'),
    ensures
        last_component(name) == name,
        last_component(dir + seq!['/'] + name) == name,
{
    text::lemma_rfind_char(name, '/');
    if text::rfind_char(name, '/') is Some {
        let k = text::rfind_char(name, '/')->0;
        assert(name[k] == '/');
    }
    let s = dir + seq!['/'] + name;
    text::lemma_rfind_char(s, '/');
    assert(s[dir.len() as int] == '/');
    let k = text::rfind_char(s, '/')->0;
    if k > dir.len() {
        assert(name[k - dir.len() - 1] == s[k]);
    }
    if k < dir.len() {
        assert(dir.len() < s.len());
    }
    assert(s.subrange(dir.len() as int + 1, s.len() as int) =~= name);
}

proof fn lemma_slash_free_rule_core(rule: Seq<char>)
    requires !text::has_char(rule, '/'),
    ensures rule_core(rule) == rule,
{
    if text::has_prefix(rule, seq!['.', '/']) {
        assert(rule.subrange(0, 2)[1] == rule[1]);
        assert(rule[1] == '/');
    }
    assert(strip_dot_slash(rule) == rule);
    if rule.len() > 0 {
        assert(rule[rule.len() - 1] != '/');
    }
    assert(text::trail_len(rule, text::char_pred('/')) == 0);
    assert(text::trim_end_char(rule, '/') =~= rule);
}

/// A rule without `/` matches every path whose last `/`-separated component
/// it matches: the bare name, the name under any directory, and so for the
/// exclude and include lists that hold the rule.
pub proof fn lemma_slash_free_rule_matches_last_component(rule: Seq<char>, dir: Seq<char>, name: Seq<char>,
    rules: Seq<String>, i: int)
    requires
        !text::has_char(rule, '/'),
        !text::has_char(name, '/'),
        component_matches(rule, name),
        0 <= i < rules.len(),
        rules[i]@ == rule,
    ensures
        rule_matches(name, rule),
        rule_matches(dir + seq!['/'] + name, rule),
        any_rule_matches(dir + seq!['/'] + name, rules),
        any_rule_matches(name, rules),
{
    lemma_last_component_of_joined(dir, name);
    lemma_slash_free_rule_core(rule);
}

/// The same in terms of the byte glob: a rule without `/` that glob-matches
/// the last component of a path (one whose bytes hold no `*`) matches the path.
pub proof fn lemma_slash_free_rule_globs_last_component(rule: Seq<char>, dir: Seq<char>, name: Seq<char>)
    requires
        !text::has_char(rule, '/'),
        !text::has_char(name, '/'),
        forall|q: int| 0 <= q < vstd::utf8::encode_utf8(name).len() ==> #[trigger] vstd::utf8::encode_utf8(name)[q] != 42u8,
        glob(vstd::utf8::encode_utf8(rule), vstd::utf8::encode_utf8(name)),
    ensures
        rule_matches(name, rule),
        rule_matches(dir + seq!['/'] + name, rule),
{
    lemma_component_matches_agree_with_glob(rule, name);
    lemma_last_component_of_joined(dir, name);
    lemma_slash_free_rule_core(rule);
}

fn strip_dot_slash_exec(s: &str) -> (r: &str)
    ensures r@ == strip_dot_slash(s@),
{
    let mut rest = s;
    while text::starts_with(rest, "./")
        invariant strip_dot_slash(rest@) == strip_dot_slash(s@),
        decreases rest@.len(),
    {
        proof { reveal_strlit("./"); }
        assert("./"@ =~= seq!['.', '/']);
        assert(text::has_prefix(rest@, seq!['.', '/']));
        rest = rest.substring_char(2, rest.unicode_len());
    }
    proof { reveal_strlit("./"); }
    assert("./"@ =~= seq!['.', '/']);
    rest
}

fn last_component_exec(s: &str) -> (r: &str)
    ensures r@ == last_component(s@),
{
    let n = s.unicode_len();
    match text::rfind_char_index(s, '/') {
        None => s,
        Some(k) => {
            proof { text::lemma_rfind_char(s@, '/'); }
            s.substring_char(k + 1, n)
        },
    }
}

/// Whether a host path matches one include or exclude rule.
pub fn matches_rule(path: &str, rule: &str) -> (r: bool)
    ensures r == rule_matches(path@, rule@),
{
    let rule = text::trim_end_matches_char(strip_dot_slash_exec(rule), '/');
    if text::str_eq(path, rule) {
        return true;
    }
    let with_slash = text::concat2(rule, "/");
    proof { reveal_strlit("/"); }
    assert(with_slash@ =~= rule@.push('/'));
    if text::starts_with(path, with_slash.as_str()) {
        return true;
    }
    if !text::contains_char(rule, '/') && glob_match_component(rule, last_component_exec(path)) {
        return true;
    }
    let rule_parts = split_slash_exec(rule);
    let path_parts = split_slash_exec(path);
    glob_match_parts(rule_parts.as_slice(), path_parts.as_slice())
}

/// Some rule matches the path.
pub open spec fn any_rule_matches(path: Seq<char>, rules: Seq<String>) -> bool {
    exists|i: int| 0 <= i < rules.len() && rule_matches(path, #[trigger] rules[i]@)
}

fn any_matches(path: &str, rules: &[String]) -> (r: bool)
    ensures r == any_rule_matches(path@, rules@),
{
    let n = rules.len();
    let mut i: usize = 0;
    while i < n
        invariant
            i <= n,
            n == rules@.len(),
            forall|k: int| 0 <= k < i ==> !rule_matches(path@, #[trigger] rules@[k]@),
        decreases n - i,
    {
        if matches_rule(path, rules[i].as_str()) {
            return true;
        }
        i = i + 1;
    }
    false
}

/// A path is excluded when some exclude rule matches it.
pub fn excluded(path: &str, rules: &[String]) -> (r: bool)
    ensures r == any_rule_matches(path@, rules@),
{
    any_matches(path, rules)
}

/// A path is included when there are no include rules or one matches it.
pub fn included(path: &str, rules: &[String]) -> (r: bool)
    ensures r == (rules@.len() == 0 || any_rule_matches(path@, rules@)),
{
    rules.len() == 0 || any_matches(path, rules)
}

/// A rule that does not start with `.` means the same with a trailing `/` or
/// a leading `./`, and it matches its own path and every path below it.
pub proof fn lemma_rule_normalisation(path: Seq<char>, rule: Seq<char>)
    requires !(rule.len() > 0 && rule[0] == '.'),
    ensures
        rule_matches(path, rule.push('/')) == rule_matches(path, rule),
        rule_matches(path, seq!['.', '/'] + rule) == rule_matches(path, rule),
        ({
            let r = text::trim_end_char(rule, '/');
            (path == r || text::has_prefix(path, r.push('/'))) ==> rule_matches(path, rule)
        }),
{
    let slashed = rule.push('/');
    let dotted = seq!['.', '/'] + rule;
    assert(!text::has_prefix(rule, seq!['.', '/'])) by {
        if text::has_prefix(rule, seq!['.', '/']) {
            assert(rule.subrange(0, 2)[0] == rule[0]);
        }
    }
    assert(strip_dot_slash(rule) == rule);
    assert(!text::has_prefix(slashed, seq!['.', '/'])) by {
        if text::has_prefix(slashed, seq!['.', '/']) {
            assert(slashed.subrange(0, 2)[0] == slashed[0]);
            if rule.len() > 0 {
                assert(slashed[0] == rule[0]);
            }
        }
    }
    assert(strip_dot_slash(slashed) == slashed);
    assert(text::has_prefix(dotted, seq!['.', '/'])) by {
        assert(dotted.subrange(0, 2) =~= seq!['.', '/']);
    }
    assert(dotted.subrange(2, dotted.len() as int) =~= rule);
    assert(strip_dot_slash(dotted) == strip_dot_slash(rule));
    assert(slashed.drop_last() =~= rule);
    let t = text::trail_len(rule, text::char_pred('/'));
    assert(text::trail_len(slashed, text::char_pred('/')) == t + 1);
    text::lemma_trail_le(rule, text::char_pred('/'));
    assert(text::trim_end_char(slashed, '/') =~= text::trim_end_char(rule, '/'));
    assert(rule_core(slashed) == rule_core(rule));
    assert(rule_core(dotted) == rule_core(rule));
}

/// The recursion of component-wise matching: an empty pattern matches only
/// an empty path; `**` matches after skipping any number of leading
/// components; any other pattern component matches the first component.
pub proof fn lemma_parts_match_steps(pattern: Seq<Seq<char>>, t: Seq<Seq<char>>)
    ensures
        pattern.len() == 0 ==> (parts_match(pattern, t) == (t.len() == 0)),
        pattern.len() > 0 && pattern[0] == "**"@ ==> (parts_match(pattern, t)
            <==> exists|k: int| 0 <= k <= t.len() && #[trigger] parts_match(pattern.drop_first(), t.skip(k))),
        pattern.len() > 0 && pattern[0] != "**"@ ==> (parts_match(pattern, t) == (t.len() > 0
            && component_matches(pattern[0], t[0]) && parts_match(pattern.drop_first(), t.drop_first()))),
    decreases t.len(),
{
    if pattern.len() > 0 && pattern[0] == "**"@ {
        let rest = pattern.drop_first();
        if t.len() > 0 {
            lemma_parts_match_steps(pattern, t.drop_first());
        }
        if parts_match(pattern, t) {
            if parts_match(rest, t) {
                assert(t.skip(0) =~= t);
                assert(parts_match(rest, t.skip(0)));
            } else {
                let k = choose|k: int| 0 <= k <= t.drop_first().len() && #[trigger] parts_match(rest, t.drop_first().skip(k));
                assert(t.drop_first().skip(k) =~= t.skip(k + 1));
                assert(parts_match(rest, t.skip(k + 1)));
            }
        }
        if exists|k: int| 0 <= k <= t.len() && #[trigger] parts_match(rest, t.skip(k)) {
            let k = choose|k: int| 0 <= k <= t.len() && #[trigger] parts_match(rest, t.skip(k));
            if k == 0 {
                assert(t.skip(0) =~= t);
            } else {
                assert(t.drop_first().skip(k - 1) =~= t.skip(k));
                assert(parts_match(rest, t.drop_first().skip(k - 1)));
            }
        }
    }
}

/// With no rules every path is included and none is excluded; with rules, a
/// path is included exactly when it would be excluded.
pub proof fn lemma_empty_and_shared_rules(path: Seq<char>, rules: Seq<String>)
    ensures
        rules.len() == 0 ==> !any_rule_matches(path, rules),
        rules.len() > 0 ==> ((rules.len() == 0 || any_rule_matches(path, rules)) == any_rule_matches(path, rules)),
{
}

/// A listing or removal target is a glob when it holds `*` or `?`.
pub fn contains_glob(value: &str) -> (r: bool)
    ensures r == (text::has_char(value@, '*') || text::has_char(value@, '?')),
{
    text::contains_char(value, '*') || text::contains_char(value, '?')
}

/// The order of strings: lexicographic by code point, a proper prefix first
/// (the order of `str`, whose UTF-8 bytes sort as their code points do).
pub open spec fn text_less(a: Seq<char>, b: Seq<char>) -> bool
    decreases a.len(),
{
    if a.len() == 0 {
        b.len() > 0
    } else if b.len() == 0 {
        false
    } else if a[0] != b[0] {
        (a[0] as u32) < (b[0] as u32)
    } else {
        text_less(a.drop_first(), b.drop_first())
    }
}

pub proof fn lemma_text_less_irreflexive(a: Seq<char>)
    ensures !text_less(a, a),
    decreases a.len(),
{
    if a.len() > 0 {
        lemma_text_less_irreflexive(a.drop_first());
    }
}

pub proof fn lemma_text_less_transitive(a: Seq<char>, b: Seq<char>, c: Seq<char>)
    requires text_less(a, b), text_less(b, c),
    ensures text_less(a, c),
    decreases a.len(),
{
    if a.len() > 0 && b.len() > 0 && c.len() > 0 && a[0] == b[0] && b[0] == c[0] {
        lemma_text_less_transitive(a.drop_first(), b.drop_first(), c.drop_first());
    }
}

pub proof fn lemma_text_less_total(a: Seq<char>, b: Seq<char>)
    requires a != b,
    ensures text_less(a, b) || text_less(b, a),
    decreases a.len(),
{
    if a.len() > 0 && b.len() > 0 && a[0] == b[0] {
        if a.drop_first() == b.drop_first() {
            assert(a =~= seq![a[0]] + a.drop_first());
            assert(b =~= seq![b[0]] + b.drop_first());
        }
        lemma_text_less_total(a.drop_first(), b.drop_first());
    } else if a.len() > 0 && b.len() > 0 {
        let x = a[0] as u32;
        let y = b[0] as u32;
        assert(x != y) by {
            vstd::utf8::char_u32_cast(a[0], x);
            vstd::utf8::char_u32_cast(b[0], y);
        }
    } else if a.len() == 0 && b.len() == 0 {
        assert(a =~= b);
    }
}

/// Whether one string sorts before another.
pub(crate) fn text_less_exec(a: &str, b: &str) -> (r: bool)
    ensures r == text_less(a@, b@),
{
    let n = a.unicode_len();
    let m = b.unicode_len();
    let mut i: usize = 0;
    assert(a@.subrange(0, n as int) =~= a@);
    assert(b@.subrange(0, m as int) =~= b@);
    while i < n && i < m && a.get_char(i) == b.get_char(i)
        invariant
            i <= n,
            i <= m,
            n == a@.len(),
            m == b@.len(),
            text_less(a@, b@) == text_less(a@.subrange(i as int, n as int), b@.subrange(i as int, m as int)),
        decreases n - i,
    {
        let ghost x = a@.subrange(i as int, n as int);
        let ghost y = b@.subrange(i as int, m as int);
        assert(x.drop_first() =~= a@.subrange(i + 1, n as int));
        assert(y.drop_first() =~= b@.subrange(i + 1, m as int));
        i = i + 1;
    }
    if i == n {
        i < m
    } else if i == m {
        false
    } else {
        (a.get_char(i) as u32) < (b.get_char(i) as u32)
    }
}

/// Each string sorts strictly before the ones after it: sorted, no repeats.
pub open spec fn strictly_sorted(v: Seq<Seq<char>>) -> bool {
    forall|i: int, j: int| 0 <= i < j < v.len() ==> #[trigger] text_less(v[i], v[j])
}

/// Sorts rules and removes repeated ones, so that equal rule sets compare equal.
pub fn normalize(rules: &mut Vec<String>)
    ensures
        strictly_sorted(string_views(final(rules)@)),
        forall|s: Seq<char>| string_views(final(rules)@).contains(s) <==> string_views(old(rules)@).contains(s),
{
    let ghost input = string_views(rules@);
    let mut out: Vec<String> = Vec::new();
    let n = rules.len();
    let mut i: usize = 0;
    while i < n
        invariant
            i <= n,
            n == rules@.len(),
            input == string_views(rules@),
            strictly_sorted(string_views(out@)),
            forall|s: Seq<char>| string_views(out@).contains(s) <==> input.subrange(0, i as int).contains(s),
        decreases n - i,
    {
        let x = rules[i].as_str();
        assert(x@ == input[i as int]);
        let mut p: usize = 0;
        while p < out.len() && text_less_exec(out[p].as_str(), x)
            invariant
                p <= out@.len(),
                forall|k: int| 0 <= k < p ==> text_less(#[trigger] string_views(out@)[k], x@),
            decreases out@.len() - p,
        {
            p = p + 1;
        }
        let ghost before = string_views(out@);
        if p < out.len() && text::str_eq(out[p].as_str(), x) {
            assert(before[p as int] == x@);
            assert forall|s: Seq<char>| before.contains(s) <==> input.subrange(0, i + 1).contains(s) by {
                assert(input.subrange(0, i + 1) =~= input.subrange(0, i as int).push(x@));
                if s == x@ {
                    assert(before.contains(s));
                }
            }
        } else {
            if p < out.len() {
                proof {
                    lemma_text_less_total(before[p as int], x@);
                }
            }
            out.insert(p, text::owned(x));
            let ghost after = string_views(out@);
            assert(after =~= before.insert(p as int, x@));
            assert forall|a: int, b: int| 0 <= a < b < after.len() implies #[trigger] text_less(after[a], after[b]) by {
                if b < p {
                } else if b == p {
                } else if a < p {
                    assert(text_less(after[a], x@));
                    if b == p + 1 {
                        assert(text_less(x@, after[b]));
                    } else {
                        assert(text_less(before[p as int], before[b - 1]));
                        lemma_text_less_transitive(x@, before[p as int], before[b - 1]);
                    }
                    lemma_text_less_transitive(after[a], x@, after[b]);
                } else if a == p {
                    if b == p + 1 {
                    } else {
                        assert(text_less(before[p as int], before[b - 1]));
                        lemma_text_less_transitive(x@, before[p as int], before[b - 1]);
                    }
                } else {
                    assert(text_less(before[a - 1], before[b - 1]));
                }
            }
            assert forall|s: Seq<char>| after.contains(s) <==> input.subrange(0, i + 1).contains(s) by {
                let whole = input.subrange(0, i + 1);
                let prior = input.subrange(0, i as int);
                assert(whole[i as int] == x@);
                if after.contains(s) {
                    let k = choose|k: int| 0 <= k < after.len() && #[trigger] after[k] == s;
                    if k == p {
                        assert(whole.contains(s));
                    } else {
                        if k < p {
                            assert(before[k] == s);
                        } else {
                            assert(before[k - 1] == s);
                        }
                        assert(before.contains(s));
                        assert(prior.contains(s));
                        let j = choose|j: int| 0 <= j < prior.len() && #[trigger] prior[j] == s;
                        assert(whole[j] == s);
                        assert(whole.contains(s));
                    }
                }
                if whole.contains(s) {
                    let k = choose|k: int| 0 <= k < whole.len() && #[trigger] whole[k] == s;
                    if k == i {
                        assert(after[p as int] == s);
                    } else {
                        assert(prior[k] == s);
                        assert(prior.contains(s));
                        assert(before.contains(s));
                        let j = choose|j: int| 0 <= j < before.len() && #[trigger] before[j] == s;
                        if j < p {
                            assert(after[j] == s);
                        } else {
                            assert(after[j + 1] == s);
                        }
                    }
                    assert(after.contains(s));
                }
            }
        }
        i = i + 1;
    }
    assert(input.subrange(0, n as int) =~= input);
    *rules = out;
}

} // verus!
