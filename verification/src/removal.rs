//! Choosing what `remove` deletes: the entries that the patterns matched,
//! shortest path first, without those that a selected directory takes along.

use vstd::prelude::*;
use crate::text;
use crate::files::{EntryKind, kind_name, kind_text};
use crate::messages::{ApiError, CliMessage, cli_error, is_plain_error};
use crate::glob::{string_views, text_less, text_less_exec, lemma_text_less_total, lemma_text_less_transitive,
    lemma_text_less_irreflexive};

verus! {

/// A stored entry that a removal pattern matched.
#[derive(Clone, Debug)]
pub struct RemoveCandidate {
    pub path: String,
    pub kind: EntryKind,
}

/// A removal target as a value: its stored path and its kind.
pub type TargetView = (Seq<char>, EntryKind);

pub open spec fn target_view(c: RemoveCandidate) -> TargetView {
    (c.path@, c.kind)
}

pub open spec fn targets_view(s: Seq<RemoveCandidate>) -> Seq<TargetView> {
    s.map_values(|c: RemoveCandidate| target_view(c))
}

/// The number of bytes that UTF-8 takes for a character.
pub open spec fn utf8_width(c: char) -> nat {
    if (c as u32) < 0x80 {
        1
    } else if (c as u32) < 0x800 {
        2
    } else if (c as u32) < 0x10000 {
        3
    } else {
        4
    }
}

/// The length of a string in UTF-8 bytes, the length by which a `str` is measured.
pub open spec fn utf8_len(s: Seq<char>) -> nat
    decreases s.len(),
{
    if s.len() == 0 {
        0
    } else {
        utf8_len(s.drop_last()) + utf8_width(s.last())
    }
}

/// The sort key of a target: the UTF-8 length of its path.
pub open spec fn path_len(t: TargetView) -> nat {
    utf8_len(t.0)
}

/// Where a target with key `k` goes in a sequence sorted by key: after every
/// target whose key is at most `k`.
pub open spec fn insert_pos(s: Seq<TargetView>, k: nat) -> nat
    decreases s.len(),
{
    if s.len() == 0 {
        0
    } else if path_len(s[0]) > k {
        0
    } else {
        1 + insert_pos(s.drop_first(), k)
    }
}

/// The targets sorted by the UTF-8 length of their paths, targets of equal
/// length in their given order (a stable sort).
pub open spec fn by_length(s: Seq<TargetView>) -> Seq<TargetView>
    decreases s.len(),
{
    if s.len() == 0 {
        s
    } else {
        let t = by_length(s.drop_last());
        t.insert(insert_pos(t, path_len(s.last())) as int, s.last())
    }
}

/// A stored path lies strictly below a directory path.
pub open spec fn descends_from(p: Seq<char>, t: Seq<char>) -> bool {
    p != t && if t == "/"@ {
        text::has_prefix(p, "/"@)
    } else {
        text::has_prefix(p, t + "/"@)
    }
}

/// A path lies below one of the directories among the kept targets.
pub open spec fn covered_by(kept: Seq<TargetView>, p: Seq<char>) -> bool {
    exists|i: int| 0 <= i < kept.len() && kept[i].1 == EntryKind::Directory && #[trigger] descends_from(p, kept[i].0)
}

/// The targets kept, in order: each one that no directory kept before it contains.
pub open spec fn collapse(s: Seq<TargetView>) -> Seq<TargetView>
    decreases s.len(),
{
    if s.len() == 0 {
        s
    } else {
        let k = collapse(s.drop_last());
        if covered_by(k, s.last().0) {
            k
        } else {
            k.push(s.last())
        }
    }
}

/// Sorted by key, shortest first.
pub open spec fn length_sorted(s: Seq<TargetView>) -> bool {
    forall|a: int, b: int| 0 <= a < b < s.len() ==> path_len(#[trigger] s[a]) <= path_len(#[trigger] s[b])
}

fn utf8_length(s: &str) -> (r: u128)
    ensures r == utf8_len(s@),
{
    let n = s.unicode_len();
    let mut total: u128 = 0;
    let mut i: usize = 0;
    while i < n
        invariant
            i <= n,
            n == s@.len(),
            total == utf8_len(s@.take(i as int)),
            total <= 4 * i,
        decreases n - i,
    {
        let c = s.get_char(i);
        let v = c as u32;
        let w: u128 = if v < 0x80 {
            1
        } else if v < 0x800 {
            2
        } else if v < 0x10000 {
            3
        } else {
            4
        };
        assert(s@.take(i + 1).drop_last() =~= s@.take(i as int));
        assert(s@.take(i + 1).last() == c);
        total = total + w;
        i = i + 1;
    }
    assert(s@.take(n as int) =~= s@);
    total
}

fn descends_from_exec(p: &str, t: &str) -> (r: bool)
    ensures r == descends_from(p@, t@),
{
    if text::str_eq(p, t) {
        return false;
    }
    if text::str_eq(t, "/") {
        text::starts_with(p, "/")
    } else {
        let below = text::concat2(t, "/");
        text::starts_with(p, below.as_str())
    }
}

proof fn lemma_insert_pos(s: Seq<TargetView>, k: nat)
    requires length_sorted(s),
    ensures
        insert_pos(s, k) <= s.len(),
        forall|q: int| 0 <= q < insert_pos(s, k) ==> path_len(#[trigger] s[q]) <= k,
        insert_pos(s, k) < s.len() ==> path_len(s[insert_pos(s, k) as int]) > k,
    decreases s.len(),
{
    if s.len() > 0 && path_len(s[0]) <= k {
        let t = s.drop_first();
        assert forall|a: int, b: int| 0 <= a < b < t.len() implies path_len(#[trigger] t[a]) <= path_len(#[trigger] t[b]) by {
            assert(t[a] == s[a + 1] && t[b] == s[b + 1]);
        }
        lemma_insert_pos(t, k);
        assert forall|q: int| 0 <= q < insert_pos(s, k) implies path_len(#[trigger] s[q]) <= k by {
            if q > 0 {
                assert(s[q] == t[q - 1]);
            }
        }
    }
}

proof fn lemma_by_length(s: Seq<TargetView>)
    ensures
        by_length(s).len() == s.len(),
        length_sorted(by_length(s)),
        forall|x: TargetView| s.contains(x) ==> by_length(s).contains(x),
        forall|x: TargetView| by_length(s).contains(x) ==> s.contains(x),
    decreases s.len(),
{
    if s.len() > 0 {
        let pre = s.drop_last();
        let x = s.last();
        let t = by_length(pre);
        lemma_by_length(pre);
        lemma_insert_pos(t, path_len(x));
        let p = insert_pos(t, path_len(x)) as int;
        let u = t.insert(p, x);
        assert(by_length(s) == u);
        assert forall|a: int, b: int| 0 <= a < b < u.len() implies path_len(#[trigger] u[a]) <= path_len(#[trigger] u[b]) by {
            if b < p {
            } else if b == p {
                assert(u[a] == t[a]);
            } else if a < p {
                assert(u[b] == t[b - 1]);
                if b - 1 >= p {
                    assert(path_len(t[p]) > path_len(x));
                    if b - 1 > p {
                        assert(path_len(t[p]) <= path_len(t[b - 1]));
                    }
                }
                assert(path_len(u[a]) <= path_len(x));
            } else if a == p {
                assert(u[b] == t[b - 1]);
                assert(path_len(t[p]) > path_len(x));
                if b - 1 > p {
                    assert(path_len(t[p]) <= path_len(t[b - 1]));
                }
            } else {
                assert(u[a] == t[a - 1] && u[b] == t[b - 1]);
            }
        }
        assert forall|y: TargetView| s.contains(y) implies u.contains(y) by {
            let i = choose|i: int| 0 <= i < s.len() && s[i] == y;
            if i == s.len() - 1 {
                assert(u[p] == y);
            } else {
                assert(pre[i] == y);
                assert(pre.contains(y));
                assert(t.contains(y));
                let j = choose|j: int| 0 <= j < t.len() && t[j] == y;
                if j < p {
                    assert(u[j] == y);
                } else {
                    assert(u[j + 1] == y);
                }
            }
        }
        assert forall|y: TargetView| u.contains(y) implies s.contains(y) by {
            let j = choose|j: int| 0 <= j < u.len() && u[j] == y;
            if j == p {
                assert(s[s.len() - 1] == y);
            } else {
                let jj = if j < p { j } else { j - 1 };
                assert(t[jj] == y);
                assert(t.contains(y));
                assert(pre.contains(y));
                let i = choose|i: int| 0 <= i < pre.len() && pre[i] == y;
                assert(s[i] == y);
            }
        }
    }
}

proof fn lemma_collapse_within(s: Seq<TargetView>)
    ensures
        forall|y: TargetView| collapse(s).contains(y) ==> s.contains(y),
        forall|i: int| 0 <= i < s.len() ==> collapse(s).contains(#[trigger] s[i]) || covered_by(collapse(s), s[i].0),
        forall|a: int, b: int| 0 <= a < b < collapse(s).len() && collapse(s)[a].1 == EntryKind::Directory
            ==> !descends_from(#[trigger] collapse(s)[b].0, #[trigger] collapse(s)[a].0),
    decreases s.len(),
{
    if s.len() > 0 {
        let pre = s.drop_last();
        let x = s.last();
        let k = collapse(pre);
        lemma_collapse_within(pre);
        let c = collapse(s);
        assert forall|y: TargetView| c.contains(y) implies s.contains(y) by {
            let j = choose|j: int| 0 <= j < c.len() && c[j] == y;
            if j < k.len() {
                assert(k[j] == y);
                assert(k.contains(y));
                assert(pre.contains(y));
                let i = choose|i: int| 0 <= i < pre.len() && pre[i] == y;
                assert(s[i] == y);
            } else {
                assert(s[s.len() - 1] == y);
            }
        }
        assert forall|i: int| 0 <= i < s.len() implies c.contains(#[trigger] s[i]) || covered_by(c, s[i].0) by {
            if i == s.len() - 1 {
                if covered_by(k, x.0) {
                } else {
                    assert(c[k.len() as int] == x);
                }
            } else {
                assert(pre[i] == s[i]);
                if k.contains(s[i]) {
                    let j = choose|j: int| 0 <= j < k.len() && k[j] == s[i];
                    assert(c[j] == s[i]);
                } else {
                    assert(covered_by(k, s[i].0));
                    let j = choose|j: int| 0 <= j < k.len() && k[j].1 == EntryKind::Directory
                        && #[trigger] descends_from(s[i].0, k[j].0);
                    assert(c[j] == k[j]);
                }
            }
        }
        assert forall|a: int, b: int| 0 <= a < b < c.len() && c[a].1 == EntryKind::Directory
            implies !descends_from(#[trigger] c[b].0, #[trigger] c[a].0) by {
            if b < k.len() {
                assert(c[a] == k[a] && c[b] == k[b]);
            } else {
                assert(c[a] == k[a]);
                assert(c[b] == x);
                if descends_from(x.0, k[a].0) {
                    assert(covered_by(k, x.0));
                }
            }
        }
    }
}

proof fn lemma_utf8_prefix_shorter(s: Seq<char>, n: int)
    requires 0 <= n < s.len(),
    ensures utf8_len(s.take(n)) < utf8_len(s),
    decreases s.len(),
{
    if n == s.len() - 1 {
        assert(s.take(n) =~= s.drop_last());
    } else {
        assert(s.take(n) =~= s.drop_last().take(n));
        lemma_utf8_prefix_shorter(s.drop_last(), n);
    }
}

proof fn lemma_descendant_is_longer(p: Seq<char>, t: Seq<char>)
    requires descends_from(p, t),
    ensures utf8_len(p) > utf8_len(t),
{
    if t == "/"@ {
        assert(t.len() == 1) by {
            reveal_strlit("/");
        }
        assert(p.len() >= 1) by {
            reveal_strlit("/");
        }
        if p.len() == 1 {
            assert(p =~= p.subrange(0, 1));
        }
        assert(p.take(1) =~= p.subrange(0, 1));
        lemma_utf8_prefix_shorter(p, 1);
    } else {
        let below = t + "/"@;
        assert(below.len() == t.len() + 1) by {
            reveal_strlit("/");
        }
        assert(p.take(t.len() as int) =~= t) by {
            assert forall|i: int| 0 <= i < t.len() implies p.take(t.len() as int)[i] == t[i] by {
                assert(p.subrange(0, below.len() as int)[i] == below[i]);
            }
        }
        lemma_utf8_prefix_shorter(p, t.len() as int);
    }
}

/// The collapsed targets are sorted by path length.
proof fn lemma_collapse_sorted(s: Seq<TargetView>)
    requires length_sorted(s),
    ensures length_sorted(collapse(s)),
    decreases s.len(),
{
    if s.len() > 0 {
        let pre = s.drop_last();
        assert forall|a: int, b: int| 0 <= a < b < pre.len() implies path_len(#[trigger] pre[a]) <= path_len(#[trigger] pre[b]) by {
            assert(pre[a] == s[a] && pre[b] == s[b]);
        }
        lemma_collapse_sorted(pre);
        lemma_collapse_within(pre);
        let k = collapse(pre);
        let c = collapse(s);
        assert forall|a: int, b: int| 0 <= a < b < c.len() implies path_len(#[trigger] c[a]) <= path_len(#[trigger] c[b]) by {
            if b < k.len() {
                assert(c[a] == k[a] && c[b] == k[b]);
            } else {
                assert(c[a] == k[a]);
                assert(k.contains(k[a]));
                assert(pre.contains(k[a]));
                let i = choose|i: int| 0 <= i < pre.len() && pre[i] == k[a];
                assert(s[i] == k[a]);
                assert(c[b] == s[s.len() - 1]);
                assert(path_len(s[i]) <= path_len(s[s.len() - 1]));
            }
        }
    }
}

/// What `remove` deletes covers every matched entry exactly once: each one is
/// kept or lies below a kept directory, each kept target is a matched entry,
/// and no kept target lies below another kept directory.
pub proof fn lemma_removal_targets_cover_each_entry_once(s: Seq<TargetView>)
    ensures
        forall|i: int| 0 <= i < s.len() ==> collapse(by_length(s)).contains(#[trigger] s[i])
            || covered_by(collapse(by_length(s)), s[i].0),
        forall|y: TargetView| collapse(by_length(s)).contains(y) ==> s.contains(y),
        forall|a: int, b: int| 0 <= a < collapse(by_length(s)).len() && 0 <= b < collapse(by_length(s)).len()
            && collapse(by_length(s))[a].1 == EntryKind::Directory
            ==> !descends_from(#[trigger] collapse(by_length(s))[b].0, #[trigger] collapse(by_length(s))[a].0),
{
    let t = by_length(s);
    lemma_by_length(s);
    lemma_collapse_within(t);
    lemma_collapse_sorted(t);
    let c = collapse(t);
    assert forall|i: int| 0 <= i < s.len() implies c.contains(#[trigger] s[i]) || covered_by(c, s[i].0) by {
        assert(s.contains(s[i]));
        assert(t.contains(s[i]));
        let j = choose|j: int| 0 <= j < t.len() && t[j] == s[i];
        assert(c.contains(t[j]) || covered_by(c, t[j].0));
    }
    assert forall|y: TargetView| c.contains(y) implies s.contains(y) by {
        assert(t.contains(y));
    }
    assert forall|a: int, b: int| 0 <= a < c.len() && 0 <= b < c.len() && c[a].1 == EntryKind::Directory
        implies !descends_from(#[trigger] c[b].0, #[trigger] c[a].0) by {
        if b < a {
            assert(path_len(c[b]) <= path_len(c[a]));
            if descends_from(c[b].0, c[a].0) {
                lemma_descendant_is_longer(c[b].0, c[a].0);
            }
        }
    }
}

/// The targets of `remove`: sorted by path length (stable), without the
/// entries that a selected directory already contains.
pub fn collapse_descendants_of_selected_directories(entries: &[RemoveCandidate]) -> (r: Vec<RemoveCandidate>)
    ensures targets_view(r@) == collapse(by_length(targets_view(entries@))),
{
    let ghost input = targets_view(entries@);
    let n = entries.len();
    let mut sorted: Vec<RemoveCandidate> = Vec::new();
    let mut keys: Vec<u128> = Vec::new();
    let mut i: usize = 0;
    while i < n
        invariant
            i <= n,
            n == entries@.len(),
            input == targets_view(entries@),
            targets_view(sorted@) == by_length(input.take(i as int)),
            keys@.len() == sorted@.len(),
            forall|q: int| 0 <= q < keys@.len() ==> keys@[q] == path_len(#[trigger] targets_view(sorted@)[q]),
        decreases n - i,
    {
        let k = utf8_length(entries[i].path.as_str());
        let ghost view = targets_view(sorted@);
        proof {
            lemma_by_length(input.take(i as int));
        }
        let mut p: usize = 0;
        assert(view.skip(0) =~= view);
        while p < keys.len() && keys[p] <= k
            invariant
                p <= keys@.len(),
                keys@.len() == view.len(),
                view == targets_view(sorted@),
                forall|q: int| 0 <= q < keys@.len() ==> keys@[q] == path_len(#[trigger] view[q]),
                insert_pos(view, k as nat) == p + insert_pos(view.skip(p as int), k as nat),
            decreases keys@.len() - p,
        {
            let ghost rest = view.skip(p as int);
            assert(rest[0] == view[p as int]);
            assert(rest.drop_first() =~= view.skip(p + 1));
            p = p + 1;
        }
        proof {
            let rest = view.skip(p as int);
            if p < keys@.len() {
                assert(rest[0] == view[p as int]);
            } else {
                assert(rest.len() == 0);
            }
        }
        let item = RemoveCandidate { path: entries[i].path.clone(), kind: entries[i].kind };
        let ghost before_keys = keys@;
        sorted.insert(p, item);
        keys.insert(p, k);
        proof {
            let whole = input.take(i + 1);
            assert(whole.drop_last() =~= input.take(i as int));
            assert(whole.last() == input[i as int]);
            assert(input[i as int] == target_view(entries@[i as int]));
            assert(targets_view(sorted@) =~= view.insert(p as int, input[i as int]));
            assert forall|q: int| 0 <= q < keys@.len() implies keys@[q] == path_len(#[trigger] targets_view(sorted@)[q]) by {
                if q < p {
                    assert(keys@[q] == before_keys[q]);
                } else if q > p {
                    assert(keys@[q] == before_keys[q - 1]);
                }
            }
        }
        i = i + 1;
    }
    assert(input.take(n as int) =~= input);
    proof {
        lemma_by_length(input);
    }
    let ghost ordered = targets_view(sorted@);
    let mut out: Vec<RemoveCandidate> = Vec::new();
    let mut j: usize = 0;
    while j < n
        invariant
            j <= n,
            sorted@.len() == n,
            ordered == targets_view(sorted@),
            ordered.len() == n,
            targets_view(out@) == collapse(ordered.take(j as int)),
        decreases n - j,
    {
        let ghost kept = targets_view(out@);
        let mut covered = false;
        let mut m: usize = 0;
        while m < out.len()
            invariant
                m <= out@.len(),
                kept == targets_view(out@),
                j < n,
                sorted@.len() == n,
                ordered == targets_view(sorted@),
                covered ==> covered_by(kept, ordered[j as int].0),
                !covered ==> forall|q: int| 0 <= q < m ==> !(kept[q].1 == EntryKind::Directory
                    && #[trigger] descends_from(ordered[j as int].0, kept[q].0)),
            decreases out@.len() - m,
        {
            if !covered && matches!(out[m].kind, EntryKind::Directory)
                && descends_from_exec(sorted[j].path.as_str(), out[m].path.as_str()) {
                assert(kept[m as int].1 == EntryKind::Directory);
                assert(descends_from(ordered[j as int].0, kept[m as int].0));
                covered = true;
            }
            m = m + 1;
        }
        if !covered {
            out.push(RemoveCandidate { path: sorted[j].path.clone(), kind: sorted[j].kind });
        }
        proof {
            let whole = ordered.take(j + 1);
            assert(whole.drop_last() =~= ordered.take(j as int));
            assert(whole.last() == ordered[j as int]);
            if !covered {
                assert(targets_view(out@) =~= kept.push(ordered[j as int]));
            }
        }
        j = j + 1;
    }
    assert(ordered.take(n as int) =~= ordered);
    out
}

/// The arguments of `remove` without its `--force` and `--recursive` flags.
pub open spec fn without_flags(args: Seq<Seq<char>>) -> Seq<Seq<char>> {
    args.filter(|a: Seq<char>| a != "--force"@ && a != "--recursive"@)
}

/// The flags of `remove`: whether `--force` and `--recursive` occur, and the
/// other arguments in order.
pub fn remove_flags(args: &[String]) -> (r: (bool, bool, Vec<String>))
    ensures
        r.0 == string_views(args@).contains("--force"@),
        r.1 == string_views(args@).contains("--recursive"@),
        string_views(r.2@) == without_flags(string_views(args@)),
{
    let ghost all = string_views(args@);
    let n = args.len();
    let mut force = false;
    let mut recursive = false;
    let mut rest: Vec<String> = Vec::new();
    let mut i: usize = 0;
    while i < n
        invariant
            i <= n,
            n == args@.len(),
            all == string_views(args@),
            force == all.take(i as int).contains("--force"@),
            recursive == all.take(i as int).contains("--recursive"@),
            string_views(rest@) == without_flags(all.take(i as int)),
        decreases n - i,
    {
        let a = args[i].as_str();
        let is_force = text::str_eq(a, "--force");
        let is_recursive = text::str_eq(a, "--recursive");
        let ghost before = all.take(i as int);
        let ghost now = all.take(i + 1);
        assert(now =~= before.push(a@));
        assert(now.drop_last() =~= before);
        assert(now.contains("--force"@) == (before.contains("--force"@) || a@ == "--force"@)) by {
            if now.contains("--force"@) {
                let k = choose|k: int| 0 <= k < now.len() && now[k] == "--force"@;
                if k < before.len() {
                    assert(before[k] == now[k]);
                }
            }
            if before.contains("--force"@) {
                let k = choose|k: int| 0 <= k < before.len() && before[k] == "--force"@;
                assert(now[k] == before[k]);
            }
            if a@ == "--force"@ {
                assert(now[i as int] == a@);
            }
        }
        assert(now.contains("--recursive"@) == (before.contains("--recursive"@) || a@ == "--recursive"@)) by {
            if now.contains("--recursive"@) {
                let k = choose|k: int| 0 <= k < now.len() && now[k] == "--recursive"@;
                if k < before.len() {
                    assert(before[k] == now[k]);
                }
            }
            if before.contains("--recursive"@) {
                let k = choose|k: int| 0 <= k < before.len() && before[k] == "--recursive"@;
                assert(now[k] == before[k]);
            }
            if a@ == "--recursive"@ {
                assert(now[i as int] == a@);
            }
        }
        reveal_with_fuel(Seq::filter, 1);
        proof {
            reveal_strlit("--force");
            reveal_strlit("--recursive");
            assert("--force"@.len() != "--recursive"@.len());
        }
        if is_force {
            force = true;
        } else if is_recursive {
            recursive = true;
        } else {
            rest.push(args[i].clone());
        }
        proof {
            assert(without_flags(now) == {
                let f = without_flags(before);
                if a@ != "--force"@ && a@ != "--recursive"@ { f.push(a@) } else { f }
            });
            if !is_force && !is_recursive {
                assert(string_views(rest@) =~= without_flags(before).push(a@));
            }
        }
        i = i + 1;
    }
    assert(all.take(n as int) =~= all);
    (force, recursive, rest)
}

/// `remove` needs at least one stored path or glob.
pub fn require_patterns(patterns: &[String]) -> (r: Result<(), CliMessage>)
    ensures
        patterns@.len() == 0 ==> (r matches Err(m) && is_plain_error(m, "remove requires at least one stored path or glob"@)),
        patterns@.len() > 0 ==> r is Ok,
{
    if patterns.len() == 0 {
        Err(cli_error("remove requires at least one stored path or glob"))
    } else {
        Ok(())
    }
}

/// The listing that a removal glob asks for: the pattern without its leading
/// slashes, recursive when it spans directories (holds `/` or `**`).
pub fn glob_listing_request(pattern: &str) -> (r: (String, bool))
    ensures
        r.0@ == text::trim_start_char(pattern@, '/'),
        r.1 == (text::has_char(r.0@, '/') || text::contains(r.0@, "**"@)),
{
    let archive_pattern = text::trim_start_matches_char(pattern, '/');
    let recursive = text::contains_char(archive_pattern, '/') || text::contains_str(archive_pattern, "**");
    (text::owned(archive_pattern), recursive)
}

/// A removal glob that matched nothing.
pub fn no_match_error(pattern: &str) -> (r: ApiError)
    ensures r matches ApiError::NotFound(m) && m@ == "no lockbox entries match "@ + pattern@,
{
    ApiError::NotFound(text::concat2("no lockbox entries match ", pattern))
}

/// A directory among the matched entries is removed only with `--recursive`.
pub fn require_recursive_for_directories(entries: &[RemoveCandidate], recursive: bool) -> (r: Result<(), CliMessage>)
    ensures
        (!recursive && exists|i: int| 0 <= i < entries@.len() && entries@[i].kind == EntryKind::Directory)
            ==> (r matches Err(m) && is_plain_error(m, "removing a directory requires --recursive (-r or -R)"@)),
        !(!recursive && exists|i: int| 0 <= i < entries@.len() && entries@[i].kind == EntryKind::Directory)
            ==> r is Ok,
{
    if recursive {
        return Ok(());
    }
    let n = entries.len();
    let mut i: usize = 0;
    while i < n
        invariant
            i <= n,
            n == entries@.len(),
            !recursive,
            forall|q: int| 0 <= q < i ==> entries@[q].kind != EntryKind::Directory,
        decreases n - i,
    {
        if matches!(entries[i].kind, EntryKind::Directory) {
            assert(entries@[i as int].kind == EntryKind::Directory);
            return Err(cli_error("removing a directory requires --recursive (-r or -R)"));
        }
        i = i + 1;
    }
    Ok(())
}

/// The listing lines of a multi-entry confirmation: two spaces and the path.
pub open spec fn prompt_listing(ps: Seq<Seq<char>>) -> Seq<char>
    decreases ps.len(),
{
    if ps.len() == 0 {
        Seq::empty()
    } else {
        prompt_listing(ps.drop_last()) + "  "@ + ps.last() + "\n"@
    }
}

/// What `remove` asks before it deletes.
pub open spec fn remove_prompt(ps: Seq<Seq<char>>) -> Seq<char> {
    if ps.len() == 1 {
        "Remove lockbox entry '"@ + ps[0] + "'? Type y or yes to confirm: "@
    } else {
        "Remove "@ + text::dec(ps.len()) + " lockbox entries?\n"@ + prompt_listing(ps) + "Type y or yes to confirm: "@
    }
}

pub open spec fn target_paths(s: Seq<RemoveCandidate>) -> Seq<Seq<char>> {
    s.map_values(|c: RemoveCandidate| c.path@)
}

/// The confirmation question of `remove`.
pub fn confirm_remove_prompt(entries: &[RemoveCandidate]) -> (r: String)
    ensures r@ == remove_prompt(target_paths(entries@)),
{
    let ghost ps = target_paths(entries@);
    let n = entries.len();
    if n == 1 {
        return text::concat3("Remove lockbox entry '", entries[0].path.as_str(), "'? Type y or yes to confirm: ");
    }
    let count = text::decimal(n as u64);
    let mut out = text::concat3("Remove ", count.as_str(), " lockbox entries?\n");
    let ghost head = out@;
    let mut i: usize = 0;
    while i < n
        invariant
            i <= n,
            n == entries@.len(),
            ps == target_paths(entries@),
            out@ == head + prompt_listing(ps.take(i as int)),
        decreases n - i,
    {
        text::push_str(&mut out, "  ");
        text::push_str(&mut out, entries[i].path.as_str());
        text::push_str(&mut out, "\n");
        assert(ps.take(i + 1).drop_last() =~= ps.take(i as int));
        i = i + 1;
    }
    assert(ps.take(n as int) =~= ps);
    text::push_str(&mut out, "Type y or yes to confirm: ");
    out
}

/// The answer to the confirmation: `y` or `yes`, in any case, around blanks.
pub fn remove_confirmed(answer: &str) -> (r: bool)
    ensures r == (text::lower(text::trim(answer@)) == "y"@ || text::lower(text::trim(answer@)) == "yes"@),
{
    let a = text::to_lower(text::str_trim(answer));
    text::str_eq(a.as_str(), "y") || text::str_eq(a.as_str(), "yes")
}

/// The line printed once the targets are removed.
pub fn remove_report(entries: &[RemoveCandidate]) -> (r: String)
    ensures
        entries@.len() == 1 ==> r@ == "Removed 1 "@ + kind_text(entries@[0].kind) + ": "@ + entries@[0].path@,
        entries@.len() != 1 ==> r@ == "Removed "@ + text::dec(entries@.len()) + " entries."@,
{
    if entries.len() == 1 {
        let mut out = text::concat3("Removed 1 ", kind_name(entries[0].kind), ": ");
        text::push_str(&mut out, entries[0].path.as_str());
        out
    } else {
        let count = text::decimal(entries.len() as u64);
        text::concat3("Removed ", count.as_str(), " entries.")
    }
}

/// The kind that the last match of a path recorded, if the path matched.
pub open spec fn last_kind(s: Seq<TargetView>, p: Seq<char>) -> Option<EntryKind>
    decreases s.len(),
{
    if s.len() == 0 {
        None
    } else if s.last().0 == p {
        Some(s.last().1)
    } else {
        last_kind(s.drop_last(), p)
    }
}

/// Paths in strictly increasing order: sorted, each once.
pub open spec fn paths_strictly_sorted(s: Seq<TargetView>) -> bool {
    forall|a: int, b: int| 0 <= a < b < s.len() ==> text_less(#[trigger] s[a].0, #[trigger] s[b].0)
}

/// The entries that the removal patterns matched, each path once, in path
/// order; a path matched more than once keeps the kind of its last match.
pub fn merge_matched_entries(matched: &[RemoveCandidate]) -> (r: Vec<RemoveCandidate>)
    ensures
        paths_strictly_sorted(targets_view(r@)),
        forall|p: Seq<char>| (exists|i: int| 0 <= i < r@.len() && #[trigger] r@[i].path@ == p)
            <==> last_kind(targets_view(matched@), p) is Some,
        forall|i: int| 0 <= i < r@.len() ==> last_kind(targets_view(matched@), #[trigger] r@[i].path@) == Some(r@[i].kind),
{
    let ghost input = targets_view(matched@);
    let n = matched.len();
    let mut out: Vec<RemoveCandidate> = Vec::new();
    let mut i: usize = 0;
    while i < n
        invariant
            i <= n,
            n == matched@.len(),
            input == targets_view(matched@),
            paths_strictly_sorted(targets_view(out@)),
            forall|p: Seq<char>| (exists|k: int| 0 <= k < out@.len() && #[trigger] out@[k].path@ == p)
                <==> last_kind(input.take(i as int), p) is Some,
            forall|k: int| 0 <= k < out@.len() ==> last_kind(input.take(i as int), #[trigger] out@[k].path@)
                == Some(out@[k].kind),
        decreases n - i,
    {
        let x = matched[i].path.as_str();
        let kind = matched[i].kind;
        let ghost before = targets_view(out@);
        let ghost old_out = out@;
        let ghost prior = input.take(i as int);
        let ghost whole = input.take(i + 1);
        proof {
            assert(whole.drop_last() =~= prior);
            assert(whole.last() == (x@, kind));
        }
        let mut p: usize = 0;
        while p < out.len() && text_less_exec(out[p].path.as_str(), x)
            invariant
                p <= out@.len(),
                before == targets_view(out@),
                forall|k: int| 0 <= k < p ==> text_less(#[trigger] before[k].0, x@),
            decreases out@.len() - p,
        {
            p = p + 1;
        }
        if p < out.len() && text::str_eq(out[p].path.as_str(), x) {
            out.set(p, RemoveCandidate { path: text::owned(x), kind });
            proof {
                let after = targets_view(out@);
                assert(after =~= before.update(p as int, (x@, kind)));
                assert forall|a: int, b: int| 0 <= a < b < after.len() implies text_less(#[trigger] after[a].0, #[trigger] after[b].0) by {
                    assert(after[a].0 == before[a].0 && after[b].0 == before[b].0);
                }
                assert forall|q: Seq<char>| (exists|k: int| 0 <= k < out@.len() && #[trigger] out@[k].path@ == q)
                    <==> last_kind(whole, q) is Some by {
                    if q != x@ {
                        if exists|k: int| 0 <= k < out@.len() && #[trigger] out@[k].path@ == q {
                            let k = choose|k: int| 0 <= k < out@.len() && #[trigger] out@[k].path@ == q;
                            assert(before[k].0 == q);
                            assert(old_out[k].path@ == q);
                            assert(exists|k2: int| 0 <= k2 < old_out.len() && #[trigger] old_out[k2].path@ == q);
                        }
                        if last_kind(whole, q) is Some {
                            assert(last_kind(prior, q) is Some);
                            assert(exists|k: int| 0 <= k < old_out.len() && #[trigger] old_out[k].path@ == q);
                            let k = choose|k: int| 0 <= k < old_out.len() && #[trigger] old_out[k].path@ == q;
                            assert(before[k].0 == q);
                            assert(out@[k].path@ == q);
                        }
                    } else {
                        assert(out@[p as int].path@ == q);
                    }
                }
                assert forall|k: int| 0 <= k < out@.len() implies last_kind(whole, #[trigger] out@[k].path@)
                    == Some(out@[k].kind) by {
                    if k != p {
                        assert(before[k].0 != x@) by {
                            if k < p {
                                lemma_text_less_irreflexive(x@);
                            } else {
                                assert(text_less(before[p as int].0, before[k].0));
                                lemma_text_less_irreflexive(x@);
                            }
                        }
                    }
                }
            }
        } else {
            if p < out.len() {
                proof {
                    lemma_text_less_total(before[p as int].0, x@);
                }
            }
            out.insert(p, RemoveCandidate { path: text::owned(x), kind });
            proof {
                let after = targets_view(out@);
                assert(after =~= before.insert(p as int, (x@, kind)));
                assert forall|a: int, b: int| 0 <= a < b < after.len() implies text_less(#[trigger] after[a].0, #[trigger] after[b].0) by {
                    if b < p {
                    } else if b == p {
                    } else if a < p {
                        assert(text_less(after[a].0, x@));
                        if b == p + 1 {
                            assert(text_less(x@, after[b].0));
                        } else {
                            assert(text_less(before[p as int].0, before[b - 1].0));
                            lemma_text_less_transitive(x@, before[p as int].0, before[b - 1].0);
                        }
                        lemma_text_less_transitive(after[a].0, x@, after[b].0);
                    } else if a == p {
                        if b == p + 1 {
                        } else {
                            assert(text_less(before[p as int].0, before[b - 1].0));
                            lemma_text_less_transitive(x@, before[p as int].0, before[b - 1].0);
                        }
                    } else {
                        assert(text_less(before[a - 1].0, before[b - 1].0));
                    }
                }
                assert(!(exists|k: int| 0 <= k < before.len() && #[trigger] before[k].0 == x@)) by {
                    if exists|k: int| 0 <= k < before.len() && #[trigger] before[k].0 == x@ {
                        let k = choose|k: int| 0 <= k < before.len() && #[trigger] before[k].0 == x@;
                        if k < p {
                            assert(text_less(before[k].0, x@));
                            lemma_text_less_irreflexive(x@);
                        } else if k == p {
                        } else {
                            assert(text_less(before[p as int].0, before[k].0));
                            assert(text_less(x@, before[p as int].0));
                            lemma_text_less_transitive(x@, before[p as int].0, before[k].0);
                            lemma_text_less_irreflexive(x@);
                        }
                    }
                }
                assert forall|q: Seq<char>| (exists|k: int| 0 <= k < out@.len() && #[trigger] out@[k].path@ == q)
                    <==> last_kind(whole, q) is Some by {
                    if q != x@ {
                        if exists|k: int| 0 <= k < out@.len() && #[trigger] out@[k].path@ == q {
                            let k = choose|k: int| 0 <= k < out@.len() && #[trigger] out@[k].path@ == q;
                            let kk = if k < p { k } else { k - 1 };
                            assert(before[kk].0 == q);
                            assert(old_out[kk].path@ == q);
                            assert(exists|k2: int| 0 <= k2 < old_out.len() && #[trigger] old_out[k2].path@ == q);
                        }
                        if last_kind(whole, q) is Some {
                            assert(last_kind(prior, q) is Some);
                            assert(exists|k: int| 0 <= k < old_out.len() && #[trigger] old_out[k].path@ == q);
                            let k = choose|k: int| 0 <= k < old_out.len() && #[trigger] old_out[k].path@ == q;
                            assert(before[k].0 == q);
                            let kk = if k < p { k } else { k + 1 };
                            assert(out@[kk].path@ == q);
                        }
                    } else {
                        assert(out@[p as int].path@ == q);
                    }
                }
                assert forall|k: int| 0 <= k < out@.len() implies last_kind(whole, #[trigger] out@[k].path@)
                    == Some(out@[k].kind) by {
                    if k < p {
                        assert(after[k] == before[k]);
                        assert(before[k].0 != x@);
                    } else if k > p {
                        assert(after[k] == before[k - 1]);
                        assert(before[k - 1].0 != x@);
                    }
                }
            }
        }
        i = i + 1;
    }
    assert(input.take(n as int) =~= input);
    out
}

} // verus!
