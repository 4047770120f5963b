//! Shell completion: shell names, shell detection, candidate filtering and the
//! managed block that completion keeps in a PowerShell profile.

use vstd::prelude::*;
use crate::text;
use crate::paths;
use crate::glob;
use crate::messages::{CliMessage, cli_error, is_plain_error};

verus! {

/// A shell for which completion can be generated.
#[derive(Clone, Copy, Debug, PartialEq, Eq, Structural)]
pub enum CompletionShell {
    Bash,
    Zsh,
    Fish,
    PowerShell,
    Elvish,
}

/// The shell that a lower-cased name selects.
pub open spec fn shell_of_name(l: Seq<char>) -> Option<CompletionShell> {
    if l == "bash"@ {
        Some(CompletionShell::Bash)
    } else if l == "zsh"@ {
        Some(CompletionShell::Zsh)
    } else if l == "fish"@ {
        Some(CompletionShell::Fish)
    } else if l == "powershell"@ || l == "pwsh"@ {
        Some(CompletionShell::PowerShell)
    } else if l == "elvish"@ {
        Some(CompletionShell::Elvish)
    } else {
        None
    }
}

/// The canonical name of a shell.
pub open spec fn shell_name(s: CompletionShell) -> Seq<char> {
    match s {
        CompletionShell::Bash => "bash"@,
        CompletionShell::Zsh => "zsh"@,
        CompletionShell::Fish => "fish"@,
        CompletionShell::PowerShell => "powershell"@,
        CompletionShell::Elvish => "elvish"@,
    }
}

impl CompletionShell {
    /// Parses a shell name, ignoring ASCII case; `pwsh` is an alias of PowerShell.
    pub fn parse(value: &str) -> (r: Option<CompletionShell>)
        ensures r == shell_of_name(text::lower(value@)),
    {
        let l = text::to_lower(value);
        let l = l.as_str();
        if text::str_eq(l, "bash") {
            Some(CompletionShell::Bash)
        } else if text::str_eq(l, "zsh") {
            Some(CompletionShell::Zsh)
        } else if text::str_eq(l, "fish") {
            Some(CompletionShell::Fish)
        } else if text::str_eq(l, "powershell") || text::str_eq(l, "pwsh") {
            Some(CompletionShell::PowerShell)
        } else if text::str_eq(l, "elvish") {
            Some(CompletionShell::Elvish)
        } else {
            None
        }
    }

    /// The canonical name of the shell.
    pub fn name(self) -> (r: &'static str)
        ensures r@ == shell_name(self),
    {
        match self {
            CompletionShell::Bash => "bash",
            CompletionShell::Zsh => "zsh",
            CompletionShell::Fish => "fish",
            CompletionShell::PowerShell => "powershell",
            CompletionShell::Elvish => "elvish",
        }
    }
}


/// ASCII upper-casing of a character (`char::to_ascii_uppercase`).
pub open spec fn upper_char(c: char) -> char {
    if 'a' <= c && c <= 'z' { ((c as u32) - 32) as char } else { c }
}

/// ASCII upper-casing of a string (`str::to_ascii_uppercase`).
pub open spec fn upper(s: Seq<char>) -> Seq<char> {
    s.map_values(|c: char| upper_char(c))
}

/// Only lower-case ASCII letters.
pub open spec fn all_lower_letters(s: Seq<char>) -> bool {
    forall|i: int| 0 <= i < s.len() ==> 'a' <= #[trigger] s[i] && s[i] <= 'z'
}

proof fn lemma_lower_letters_fixed(x: Seq<char>)
    requires all_lower_letters(x),
    ensures
        text::lower(x) == x,
        text::lower(upper(x)) == x,
{
    assert forall|i: int| 0 <= i < x.len() implies #[trigger] text::lower(x)[i] == x[i] by {
        assert('a' <= x[i] && x[i] <= 'z');
    }
    assert(text::lower(x) =~= x);
    assert forall|i: int| 0 <= i < x.len() implies #[trigger] text::lower(upper(x))[i] == x[i] by {
        let c = x[i];
        assert('a' <= c && c <= 'z');
        let u = upper_char(c);
        assert('A' <= u && u <= 'Z');
        assert(text::lower_char(u) == c);
    }
    assert(text::lower(upper(x)) =~= x);
}

/// A shell's canonical name is lower-case ASCII letters, and parsing it, or
/// its upper-case form, gives the shell back.
pub proof fn lemma_shell_name_parses_back(s: CompletionShell)
    ensures
        all_lower_letters(shell_name(s)),
        shell_of_name(text::lower(shell_name(s))) == Some(s),
        shell_of_name(text::lower(upper(shell_name(s)))) == Some(s),
{
    reveal_strlit("bash");
    reveal_strlit("zsh");
    reveal_strlit("fish");
    reveal_strlit("powershell");
    reveal_strlit("pwsh");
    reveal_strlit("elvish");
    let n = shell_name(s);
    assert(all_lower_letters(n)) by {
        assert forall|i: int| 0 <= i < n.len() implies 'a' <= #[trigger] n[i] && n[i] <= 'z' by {
            match s {
                CompletionShell::Bash => assert(n =~= seq!['b', 'a', 's', 'h']),
                CompletionShell::Zsh => assert(n =~= seq!['z', 's', 'h']),
                CompletionShell::Fish => assert(n =~= seq!['f', 'i', 's', 'h']),
                CompletionShell::PowerShell => assert(n =~= seq!['p', 'o', 'w', 'e', 'r', 's', 'h', 'e', 'l', 'l']),
                CompletionShell::Elvish => assert(n =~= seq!['e', 'l', 'v', 'i', 's', 'h']),
            }
        }
    }
    lemma_lower_letters_fixed(n);
    assert("bash"@ =~= seq!['b', 'a', 's', 'h']);
    assert("zsh"@ =~= seq!['z', 's', 'h']);
    assert("fish"@ =~= seq!['f', 'i', 's', 'h']);
    assert("powershell"@ =~= seq!['p', 'o', 'w', 'e', 'r', 's', 'h', 'e', 'l', 'l']);
    assert("pwsh"@ =~= seq!['p', 'w', 's', 'h']);
    assert("elvish"@ =~= seq!['e', 'l', 'v', 'i', 's', 'h']);
}

/// First line of the block that completion manages in a PowerShell profile.
pub const POWERSHELL_BLOCK_START: &'static str = "# BEGIN revault dynamic completion";
/// Last line of the block that completion manages in a PowerShell profile.
pub const POWERSHELL_BLOCK_END: &'static str = "# END revault dynamic completion";

/// A profile with the managed completion block removed: the text from the
/// first start marker through the first end marker after it, and the newline
/// that follows that end marker, is cut out. Without both markers the profile
/// is unchanged.
pub open spec fn without_block(p: Seq<char>) -> Seq<char> {
    match text::find(p, POWERSHELL_BLOCK_START@) {
        None => p,
        Some(start) => match text::find(p.subrange(start, p.len() as int), POWERSHELL_BLOCK_END@) {
            None => p,
            Some(rel) => {
                let end0 = start + rel + POWERSHELL_BLOCK_END@.len();
                let end = if end0 < p.len() && p[end0] == '\n' { end0 + 1 } else { end0 };
                p.subrange(0, start) + p.subrange(end, p.len() as int)
            },
        },
    }
}

/// Removes the managed completion block from a PowerShell profile.
pub fn remove_managed_block(profile: &str) -> (r: String)
    ensures r@ == without_block(profile@),
{
    let n = profile.unicode_len();
    let start = match text::find_str(profile, POWERSHELL_BLOCK_START) {
        None => return text::owned(profile),
        Some(start) => start,
    };
    proof { text::lemma_find_from_props(profile@, POWERSHELL_BLOCK_START@, 0); }
    let rest = profile.substring_char(start, n);
    let rel = match text::find_str(rest, POWERSHELL_BLOCK_END) {
        None => return text::owned(profile),
        Some(rel) => rel,
    };
    proof { text::lemma_find_from_props(rest@, POWERSHELL_BLOCK_END@, 0); }
    let mut end = start + rel + POWERSHELL_BLOCK_END.unicode_len();
    if end < n && profile.get_char(end) == '\n' {
        end = end + 1;
    }
    let mut output = text::owned(profile.substring_char(0, start));
    text::push_str(&mut output, profile.substring_char(end, n));
    output
}

/// The profile text that installing `script` as the managed block produces
/// from `existing`: any earlier block is removed, the remaining text ends with
/// a newline unless it is empty, and the script follows between the markers.
pub open spec fn with_block(existing: Seq<char>, script: Seq<char>) -> Seq<char> {
    let kept = without_block(existing);
    let kept = if kept.len() > 0 && kept.last() != '\n' { kept.push('\n') } else { kept };
    let body = if script.len() > 0 && script.last() == '\n' { script } else { script.push('\n') };
    kept + POWERSHELL_BLOCK_START@ + seq!['\n'] + body + POWERSHELL_BLOCK_END@ + seq!['\n']
}

/// Builds the profile text that holds `script` as the managed completion block.
pub fn install_managed_block(existing: &str, script: &str) -> (r: String)
    ensures r@ == with_block(existing@, script@),
{
    let mut profile = remove_managed_block(existing);
    let kept = profile.as_str();
    let k = kept.unicode_len();
    if k > 0 && kept.get_char(k - 1) != '\n' {
        text::push_char(&mut profile, '\n');
    }
    text::push_str(&mut profile, POWERSHELL_BLOCK_START);
    text::push_char(&mut profile, '\n');
    text::push_str(&mut profile, script);
    let m = script.unicode_len();
    if !(m > 0 && script.get_char(m - 1) == '\n') {
        text::push_char(&mut profile, '\n');
    }
    text::push_str(&mut profile, POWERSHELL_BLOCK_END);
    text::push_char(&mut profile, '\n');
    proof {
        let kept_s = without_block(existing@);
        let kept2 = if kept_s.len() > 0 && kept_s.last() != '\n' { kept_s.push('\n') } else { kept_s };
        let body = if script@.len() > 0 && script@.last() == '\n' { script@ } else { script@.push('\n') };
        assert(profile@ =~= kept2 + POWERSHELL_BLOCK_START@ + seq!['\n'] + body + POWERSHELL_BLOCK_END@ + seq!['\n']);
    }
    profile
}

/// The values that start with `prefix`, in their order.
pub open spec fn prefixed(values: Seq<Seq<char>>, prefix: Seq<char>) -> Seq<Seq<char>>
    decreases values.len(),
{
    if values.len() == 0 {
        Seq::empty()
    } else {
        let init = prefixed(values.drop_last(), prefix);
        if text::has_prefix(values.last(), prefix) { init.push(values.last()) } else { init }
    }
}

/// The views of a vector of strings.
pub open spec fn views(v: Seq<String>) -> Seq<Seq<char>> {
    v.map_values(|s: String| s@)
}

/// Completion candidates: the values that start with the word being completed.
/// A word that is not valid UTF-8 (`None`) gets no candidates.
pub fn candidates(current: Option<&str>, values: Vec<String>) -> (r: Vec<String>)
    ensures
        current is None ==> r@.len() == 0,
        current matches Some(c) ==> views(r@) == prefixed(views(values@), c@),
{
    let mut out: Vec<String> = Vec::new();
    let current = match current {
        None => return out,
        Some(c) => c,
    };
    let n = values.len();
    let mut i: usize = 0;
    while i < n
        invariant
            i <= n,
            n == values@.len(),
            views(out@) == prefixed(views(values@.subrange(0, i as int)), current@),
        decreases n - i,
    {
        proof {
            assert(views(values@.subrange(0, i + 1)).drop_last() =~= views(values@.subrange(0, i as int)));
            assert(views(values@.subrange(0, i + 1)).last() == values@[i as int]@);
        }
        if text::starts_with(values[i].as_str(), current) {
            let v = text::owned(values[i].as_str());
            let ghost prev = out@;
            out.push(v);
            proof { assert(views(out@) =~= views(prev).push(values@[i as int]@)); }
        }
        i = i + 1;
    }
    assert(values@.subrange(0, n as int) =~= values@);
    out
}


proof fn lemma_prefixed_contains(values: Seq<Seq<char>>, prefix: Seq<char>, s: Seq<char>)
    ensures prefixed(values, prefix).contains(s) <==> (values.contains(s) && text::has_prefix(s, prefix)),
    decreases values.len(),
{
    if values.len() > 0 {
        let pre = values.drop_last();
        lemma_prefixed_contains(pre, prefix, s);
        let init = prefixed(pre, prefix);
        let all = prefixed(values, prefix);
        if values.contains(s) && text::has_prefix(s, prefix) {
            let k = choose|k: int| 0 <= k < values.len() && values[k] == s;
            if k < pre.len() {
                assert(pre[k] == s);
                assert(init.contains(s));
                let j = choose|j: int| 0 <= j < init.len() && init[j] == s;
                assert(all[j] == s);
            } else {
                assert(all[all.len() - 1] == s);
            }
        }
        if all.contains(s) {
            let j = choose|j: int| 0 <= j < all.len() && all[j] == s;
            if j < init.len() {
                assert(init[j] == s);
                assert(init.contains(s));
                let k = choose|k: int| 0 <= k < pre.len() && pre[k] == s;
                assert(values[k] == s);
            } else {
                assert(values[values.len() - 1] == s);
            }
        }
    }
}

/// Completion candidates from values gathered from several places: the values
/// that start with the word being completed, sorted, each once.
pub fn sorted_candidates(current: Option<&str>, values: Vec<String>) -> (r: Vec<String>)
    ensures
        current is None ==> r@.len() == 0,
        glob::strictly_sorted(views(r@)),
        current matches Some(c) ==> forall|s: Seq<char>| #[trigger] views(r@).contains(s)
            <==> (views(values@).contains(s) && text::has_prefix(s, c@)),
{
    let ghost input = views(values@);
    let mut out = candidates(current, values);
    let ghost filtered = views(out@);
    assert(glob::string_views(out@) =~= filtered);
    glob::normalize(&mut out);
    assert(views(out@) =~= glob::string_views(out@));
    proof {
        match current {
            Some(c) => {
                assert forall|s: Seq<char>| #[trigger] views(out@).contains(s)
                    <==> (input.contains(s) && text::has_prefix(s, c@)) by {
                    lemma_prefixed_contains(input, c@, s);
                }
            },
            None => {
                if out@.len() > 0 {
                    assert(views(out@).contains(views(out@)[0]));
                }
            },
        }
    }
    out
}

/// Completion values for a vault name: the profile and contact names that
/// start with the word being completed, sorted, each once.
pub fn named_candidates(current: Option<&str>, profiles: Vec<String>, contacts: Vec<String>) -> (r: Vec<String>)
    ensures
        current is None ==> r@.len() == 0,
        glob::strictly_sorted(views(r@)),
        current matches Some(c) ==> forall|s: Seq<char>| #[trigger] views(r@).contains(s)
            <==> ((views(profiles@).contains(s) || views(contacts@).contains(s)) && text::has_prefix(s, c@)),
{
    let ghost p = views(profiles@);
    let ghost q = views(contacts@);
    let mut all = profiles;
    let n = contacts.len();
    let mut i: usize = 0;
    while i < n
        invariant
            i <= n,
            n == contacts@.len(),
            q == views(contacts@),
            views(all@) == p + q.take(i as int),
        decreases n - i,
    {
        all.push(contacts[i].clone());
        assert(q.take(i + 1) =~= q.take(i as int).push(q[i as int]));
        assert(p + q.take(i + 1) =~= (p + q.take(i as int)).push(q[i as int]));
        i = i + 1;
    }
    assert(q.take(n as int) =~= q);
    let ghost joined = views(all@);
    let r = sorted_candidates(current, all);
    proof {
        assert forall|s: Seq<char>| joined.contains(s) <==> (p.contains(s) || q.contains(s)) by {
            if joined.contains(s) {
                let k = choose|k: int| 0 <= k < joined.len() && joined[k] == s;
                if k < p.len() {
                    assert(p[k] == s);
                } else {
                    assert(q[k - p.len()] == s);
                }
            }
            if p.contains(s) {
                let k = choose|k: int| 0 <= k < p.len() && p[k] == s;
                assert(joined[k] == s);
            }
            if q.contains(s) {
                let k = choose|k: int| 0 <= k < q.len() && q[k] == s;
                assert(joined[p.len() + k] == s);
            }
        }
    }
    r
}

/// The shell named by the file stem of a path.
pub open spec fn shell_of_path(p: Seq<char>) -> Option<CompletionShell> {
    match paths::file_stem_of(p) {
        None => None,
        Some(stem) => shell_of_name(text::lower(stem)),
    }
}

/// The shell selected by the environment. On Windows a `PSModulePath`
/// selects PowerShell, otherwise the file stem of `ComSpec` is used; on other
/// platforms the file stem of `SHELL` is used.
pub open spec fn detected_shell(
    windows: bool,
    shell: Option<Seq<char>>,
    ps_module_path: bool,
    comspec: Option<Seq<char>>,
) -> Option<CompletionShell> {
    if windows {
        if ps_module_path {
            Some(CompletionShell::PowerShell)
        } else {
            match comspec {
                None => None,
                Some(c) => shell_of_path(c),
            }
        }
    } else {
        match shell {
            None => None,
            Some(s) => shell_of_path(s),
        }
    }
}

fn shell_from_path(p: &str) -> (r: Option<CompletionShell>)
    ensures r == shell_of_path(p@),
{
    match paths::file_stem(p) {
        None => None,
        Some(stem) => CompletionShell::parse(stem.as_str()),
    }
}

/// Detects the current shell from `SHELL`, `PSModulePath` and `ComSpec`.
pub fn detect_shell_from(
    windows: bool,
    shell: Option<&str>,
    ps_module_path: Option<&str>,
    comspec: Option<&str>,
) -> (r: Option<CompletionShell>)
    ensures
        r == detected_shell(
            windows,
            match shell { Some(s) => Some(s@), None => None },
            ps_module_path is Some,
            match comspec { Some(c) => Some(c@), None => None },
        ),
{
    if windows {
        if ps_module_path.is_some() {
            return Some(CompletionShell::PowerShell);
        }
        return match comspec {
            None => None,
            Some(c) => shell_from_path(c),
        };
    }
    match shell {
        None => None,
        Some(s) => shell_from_path(s),
    }
}

/// The command name that completion registers: `lbx` when the program was
/// started under that name, `lockbox` otherwise.
pub fn binary_name(program_stem: Option<&str>) -> (r: String)
    ensures
        r@ == (if program_stem matches Some(s) && s@ == "lbx"@ { "lbx"@ } else { "lockbox"@ }),
{
    match program_stem {
        Some(s) if text::str_eq(s, "lbx") => text::owned("lbx"),
        _ => text::owned("lockbox"),
    }
}

/// The shell to complete for: the one named with `--shell`, else the one
/// detected from the environment.
pub fn shell_from(explicit: Option<&str>, detected: Option<CompletionShell>) -> (r: Result<CompletionShell, CliMessage>)
    ensures
        match explicit {
            Some(v) => match shell_of_name(text::lower(v@)) {
                Some(s) => r matches Ok(x) && x == s,
                None => r matches Err(m) && is_plain_error(m, "shell must be bash, zsh, fish, powershell, or elvish"@),
            },
            None => match detected {
                Some(s) => r matches Ok(x) && x == s,
                None => r matches Err(m) && is_plain_error(m,
                    "cannot detect the current shell; pass --shell bash|zsh|fish|powershell|elvish"@),
            },
        },
{
    match explicit {
        Some(v) => match CompletionShell::parse(v) {
            Some(s) => Ok(s),
            None => Err(cli_error("shell must be bash, zsh, fish, powershell, or elvish")),
        },
        None => match detected {
            Some(s) => Ok(s),
            None => Err(cli_error("cannot detect the current shell; pass --shell bash|zsh|fish|powershell|elvish")),
        },
    }
}

/// Where completion is installed for a shell below the home directory: the
/// shell's completion directory and a file named after the command, or the
/// PowerShell profile.
pub open spec fn install_location(shell: CompletionShell, windows: bool, binary: Seq<char>) -> (Seq<char>, Seq<char>) {
    match shell {
        CompletionShell::Bash => (".local/share/bash-completion/completions"@, binary),
        CompletionShell::Zsh => (".local/share/zsh/site-functions"@, "_"@ + binary),
        CompletionShell::Fish => (".config/fish/completions"@, binary + ".fish"@),
        CompletionShell::Elvish => (".config/elvish/lib"@, binary + ".elv"@),
        CompletionShell::PowerShell => (if windows { "Documents/PowerShell"@ } else { ".config/powershell"@ },
            "Microsoft.PowerShell_profile.ps1"@),
    }
}

/// The standard completion file of a shell, below the home directory (none
/// when there is no home directory).
pub fn standard_install_path(shell: CompletionShell, home: Option<&str>, binary: &str, windows: bool) -> (r: Result<String, CliMessage>)
    ensures
        match home {
            Some(h) => r matches Ok(p) && ({
                let (dir, file) = install_location(shell, windows, binary@);
                p@ == paths::joined(paths::joined(h@, dir), file)
            }),
            None => r matches Err(m) && is_plain_error(m, "home directory is unavailable"@),
        },
{
    let h = match home {
        Some(h) => h,
        None => return Err(cli_error("home directory is unavailable")),
    };
    let (dir, file): (&str, String) = match shell {
        CompletionShell::Bash => (".local/share/bash-completion/completions", text::owned(binary)),
        CompletionShell::Zsh => (".local/share/zsh/site-functions", text::concat2("_", binary)),
        CompletionShell::Fish => (".config/fish/completions", text::concat2(binary, ".fish")),
        CompletionShell::Elvish => (".config/elvish/lib", text::concat2(binary, ".elv")),
        CompletionShell::PowerShell => (if windows { "Documents/PowerShell" } else { ".config/powershell" },
            text::owned("Microsoft.PowerShell_profile.ps1")),
    };
    let base = paths::join(h, dir);
    Ok(paths::join(base.as_str(), file.as_str()))
}

proof fn lemma_marker_facts()
    ensures
        POWERSHELL_BLOCK_START@.len() == 34,
        POWERSHELL_BLOCK_END@.len() == 32,
        forall|i: int| 0 <= i < 34 ==> POWERSHELL_BLOCK_START@[i] != '\n',
        forall|i: int| 0 <= i < 32 ==> POWERSHELL_BLOCK_END@[i] != '\n',
        forall|j: int| 0 <= j < 3 ==> !text::occurs_at(POWERSHELL_BLOCK_START@, POWERSHELL_BLOCK_END@, j),
{
    reveal_strlit("# BEGIN revault dynamic completion");
    reveal_strlit("# END revault dynamic completion");
    let s = POWERSHELL_BLOCK_START@;
    let e = POWERSHELL_BLOCK_END@;
    assert forall|j: int| 0 <= j < 3 implies !text::occurs_at(s, e, j) by {
        if text::occurs_at(s, e, j) {
            assert(s.subrange(j, j + 32)[2 - j] == e[2 - j]);
        }
    }
}

/// No occurrence of `p` in `s` at all.
proof fn lemma_absent(s: Seq<char>, p: Seq<char>)
    requires !text::contains(s, p),
    ensures forall|j: int| !text::occurs_at(s, p, j),
{
    text::lemma_find_from_props(s, p, 0);
    assert forall|j: int| !text::occurs_at(s, p, j) by {
        if j < 0 {
        }
    }
}

/// An occurrence inside a part of a text is an occurrence in that part.
proof fn lemma_occurs_in_part(s: Seq<char>, a: int, b: int, p: Seq<char>, j: int)
    requires
        0 <= a <= j,
        j + p.len() <= b <= s.len(),
        text::occurs_at(s, p, j),
    ensures text::occurs_at(s.subrange(a, b), p, j - a),
{
    assert(s.subrange(a, b).subrange(j - a, j - a + p.len()) =~= s.subrange(j, j + p.len()));
}

/// Removing the completion block from a profile that it was just installed in
/// gives back the user's own content, ended by a newline, when that content
/// holds no start marker of its own and the script no end marker.
pub proof fn lemma_installed_block_is_removed(existing: Seq<char>, script: Seq<char>)
    requires
        !text::contains(without_block(existing), POWERSHELL_BLOCK_START@),
        !text::contains(script, POWERSHELL_BLOCK_END@),
    ensures
        ({
            let kept = without_block(existing);
            without_block(with_block(existing, script))
                == if kept.len() > 0 && kept.last() != '\n' { kept.push('\n') } else { kept }
        }),
{
    lemma_marker_facts();
    let s = POWERSHELL_BLOCK_START@;
    let e = POWERSHELL_BLOCK_END@;
    let kept0 = without_block(existing);
    let k = if kept0.len() > 0 && kept0.last() != '\n' { kept0.push('\n') } else { kept0 };
    let b = if script.len() > 0 && script.last() == '\n' { script } else { script.push('\n') };
    let p = with_block(existing, script);
    assert(p == k + s + seq!['\n'] + b + e + seq!['\n']);
    assert(k.len() > 0 ==> k.last() == '\n');
    assert(b.len() > 0 && b.last() == '\n');
    lemma_absent(kept0, s);
    lemma_absent(script, e);
    // The start marker is first found where it was put.
    assert forall|j: int| 0 <= j < k.len() implies !text::occurs_at(p, s, j) by {
        if text::occurs_at(p, s, j) {
            if j + 34 <= kept0.len() {
                assert(text::occurs_at(kept0, s, j)) by {
                    assert(p.subrange(j, j + 34) =~= kept0.subrange(j, j + 34));
                }
            } else {
                let i: int = k.len() - 1;
                assert(p[i] == '\n');
                assert(p.subrange(j, j + 34)[i - j] == s[i - j]);
            }
        }
    }
    assert(text::occurs_at(p, s, k.len() as int)) by {
        assert(p.subrange(k.len() as int, k.len() as int + 34) =~= s);
    }
    text::lemma_find_from_found(p, s, 0, k.len() as int);
    let start = k.len() as int;
    let rest = p.subrange(start, p.len() as int);
    assert(rest =~= s + seq!['\n'] + b + e + seq!['\n']);
    let at: int = 35 + b.len() as int;
    assert forall|j: int| 0 <= j < at implies !text::occurs_at(rest, e, j) by {
        if text::occurs_at(rest, e, j) {
            if j < 3 {
                assert(rest.subrange(j, j + 32) =~= s.subrange(j, j + 32));
                assert(text::occurs_at(s, e, j));
            } else if j <= 34 {
                assert(rest[34] == '\n');
                assert(rest.subrange(j, j + 32)[34 - j] == e[34 - j]);
            } else if j + 32 <= at - 1 {
                lemma_occurs_in_part(rest, 35, at, e, j);
                assert(rest.subrange(35, at) =~= b);
                if b == script {
                } else {
                    assert(text::occurs_at(script, e, j - 35)) by {
                        assert(b.subrange(j - 35, j - 35 + 32) =~= script.subrange(j - 35, j - 35 + 32));
                    }
                }
            } else {
                let i: int = at - 1;
                assert(rest[i] == '\n');
                assert(rest.subrange(j, j + 32)[i - j] == e[i - j]);
            }
        }
    }
    assert(text::occurs_at(rest, e, at)) by {
        assert(rest.subrange(at, at + 32) =~= e);
    }
    text::lemma_find_from_found(rest, e, 0, at);
    let end0 = start + at + 32;
    assert(end0 == p.len() - 1);
    assert(p[end0] == '\n');
    assert(p.subrange(0, start) + p.subrange(end0 + 1, p.len() as int) =~= k);
}

/// Installing the completion block again with the same script leaves the
/// profile as the first installation made it, under the same conditions.
pub proof fn lemma_install_is_idempotent(existing: Seq<char>, script: Seq<char>)
    requires
        !text::contains(without_block(existing), POWERSHELL_BLOCK_START@),
        !text::contains(script, POWERSHELL_BLOCK_END@),
    ensures with_block(with_block(existing, script), script) == with_block(existing, script),
{
    lemma_installed_block_is_removed(existing, script);
}

} // verus!
