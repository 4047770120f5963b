//! Variables: moving by pattern, export names, shell assignment syntax, and
//! the rules for setting a value (its source and its sensitivity).

use vstd::prelude::*;
use crate::text;
use crate::glob;
use crate::output;
use crate::messages::ApiError;

verus! {

/// Components joined with `/`.
pub open spec fn join_slash(parts: Seq<Seq<char>>) -> Seq<char> {
    output::joined(parts, seq!['/'])
}

/// The first component that holds `*` or `?`.
pub open spec fn first_wildcard(parts: Seq<Seq<char>>, i: int) -> Option<int>
    decreases parts.len() - i,
{
    if i < 0 || i >= parts.len() {
        None
    } else if text::has_char(parts[i], '*') || text::has_char(parts[i], '?') {
        Some(i)
    } else {
        first_wildcard(parts, i + 1)
    }
}

/// The fixed directory of a variable pattern: the components before the
/// first wildcard (or all but the last component when there is none).
pub open spec fn pattern_anchor(pattern: Seq<char>) -> Seq<char> {
    let parts = glob::split_slash(text::trim_start_char(pattern, '/'));
    let k = match first_wildcard(parts, 0) {
        Some(i) => i,
        None => if parts.len() > 0 { parts.len() - 1 } else { 0 },
    };
    if k == 0 { seq!['/'] } else { seq!['/'] + join_slash(parts.subrange(0, k)) }
}

/// Where a variable moves: its path below the pattern's anchor is placed
/// below the destination.
pub open spec fn moved_to(pattern: Seq<char>, source: Seq<char>, destination: Seq<char>) -> Seq<char> {
    let anchor = pattern_anchor(pattern);
    let rest = if text::has_prefix(source, anchor) { source.subrange(anchor.len() as int, source.len() as int) } else { source };
    text::trim_end_char(destination, '/') + seq!['/'] + text::trim_start_char(rest, '/')
}

fn join_slash_prefix(parts: &Vec<&str>, k: usize) -> (r: String)
    requires k <= parts@.len(),
    ensures r@ == join_slash(glob::str_views(parts@).subrange(0, k as int)),
{
    let mut out = String::new();
    let mut i: usize = 0;
    while i < k
        invariant
            i <= k,
            k <= parts@.len(),
            out@ == join_slash(glob::str_views(parts@).subrange(0, i as int)),
        decreases k - i,
    {
        assert(glob::str_views(parts@).subrange(0, i + 1).drop_last() =~= glob::str_views(parts@).subrange(0, i as int));
        if i > 0 {
            text::push_char(&mut out, '/');
        }
        text::push_str(&mut out, parts[i]);
        i = i + 1;
        assert(out@ =~= join_slash(glob::str_views(parts@).subrange(0, i as int)));
    }
    out
}

/// The new path of a variable moved by `pattern` to `destination`.
pub fn moved_path(pattern: &str, source: &str, destination: &str) -> (r: Result<String, ApiError>)
    ensures r matches Ok(p) && p@ == moved_to(pattern@, source@, destination@),
{
    let canonical = text::trim_start_matches_char(pattern, '/');
    let parts = glob::split_slash_exec(canonical);
    let ghost pv = glob::str_views(parts@);
    let n = parts.len();
    let mut i: usize = 0;
    let mut wildcard: Option<usize> = None;
    while i < n && wildcard.is_none()
        invariant
            i <= n,
            n == parts@.len(),
            pv == glob::str_views(parts@),
            wildcard is None ==> first_wildcard(pv, 0) == first_wildcard(pv, i as int),
            wildcard matches Some(w) ==> first_wildcard(pv, 0) == Some(w as int) && w < n,
        decreases (n - i) + (if wildcard is None { 1int } else { 0int }),
    {
        assert(pv[i as int] == parts@[i as int]@);
        if glob::contains_glob(parts[i]) {
            wildcard = Some(i);
        } else {
            i = i + 1;
        }
    }
    let k = match wildcard {
        Some(w) => w,
        None => if n > 0 { n - 1 } else { 0 },
    };
    assert(k as int == match first_wildcard(pv, 0) { Some(w) => w, None => if pv.len() > 0 { pv.len() - 1 } else { 0 } });
    proof { reveal_strlit("/"); }
    assert("/"@ =~= seq!['/']);
    let anchor = if k == 0 {
        text::owned("/")
    } else {
        let j = join_slash_prefix(&parts, k);
        text::concat2("/", j.as_str())
    };
    let rest = match text::strip_prefix(source, anchor.as_str()) {
        Some(t) => t,
        None => source,
    };
    let relative = text::trim_start_matches_char(rest, '/');
    Ok(text::concat3(text::trim_end_matches_char(destination, '/'), "/", relative))
}

/// The environment name of a variable: its path without the leading `/`,
/// with `/` replaced by `_`; the root has none.
pub open spec fn export_name_of(name: Seq<char>) -> Option<Seq<char>> {
    let n = if name.len() > 0 && name[0] == '/' { name.subrange(1, name.len() as int) } else { name };
    if n.len() == 0 { None } else { Some(text::replace_char(n, '/', seq!['_'])) }
}

/// The environment name under which a variable is exported.
pub fn export_all_name(name: &str) -> (r: Option<String>)
    ensures
        r is Some <==> export_name_of(name@) is Some,
        r matches Some(e) ==> export_name_of(name@) == Some(e@),
{
    let len = name.unicode_len();
    let n = if len > 0 && name.get_char(0) == '/' { name.substring_char(1, len) } else { name };
    if n.unicode_len() == 0 {
        return None;
    }
    proof { reveal_strlit("_"); }
    assert("_"@ =~= seq!['_']);
    Some(text::replace_char_with(n, '/', "_"))
}

/// A value in POSIX shell single quotes.
pub open spec fn posix_quoted(v: Seq<char>) -> Seq<char> {
    seq!['\''] + text::replace_char(v, '\'', "'\\''"@) + seq!['\'']
}

/// Quotes a value for a POSIX shell.
pub fn posix_quote(value: &str) -> (r: String)
    ensures r@ == posix_quoted(value@),
{
    let inner = text::replace_char_with(value, '\'', "'\\''");
    let r = text::concat3("'", inner.as_str(), "'");
    proof { reveal_strlit("'"); }
    assert(r@ =~= posix_quoted(value@));
    r
}

/// A value in PowerShell single quotes.
pub open spec fn powershell_quoted(v: Seq<char>) -> Seq<char> {
    seq!['\''] + text::replace_char(v, '\'', "''"@) + seq!['\'']
}

/// Quotes a value for PowerShell.
pub fn powershell_quote(value: &str) -> (r: String)
    ensures r@ == powershell_quoted(value@),
{
    let inner = text::replace_char_with(value, '\'', "''");
    let r = text::concat3("'", inner.as_str(), "'");
    proof { reveal_strlit("'"); }
    assert(r@ =~= powershell_quoted(value@));
    r
}

/// Escapes a value for a `cmd` `set` command.
pub fn cmd_quote_value(value: &str) -> (r: String)
    ensures r@ == text::replace_char(value@, '"', "\"\""@),
{
    text::replace_char_with(value, '"', "\"\"")
}

/// The syntax of exported assignments.
#[derive(Clone, Copy, Debug, PartialEq, Eq, Structural)]
pub enum VariableExportFormat {
    Posix,
    PowerShell,
    Cmd,
    Json,
}

/// One exported assignment in each syntax.
pub open spec fn assignment_text(f: VariableExportFormat, name: Seq<char>, value: Seq<char>) -> Seq<char> {
    match f {
        VariableExportFormat::Posix => name + "="@ + posix_quoted(value),
        VariableExportFormat::PowerShell => "$env:"@ + name + " = "@ + powershell_quoted(value),
        VariableExportFormat::Cmd => "set \""@ + name + "="@ + text::replace_char(value, '"', "\"\""@) + "\""@,
        VariableExportFormat::Json => "{\"name\":"@ + output::json_quoted(name) + ",\"value\":"@
            + output::json_quoted(value) + "}"@,
    }
}

impl VariableExportFormat {
    /// Parses `--format` of `variable export`.
    pub fn parse_value(value: Option<&str>) -> (r: Result<VariableExportFormat, ApiError>)
        ensures
            match value {
                None => r matches Err(ApiError::InvalidInput(m)) && m@ == "missing --format argument"@,
                Some(v) => if v@ == "posix"@ {
                    r == Ok::<VariableExportFormat, ApiError>(VariableExportFormat::Posix)
                } else if v@ == "powershell"@ {
                    r == Ok::<VariableExportFormat, ApiError>(VariableExportFormat::PowerShell)
                } else if v@ == "cmd"@ {
                    r == Ok::<VariableExportFormat, ApiError>(VariableExportFormat::Cmd)
                } else if v@ == "json"@ {
                    r == Ok::<VariableExportFormat, ApiError>(VariableExportFormat::Json)
                } else {
                    r matches Err(ApiError::InvalidInput(m)) && m@ == "unsupported variable export format: "@ + v@
                },
            },
    {
        match value {
            None => Err(ApiError::InvalidInput(text::owned("missing --format argument"))),
            Some(v) => {
                if text::str_eq(v, "posix") {
                    Ok(VariableExportFormat::Posix)
                } else if text::str_eq(v, "powershell") {
                    Ok(VariableExportFormat::PowerShell)
                } else if text::str_eq(v, "cmd") {
                    Ok(VariableExportFormat::Cmd)
                } else if text::str_eq(v, "json") {
                    Ok(VariableExportFormat::Json)
                } else {
                    Err(ApiError::InvalidInput(text::concat2("unsupported variable export format: ", v)))
                }
            },
        }
    }

    /// One exported assignment of `name` to `value`.
    pub fn format_assignment(&self, name: &str, value: &str) -> (r: String)
        ensures r@ == assignment_text(*self, name@, value@),
    {
        match self {
            VariableExportFormat::Posix => {
                let q = posix_quote(value);
                text::concat3(name, "=", q.as_str())
            },
            VariableExportFormat::PowerShell => {
                let q = powershell_quote(value);
                let mut out = text::concat3("$env:", name, " = ");
                text::push_str(&mut out, q.as_str());
                out
            },
            VariableExportFormat::Cmd => {
                let q = cmd_quote_value(value);
                let mut out = text::concat3("set \"", name, "=");
                text::push_str(&mut out, q.as_str());
                text::push_str(&mut out, "\"");
                out
            },
            VariableExportFormat::Json => {
                let n = output::json_string(name);
                let v = output::json_string(value);
                let mut out = text::concat3("{\"name\":", n.as_str(), ",\"value\":");
                text::push_str(&mut out, v.as_str());
                text::push_str(&mut out, "}");
                out
            },
        }
    }
}

/// Each export line names the variable and carries its value where its
/// syntax puts them: JSON holds the name's JSON string under `"name"` and the
/// value's under `"value"`; POSIX starts with `NAME=`, PowerShell with
/// `$env:NAME = `, and `cmd` with `set "NAME=`.
pub proof fn lemma_export_lines_carry_name_and_value(name: Seq<char>, value: Seq<char>)
    ensures
        assignment_text(VariableExportFormat::Json, name, value)
            == seq!['{', '"', 'n', 'a', 'm', 'e', '"', ':'] + output::json_quoted(name)
            + seq![',', '"', 'v', 'a', 'l', 'u', 'e', '"', ':'] + output::json_quoted(value) + seq!['}'],
        text::has_prefix(assignment_text(VariableExportFormat::Posix, name, value), name + seq!['=']),
        text::has_prefix(assignment_text(VariableExportFormat::PowerShell, name, value),
            seq!['$', 'e', 'n', 'v', ':'] + name + seq![' ', '=', ' ']),
        text::has_prefix(assignment_text(VariableExportFormat::Cmd, name, value),
            seq!['s', 'e', 't', ' ', '"'] + name + seq!['=']),
{
    reveal_strlit("{\"name\":");
    reveal_strlit(",\"value\":");
    reveal_strlit("}");
    reveal_strlit("=");
    reveal_strlit("$env:");
    reveal_strlit(" = ");
    reveal_strlit("set \"");
    assert("{\"name\":"@ =~= seq!['{', '"', 'n', 'a', 'm', 'e', '"', ':']);
    assert(",\"value\":"@ =~= seq![',', '"', 'v', 'a', 'l', 'u', 'e', '"', ':']);
    assert("}"@ =~= seq!['}']);
    assert("="@ =~= seq!['=']);
    assert("$env:"@ =~= seq!['$', 'e', 'n', 'v', ':']);
    assert(" = "@ =~= seq![' ', '=', ' ']);
    assert("set \""@ =~= seq!['s', 'e', 't', ' ', '"']);
    let p = assignment_text(VariableExportFormat::Posix, name, value);
    assert(p.subrange(0, name.len() as int + 1) =~= name + seq!['=']);
    let w = assignment_text(VariableExportFormat::PowerShell, name, value);
    assert(w.subrange(0, name.len() as int + 8) =~= seq!['$', 'e', 'n', 'v', ':'] + name + seq![' ', '=', ' ']);
    let c = assignment_text(VariableExportFormat::Cmd, name, value);
    assert(c.subrange(0, name.len() as int + 6) =~= seq!['s', 'e', 't', ' ', '"'] + name + seq!['=']);
}

/// Whether a variable's value is secret.
#[derive(Clone, Copy, Debug, PartialEq, Eq, Structural)]
pub enum Sensitivity {
    Normal,
    Secret,
}

/// The sensitivity a value is stored with: that of the existing variable,
/// else secret when asked for. Refused: asking a normal variable to become
/// secret; a positional value for an existing secret variable when secret was
/// not asked for; and any positional value for a secret one.
pub fn effective_sensitivity(existing: Option<Sensitivity>, secret: bool, has_positional: bool) -> (r: Result<Sensitivity, ApiError>)
    ensures
        existing == Some(Sensitivity::Normal) && secret ==> (r matches Err(ApiError::InvalidOperation(m))
            && m@ == "variable is not secret; delete and recreate it"@),
        existing == Some(Sensitivity::Secret) && !secret && has_positional ==> (r matches Err(ApiError::InvalidInput(m))
            && m@ == "secret variables require an explicit value source"@),
        ({
            let effective = match existing {
                Some(s) => s,
                None => if secret { Sensitivity::Secret } else { Sensitivity::Normal },
            };
            let refused = (existing == Some(Sensitivity::Normal) && secret)
                || (existing == Some(Sensitivity::Secret) && !secret && has_positional);
            &&& !refused && effective == Sensitivity::Secret && has_positional ==> (r matches Err(ApiError::InvalidInput(m))
                && m@ == "secret variables cannot use positional values"@)
            &&& !refused && !(effective == Sensitivity::Secret && has_positional) ==> r == Ok::<Sensitivity, ApiError>(effective)
        }),
        r is Ok && existing is Some ==> r == Ok::<Sensitivity, ApiError>(existing->0),
{
    let effective = match existing {
        Some(s) => s,
        None => if secret { Sensitivity::Secret } else { Sensitivity::Normal },
    };
    match existing {
        Some(Sensitivity::Normal) => {
            if secret {
                return Err(ApiError::InvalidOperation(text::owned("variable is not secret; delete and recreate it")));
            }
        },
        Some(Sensitivity::Secret) => {
            if !secret && has_positional {
                return Err(ApiError::InvalidInput(text::owned("secret variables require an explicit value source")));
            }
        },
        None => {},
    }
    if effective == Sensitivity::Secret && has_positional {
        return Err(ApiError::InvalidInput(text::owned("secret variables cannot use positional values")));
    }
    Ok(effective)
}

/// The positional arguments of `variable set`: a name and a value, a
/// `NAME=VALUE` assignment, or a name alone (the value then comes from an
/// option).
pub open spec fn set_arguments(args: Seq<String>) -> Result<(Seq<char>, Option<Seq<char>>), Seq<char>> {
    if args.len() == 0 {
        Err("missing variable name"@)
    } else if args.len() == 1 {
        match text::split_once_char(args[0]@, '=') {
            Some((name, value)) => if name.len() == 0 {
                Err("missing variable name before '='"@)
            } else {
                Ok((name, Some(value)))
            },
            None => Ok((args[0]@, None)),
        }
    } else if args.len() == 2 {
        Ok((args[0]@, Some(args[1]@)))
    } else {
        Err("variable set accepts at most one positional value"@)
    }
}

/// Splits the positional arguments of `variable set` into the name and the
/// positional value, if any.
pub fn split_set_arguments(args: &[String]) -> (r: Result<(String, Option<String>), ApiError>)
    ensures
        match set_arguments(args@) {
            Ok((name, value)) => r matches Ok((n, v)) && n@ == name
                && match value { Some(x) => v matches Some(y) && y@ == x, None => v is None },
            Err(m) => r matches Err(ApiError::InvalidInput(e)) && e@ == m,
        },
{
    if args.len() == 0 {
        return Err(ApiError::InvalidInput(text::owned("missing variable name")));
    }
    if args.len() == 1 {
        let a = args[0].as_str();
        return match text::split_once_char_str(a, '=') {
            Some((name, value)) => {
                if name.unicode_len() == 0 {
                    Err(ApiError::InvalidInput(text::owned("missing variable name before '='")))
                } else {
                    Ok((text::owned(name), Some(text::owned(value))))
                }
            },
            None => Ok((text::owned(a), None)),
        };
    }
    if args.len() == 2 {
        return Ok((args[0].clone(), Some(args[1].clone())));
    }
    Err(ApiError::InvalidInput(text::owned("variable set accepts at most one positional value")))
}

/// Where a value is read from.
#[derive(Clone, Debug)]
pub enum ValueSource {
    Interactive,
    Value(String),
    File(String),
    Stdin,
    FromEnv(String),
}

/// The number of value-source options given.
pub open spec fn source_count(interactive: bool, stdin: bool, value: Option<&str>, file: Option<&str>, from_env: Option<&str>) -> nat {
    (if interactive { 1nat } else { 0nat }) + (if stdin { 1nat } else { 0nat }) + (if value is Some { 1nat } else { 0nat })
        + (if file is Some { 1nat } else { 0nat }) + (if from_env is Some { 1nat } else { 0nat })
}

/// The value source of `variable set`: at most one of `--interactive`,
/// `--stdin`, `--value`, `--file` and `--from-env`, and exactly one of a
/// source and a positional value.
pub fn select_value_source(
    interactive: bool,
    stdin: bool,
    value: Option<&str>,
    file: Option<&str>,
    from_env: Option<&str>,
    has_positional: bool,
) -> (r: Result<Option<ValueSource>, ApiError>)
    ensures
        ({
            let n = source_count(interactive, stdin, value, file, from_env);
            &&& n > 1 ==> (r matches Err(ApiError::InvalidInput(m)) && m@ == "variable set accepts exactly one value source"@)
            &&& n <= 1 && (n == 1) == has_positional ==> (r matches Err(ApiError::InvalidInput(m))
                && m@ == "variable set requires exactly one value source"@)
            &&& n <= 1 && (n == 1) != has_positional ==> (r matches Ok(source) && (source is Some <==> n == 1)
                && (interactive ==> source matches Some(ValueSource::Interactive))
                && (stdin ==> source matches Some(ValueSource::Stdin))
                && (value matches Some(v) ==> source matches Some(ValueSource::Value(x)) && x@ == v@)
                && (file matches Some(v) ==> source matches Some(ValueSource::File(x)) && x@ == v@)
                && (from_env matches Some(v) ==> source matches Some(ValueSource::FromEnv(x)) && x@ == v@))
        }),
{
    let mut source: Option<ValueSource> = None;
    if interactive {
        source = Some(ValueSource::Interactive);
    }
    if stdin {
        if source.is_some() {
            return Err(ApiError::InvalidInput(text::owned("variable set accepts exactly one value source")));
        }
        source = Some(ValueSource::Stdin);
    }
    match value {
        Some(v) => {
            if source.is_some() {
                return Err(ApiError::InvalidInput(text::owned("variable set accepts exactly one value source")));
            }
            source = Some(ValueSource::Value(text::owned(v)));
        },
        None => {},
    }
    match file {
        Some(v) => {
            if source.is_some() {
                return Err(ApiError::InvalidInput(text::owned("variable set accepts exactly one value source")));
            }
            source = Some(ValueSource::File(text::owned(v)));
        },
        None => {},
    }
    match from_env {
        Some(v) => {
            if source.is_some() {
                return Err(ApiError::InvalidInput(text::owned("variable set accepts exactly one value source")));
            }
            source = Some(ValueSource::FromEnv(text::owned(v)));
        },
        None => {},
    }
    if source.is_some() == has_positional {
        return Err(ApiError::InvalidInput(text::owned("variable set requires exactly one value source")));
    }
    Ok(source)
}

/// A secret value is read from a source other than `--value`.
pub fn check_secret_source(source: &Option<ValueSource>) -> (r: Result<(), ApiError>)
    ensures
        source is None ==> (r matches Err(ApiError::InvalidInput(m)) && m@ == "missing value source"@),
        source matches Some(ValueSource::Value(_)) ==> (r matches Err(ApiError::InvalidInput(m))
            && m@ == "--value is not accepted for secret variable values; use --stdin, --file, --interactive, or --from-env"@),
        source is Some && !(source matches Some(ValueSource::Value(_))) ==> r is Ok,
{
    match source {
        None => Err(ApiError::InvalidInput(text::owned("missing value source"))),
        Some(ValueSource::Value(_)) => Err(ApiError::InvalidInput(text::owned(
            "--value is not accepted for secret variable values; use --stdin, --file, --interactive, or --from-env"))),
        Some(_) => Ok(()),
    }
}

} // verus!
