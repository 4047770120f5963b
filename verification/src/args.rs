//! Pre-processing of the command line before it is parsed: where the lockbox
//! stands, which commands take one, and the default lockbox.

use vstd::prelude::*;
use crate::text;
use crate::paths;
use crate::messages::{ApiError, CliMessage, cli_error, is_plain_error};

verus! {

/// The commands that act on one lockbox.
pub open spec fn lockbox_command(c: Seq<char>) -> bool {
    ||| c == "create"@ || c == "open"@ || c == "close"@ || c == "add"@ || c == "mirror"@
    ||| c == "extract"@ || c == "cat"@ || c == "list"@ || c == "ls"@ || c == "remove"@
    ||| c == "rm"@ || c == "delete"@ || c == "move"@ || c == "rename"@ || c == "mv"@
    ||| c == "variable"@ || c == "var"@ || c == "variables"@ || c == "description"@ || c == "form"@
    ||| c == "access"@ || c == "doctor"@ || c == "visualize"@ || c == "visualise"@ || c == "open-key"@
}

/// Whether a command acts on one lockbox.
pub fn command_accepts_lockbox(command: &str) -> (r: bool)
    ensures r == lockbox_command(command@),
{
    let names: [&str; 25] = ["create", "open", "close", "add", "mirror", "extract", "cat", "list", "ls",
        "remove", "rm", "delete", "move", "rename", "mv", "variable", "var", "variables",
        "description", "form", "access", "doctor", "visualize", "visualise", "open-key"];
    let mut i: usize = 0;
    while i < 25
        invariant
            i <= 25,
            names@ == seq!["create", "open", "close", "add", "mirror", "extract", "cat", "list", "ls",
                "remove", "rm", "delete", "move", "rename", "mv", "variable", "var", "variables",
                "description", "form", "access", "doctor", "visualize", "visualise", "open-key"],
            forall|k: int| 0 <= k < i ==> command@ != names@[k]@,
        decreases 25 - i,
    {
        if text::str_eq(command, names[i]) {
            return true;
        }
        i = i + 1;
    }
    proof {
        assert(command@ != names@[0]@);
        assert(command@ != names@[1]@);
        assert(command@ != names@[2]@);
        assert(command@ != names@[3]@);
        assert(command@ != names@[4]@);
        assert(command@ != names@[5]@);
        assert(command@ != names@[6]@);
        assert(command@ != names@[7]@);
        assert(command@ != names@[8]@);
        assert(command@ != names@[9]@);
        assert(command@ != names@[10]@);
        assert(command@ != names@[11]@);
        assert(command@ != names@[12]@);
        assert(command@ != names@[13]@);
        assert(command@ != names@[14]@);
        assert(command@ != names@[15]@);
        assert(command@ != names@[16]@);
        assert(command@ != names@[17]@);
        assert(command@ != names@[18]@);
        assert(command@ != names@[19]@);
        assert(command@ != names@[20]@);
        assert(command@ != names@[21]@);
        assert(command@ != names@[22]@);
        assert(command@ != names@[23]@);
        assert(command@ != names@[24]@);
    }
    false
}

/// A value names a lockbox file: it ends in `.lbox` or has the `lbox` extension.
pub open spec fn lockbox_like(v: Seq<char>) -> bool {
    text::has_suffix(v, ".lbox"@) || paths::extension_of(v) == Some("lbox"@)
}

/// Whether a command-line value names a lockbox file.
pub fn looks_like_lockbox_path(value: &str) -> (r: bool)
    ensures r == lockbox_like(value@),
{
    if text::ends_with(value, ".lbox") {
        return true;
    }
    match paths::extension(value) {
        Some(ext) => text::str_eq(ext.as_str(), "lbox"),
        None => false,
    }
}

/// The command line starts with a lockbox path followed by a lockbox command.
pub open spec fn lockbox_first(first: Seq<char>, args: Seq<String>) -> bool {
    lockbox_like(first) && args.len() > 1 && lockbox_command(args[1]@)
}

/// Whether `first` is a lockbox path placed before a lockbox command.
pub fn command_accepts_lockbox_at_position(first: &str, args: &[String]) -> (r: bool)
    ensures r == lockbox_first(first@, args@),
{
    looks_like_lockbox_path(first) && args.len() > 1 && command_accepts_lockbox(args[1].as_str())
}

/// The index of the command word: one when a lockbox path comes first.
pub open spec fn command_index(args: Seq<String>) -> int {
    if args.len() > 0 && lockbox_first(args[0]@, args) { 1 } else { 0 }
}

/// The argument at `i` equals `v`.
pub open spec fn arg_is(args: Seq<String>, i: int, v: Seq<char>) -> bool {
    0 <= i < args.len() && args[i]@ == v
}

/// The arguments without the `--` separators.
pub open spec fn without_separators(args: Seq<String>) -> Seq<String>
    decreases args.len(),
{
    if args.len() == 0 {
        Seq::empty()
    } else {
        let init = without_separators(args.drop_last());
        if args.last()@ == "--"@ { init } else { init.push(args.last()) }
    }
}

fn command_index_exec(args: &[String]) -> (r: usize)
    ensures r == command_index(args@),
{
    if args.len() > 0 && command_accepts_lockbox_at_position(args[0].as_str(), args) { 1 } else { 0 }
}

fn arg_equals(args: &[String], i: usize, v: &str) -> (r: bool)
    ensures r == arg_is(args@, i as int, v@),
{
    i < args.len() && text::str_eq(args[i].as_str(), v)
}

/// `form define` takes field specifications that may follow a `--`; the
/// separators are dropped from its arguments. Other command lines are kept.
pub fn normalize_form_define_separator(args: Vec<String>) -> (r: Vec<String>)
    ensures
        ({
            let ci = command_index(args@);
            if arg_is(args@, ci, "form"@) && arg_is(args@, ci + 1, "define"@) {
                r@ == without_separators(args@)
            } else {
                r@ == args@
            }
        }),
{
    let ci = command_index_exec(args.as_slice());
    if ci == usize::MAX || !arg_equals(args.as_slice(), ci, "form") || !arg_equals(args.as_slice(), ci + 1, "define") {
        return args;
    }
    let mut out: Vec<String> = Vec::new();
    let n = args.len();
    let mut i: usize = 0;
    while i < n
        invariant
            i <= n,
            n == args@.len(),
            out@ == without_separators(args@.subrange(0, i as int)),
        decreases n - i,
    {
        assert(args@.subrange(0, i + 1).drop_last() =~= args@.subrange(0, i as int));
        if !text::str_eq(args[i].as_str(), "--") {
            out.push(args[i].clone());
        }
        i = i + 1;
    }
    assert(args@.subrange(0, n as int) =~= args@);
    out
}

/// The command is `variable set` (or `var set`) and a later argument is `-secret`.
pub open spec fn single_dash_secret(args: Seq<String>) -> bool {
    let ci = command_index(args);
    (arg_is(args, ci, "variable"@) || arg_is(args, ci, "var"@))
        && arg_is(args, ci + 1, "set"@)
        && exists|k: int| ci + 2 <= k < args.len() && #[trigger] args[k]@ == "-secret"@
}

/// Rejects `variable set ... -secret`, a likely typing mistake for `--secret`.
pub fn reject_variables_set_single_dash_secret(args: &[String]) -> (r: Result<(), CliMessage>)
    ensures
        r is Ok <==> !single_dash_secret(args@),
        r matches Err(m) ==> is_plain_error(m, "unknown option: -secret. Use --secret."@),
{
    let ci = command_index_exec(args);
    if (arg_equals(args, ci, "variable") || arg_equals(args, ci, "var")) && ci < args.len()
        && arg_equals(args, ci + 1, "set") {
        let n = args.len();
        let mut k: usize = ci + 2;
        while k < n
            invariant
                ci + 2 <= k,
                n == args@.len(),
                ci == command_index(args@),
                arg_is(args@, ci as int, "variable"@) || arg_is(args@, ci as int, "var"@),
                arg_is(args@, ci + 1, "set"@),
                forall|j: int| ci + 2 <= j < k ==> args@[j]@ != "-secret"@,
            decreases n - k,
        {
            if text::str_eq(args[k].as_str(), "-secret") {
                assert(args@[k as int]@ == "-secret"@);
                return Err(cli_error("unknown option: -secret. Use --secret."));
            }
            k = k + 1;
        }
    }
    Ok(())
}

/// The first argument that is not a global option, with its index; `None`
/// when an unknown option comes first.
pub open spec fn candidate_from(args: Seq<String>, i: int) -> Option<(int, Seq<char>)>
    decreases args.len() + 2 - i,
{
    if i < 0 || i >= args.len() {
        None
    } else {
        let a = args[i]@;
        if a == "--verbose"@ {
            candidate_from(args, i + 1)
        } else if a == "--key"@ {
            candidate_from(args, i + 2)
        } else if text::has_prefix(a, "--key="@) {
            candidate_from(args, i + 1)
        } else if a.len() > 0 && a[0] == '-' {
            None
        } else {
            Some((i, a))
        }
    }
}

/// The first top-level argument that is not a global option.
pub fn top_level_candidate(args: &[String]) -> (r: Option<(usize, &str)>)
    ensures
        r is Some <==> candidate_from(args@, 0) is Some,
        r matches Some((i, v)) ==> candidate_from(args@, 0) == Some((i as int, v@)),
{
    let n = args.len();
    let mut index: usize = 0;
    while index < n
        invariant
            n == args@.len(),
            candidate_from(args@, 0) == candidate_from(args@, index as int),
        decreases n - index,
    {
        let a = args[index].as_str();
        if text::str_eq(a, "--verbose") {
            index = index + 1;
        } else if text::str_eq(a, "--key") {
            if index >= n - 1 {
                assert(candidate_from(args@, index + 2) is None);
                return None;
            }
            index = index + 2;
        } else if text::starts_with(a, "--key=") {
            index = index + 1;
        } else if a.unicode_len() > 0 && a.get_char(0) == '-' {
            return None;
        } else {
            return Some((index, a));
        }
    }
    None
}

/// Every argument other than `--verbose` asks for help.
pub open spec fn only_help(args: Seq<String>) -> bool {
    forall|k: int| 0 <= k < args.len() ==> #[trigger] args[k]@ == "--verbose"@
        || args[k]@ == "--help"@ || args[k]@ == "-h"@
}

/// The command line asks only for the top-level help.
pub fn is_top_level_help(args: &[String]) -> (r: bool)
    ensures r == only_help(args@),
{
    let n = args.len();
    let mut i: usize = 0;
    while i < n
        invariant
            i <= n,
            n == args@.len(),
            forall|k: int| 0 <= k < i ==> #[trigger] args@[k]@ == "--verbose"@
                || args@[k]@ == "--help"@ || args@[k]@ == "-h"@,
        decreases n - i,
    {
        let a = args[i].as_str();
        if !(text::str_eq(a, "--verbose") || text::str_eq(a, "--help") || text::str_eq(a, "-h")) {
            return false;
        }
        i = i + 1;
    }
    true
}

/// An unknown first word that is clearly meant as a command: the word after
/// it is a lockbox path, or a command that does not take a lockbox.
pub open spec fn unknown_top_level(args: Seq<String>, names: Seq<Seq<char>>) -> Option<Seq<char>> {
    match candidate_from(args, 0) {
        None => None,
        Some((i, first)) => {
            if lockbox_like(first) || names.contains(first) || i + 1 >= args.len() {
                None
            } else {
                let next = args[i + 1]@;
                if lockbox_like(next) || (names.contains(next) && !lockbox_command(next)) {
                    Some(first)
                } else {
                    None
                }
            }
        },
    }
}

fn is_name(names: &[String], value: &str) -> (r: bool)
    ensures r == crate::glob::string_views(names@).contains(value@),
{
    let n = names.len();
    let mut i: usize = 0;
    while i < n
        invariant
            i <= n,
            n == names@.len(),
            forall|k: int| 0 <= k < i ==> names@[k]@ != value@,
        decreases n - i,
    {
        if text::str_eq(names[i].as_str(), value) {
            assert(crate::glob::string_views(names@)[i as int] == value@);
            return true;
        }
        i = i + 1;
    }
    assert forall|k: int| 0 <= k < names@.len() implies crate::glob::string_views(names@)[k] != value@ by {
        assert(crate::glob::string_views(names@)[k] == names@[k]@);
    }
    false
}

/// Rejects an unknown first word that is clearly meant as a command; `names`
/// are the top-level command names and aliases. The error is the
/// "unrecognized subcommand" message.
pub fn reject_unknown_top_level_token(args: &[String], names: &[String]) -> (r: Result<(), String>)
    ensures
        match unknown_top_level(args@, crate::glob::string_views(names@)) {
            None => r is Ok,
            Some(first) => r matches Err(m) && m@ == "unrecognized subcommand '"@ + first + "'"@,
        },
{
    let (index, first) = match top_level_candidate(args) {
        None => return Ok(()),
        Some(c) => c,
    };
    if looks_like_lockbox_path(first) || is_name(names, first) || index >= args.len() - 1 {
        return Ok(());
    }
    let next = args[index + 1].as_str();
    if looks_like_lockbox_path(next) || (is_name(names, next) && !command_accepts_lockbox(next)) {
        return Err(text::concat3("unrecognized subcommand '", first, "'"));
    }
    Ok(())
}

/// Secret activity classes that the session agent records.
#[derive(Clone, Copy, Debug, PartialEq, Eq, Structural)]
pub enum SecretActivityKind {
    Open,
    Close,
    Variables,
    Form,
    Vault,
    Recovery,
}

pub open spec fn activity_of(c: Seq<char>) -> Option<SecretActivityKind> {
    if c == "open"@ {
        Some(SecretActivityKind::Open)
    } else if c == "close"@ {
        Some(SecretActivityKind::Close)
    } else if c == "add"@ || c == "mirror"@ || c == "extract"@ || c == "cat"@ || c == "list"@
        || c == "remove"@ || c == "delete"@ || c == "move"@ || c == "visualize"@ {
        Some(SecretActivityKind::Open)
    } else if c == "variable"@ || c == "description"@ {
        Some(SecretActivityKind::Variables)
    } else if c == "form"@ {
        Some(SecretActivityKind::Form)
    } else if c == "access"@ || c == "open-key"@ || c == "session"@ {
        Some(SecretActivityKind::Vault)
    } else {
        None
    }
}

/// The secret activity a command performs.
pub fn command_secret_activity(command: &str) -> (r: Option<SecretActivityKind>)
    ensures r == activity_of(command@),
{
    let c = command;
    if text::str_eq(c, "open") {
        Some(SecretActivityKind::Open)
    } else if text::str_eq(c, "close") {
        Some(SecretActivityKind::Close)
    } else if text::str_eq(c, "add") || text::str_eq(c, "mirror") || text::str_eq(c, "extract")
        || text::str_eq(c, "cat") || text::str_eq(c, "list") || text::str_eq(c, "remove")
        || text::str_eq(c, "delete") || text::str_eq(c, "move") || text::str_eq(c, "visualize") {
        Some(SecretActivityKind::Open)
    } else if text::str_eq(c, "variable") || text::str_eq(c, "description") {
        Some(SecretActivityKind::Variables)
    } else if text::str_eq(c, "form") {
        Some(SecretActivityKind::Form)
    } else if text::str_eq(c, "access") || text::str_eq(c, "open-key") || text::str_eq(c, "session") {
        Some(SecretActivityKind::Vault)
    } else {
        None
    }
}

/// The secret activity of a whole invocation: `doctor recover` and
/// `doctor migrate` are recovery work, every other command has the activity
/// of its name.
pub open spec fn invocation_activity(c: Seq<char>, sub: Option<Seq<char>>) -> Option<SecretActivityKind> {
    if c == "doctor"@ && (sub == Some("recover"@) || sub == Some("migrate"@)) {
        Some(SecretActivityKind::Recovery)
    } else {
        activity_of(c)
    }
}

/// The checks made once the command is known and before it runs: a lockbox
/// given before a command that takes none is refused; otherwise the result is
/// the secret activity to record for the invocation.
pub fn command_preflight(command: &str, subcommand: Option<&str>, has_command_lockbox: bool)
    -> (r: Result<Option<SecretActivityKind>, CliMessage>)
    ensures
        has_command_lockbox && !lockbox_command(command@) ==> (r matches Err(m) && is_plain_error(m,
            command@ + " is not a lockbox-scoped command; place the command immediately after `lockbox`"@)),
        !(has_command_lockbox && !lockbox_command(command@)) ==> r == Ok::<Option<SecretActivityKind>, CliMessage>(
            invocation_activity(command@, match subcommand { Some(s) => Some(s@), None => None })),
{
    if has_command_lockbox && !command_accepts_lockbox(command) {
        let message = text::concat2(command,
            " is not a lockbox-scoped command; place the command immediately after `lockbox`");
        return Err(cli_error(message.as_str()));
    }
    let recovery = match subcommand {
        Some(s) => text::str_eq(s, "recover") || text::str_eq(s, "migrate"),
        None => false,
    };
    if text::str_eq(command, "doctor") && recovery {
        Ok(Some(SecretActivityKind::Recovery))
    } else {
        Ok(command_secret_activity(command))
    }
}

/// Where the content key of an invocation comes from.
#[derive(Clone, Debug, PartialEq, Eq)]
pub enum AccessSource {
    /// A content key given on the command line or in the environment.
    ContentKey(String),
    /// Ask for the password (only `create` does).
    PromptPassword,
    /// Use only what the session agent has cached.
    CacheOnly,
}

/// The access of an invocation: the `--key` option wins over the
/// `LOCKBOX_KEY` environment value; without either, `create` prompts for a
/// password and every other command uses the session cache.
pub fn read_access(key_option: Option<&str>, key_environment: Option<&str>, command: &str) -> (r: AccessSource)
    ensures
        match key_option {
            Some(k) => r matches AccessSource::ContentKey(v) && v@ == k@,
            None => match key_environment {
                Some(k) => r matches AccessSource::ContentKey(v) && v@ == k@,
                None => if command@ == "create"@ {
                    r is PromptPassword
                } else {
                    r is CacheOnly
                },
            },
        },
{
    if let Some(k) = key_option {
        return AccessSource::ContentKey(text::owned(k));
    }
    if let Some(k) = key_environment {
        return AccessSource::ContentKey(text::owned(k));
    }
    if text::str_eq(command, "create") {
        AccessSource::PromptPassword
    } else {
        AccessSource::CacheOnly
    }
}

/// Every command that reads or changes a lockbox's entries, variables or
/// forms acts on one lockbox: the commands whose secret activity is opening
/// (`add`, `mirror`, `extract`, `cat`, `list`, `remove`, `delete`, `move`,
/// `visualize`, and `open` itself), variables or forms, and `close`, `access`
/// and `open-key`, all take a lockbox before them; `session` does not.
pub proof fn lemma_lockbox_commands_cover_their_activities(c: Seq<char>)
    ensures
        activity_of(c) == Some(SecretActivityKind::Open) ==> lockbox_command(c),
        activity_of(c) == Some(SecretActivityKind::Close) ==> lockbox_command(c),
        activity_of(c) == Some(SecretActivityKind::Variables) ==> lockbox_command(c),
        activity_of(c) == Some(SecretActivityKind::Form) ==> lockbox_command(c),
        activity_of(c) == Some(SecretActivityKind::Vault) && c != "session"@ ==> lockbox_command(c),
{
}

/// The commands that take a lockbox before them, with their aliases:
/// `create`, `open`, `close`, `add`, `mirror`, `extract`, `cat`, `list`/`ls`,
/// `remove`/`rm`/`delete`, `move`/`rename`/`mv`,
/// `variable`/`var`/`variables`, `description`, `form`, `access`, `doctor`,
/// `visualize`/`visualise` and `open-key`.
pub proof fn lemma_lockbox_command_list(c: Seq<char>)
    requires
        c == "create"@ || c == "open"@ || c == "close"@ || c == "add"@ || c == "mirror"@
        || c == "extract"@ || c == "cat"@ || c == "list"@ || c == "ls"@ || c == "remove"@
        || c == "rm"@ || c == "delete"@ || c == "move"@ || c == "rename"@ || c == "mv"@
        || c == "variable"@ || c == "var"@ || c == "variables"@ || c == "description"@ || c == "form"@
        || c == "access"@ || c == "doctor"@ || c == "visualize"@ || c == "visualise"@ || c == "open-key"@,
    ensures lockbox_command(c),
{
}

/// The lockbox of a lockbox command: the one given before the command, else
/// the session default. `session_default` is the default lockbox, if one is
/// set, or the failure to use it.
pub fn default_lockbox_for_command(
    command_lockbox: Option<&str>,
    session_default: Result<Option<String>, CliMessage>,
) -> (r: Result<String, CliMessage>)
    ensures
        command_lockbox matches Some(c) ==> r matches Ok(s) && s@ == c@,
        command_lockbox is None ==> match session_default {
            Err(e) => r == Err::<String, CliMessage>(e),
            Ok(Some(d)) => r matches Ok(s) && s@ == d@,
            Ok(None) => r matches Err(m)
                && is_plain_error(m, "missing lockbox; pass a .lbox path or set a session default lockbox"@),
        },
{
    if let Some(lockbox) = command_lockbox {
        return Ok(text::owned(lockbox));
    }
    match session_default {
        Err(e) => Err(e),
        Ok(Some(d)) => Ok(d),
        Ok(None) => Err(cli_error("missing lockbox; pass a .lbox path or set a session default lockbox")),
    }
}

/// The lockbox that `add` writes to; the same choice as for other lockbox commands.
pub fn default_lockbox_for_add(
    command_lockbox: Option<&str>,
    session_default: Result<Option<String>, CliMessage>,
) -> (r: Result<String, CliMessage>)
    ensures
        command_lockbox matches Some(c) ==> r matches Ok(s) && s@ == c@,
        command_lockbox is None ==> match session_default {
            Err(e) => r == Err::<String, CliMessage>(e),
            Ok(Some(d)) => r matches Ok(s) && s@ == d@,
            Ok(None) => r matches Err(m)
                && is_plain_error(m, "missing lockbox; pass a .lbox path or set a session default lockbox"@),
        },
{
    default_lockbox_for_command(command_lockbox, session_default)
}

/// Puts the lockbox in front of a command's positional values. A lockbox given
/// before the command comes first; otherwise a lockbox path among the values
/// is refused, and the session default is used.
pub fn optional_lockbox_positionals(
    values: Vec<String>,
    required_after_lockbox: usize,
    command_lockbox: Option<&str>,
    session_default: Result<Option<String>, CliMessage>,
) -> (r: Result<Vec<String>, CliMessage>)
    ensures
        command_lockbox matches Some(c) ==> (if values@.len() < required_after_lockbox {
            r matches Err(m) && is_plain_error(m, "missing required argument"@)
        } else {
            r matches Ok(v) && v@.len() == values@.len() + 1 && v@[0]@ == c@
                && v@.subrange(1, v@.len() as int) == values@
        }),
        command_lockbox is None ==> (if values@.len() > 0 && lockbox_like(values@[0]@) {
            r matches Err(m) && is_plain_error(m,
                "lockbox paths must precede lockbox-scoped commands; use `lockbox LOCKBOX COMMAND ...`"@)
        } else if values@.len() < required_after_lockbox {
            r matches Err(m) && is_plain_error(m, "missing required argument"@)
        } else {
            match session_default {
                Err(e) => r == Err::<Vec<String>, CliMessage>(e),
                Ok(Some(d)) => r matches Ok(v) && v@.len() == values@.len() + 1 && v@[0]@ == d@
                    && v@.subrange(1, v@.len() as int) == values@,
                Ok(None) => r matches Err(m)
                    && is_plain_error(m, "missing lockbox; pass a .lbox path or set a session default lockbox"@),
            }
        }),
{
    let mut values = values;
    if let Some(lockbox) = command_lockbox {
        if values.len() < required_after_lockbox {
            return Err(cli_error("missing required argument"));
        }
        let ghost before = values@;
        values.insert(0, text::owned(lockbox));
        assert(values@.subrange(1, values@.len() as int) =~= before);
        return Ok(values);
    }
    if values.len() > 0 && looks_like_lockbox_path(values[0].as_str()) {
        return Err(cli_error(
            "lockbox paths must precede lockbox-scoped commands; use `lockbox LOCKBOX COMMAND ...`",
        ));
    }
    if values.len() < required_after_lockbox {
        return Err(cli_error("missing required argument"));
    }
    let lockbox = match default_lockbox_for_command(None, session_default) {
        Ok(l) => l,
        Err(e) => return Err(e),
    };
    let ghost before = values@;
    values.insert(0, lockbox);
    assert(values@.subrange(1, values@.len() as int) =~= before);
    Ok(values)
}

/// How many worker threads an add uses.
#[derive(Clone, Copy, Debug, PartialEq, Eq, Structural)]
pub enum WorkerPolicy {
    Auto,
    Single,
    Threads(usize),
}

/// The value of a string of decimal digits.
pub open spec fn digits_value(d: Seq<char>) -> nat
    decreases d.len(),
{
    if d.len() == 0 {
        0
    } else {
        digits_value(d.drop_last()) * 10 + (d.last() as nat - 48) as nat
    }
}

/// What `str::parse::<usize>` gives: an optional `+` and at least one digit,
/// with a value that fits.
pub open spec fn parsed_usize(s: Seq<char>) -> Option<nat> {
    let d = unsigned_digits(s);
    if d.len() == 0 || !all_digits(d) {
        None
    } else if digits_value(d) > usize::MAX {
        None
    } else {
        Some(digits_value(d))
    }
}

/// The text without one leading `+`.
pub open spec fn unsigned_digits(s: Seq<char>) -> Seq<char> {
    if s.len() > 0 && s[0] == '+' { s.subrange(1, s.len() as int) } else { s }
}

/// Every character is a decimal digit.
pub open spec fn all_digits(d: Seq<char>) -> bool {
    forall|k: int| 0 <= k < d.len() ==> text::is_digit(#[trigger] d[k])
}

proof fn lemma_digits_value_mono(d: Seq<char>, i: int)
    requires
        0 <= i <= d.len(),
        forall|k: int| 0 <= k < d.len() ==> text::is_digit(#[trigger] d[k]),
    ensures digits_value(d.subrange(0, i)) <= digits_value(d),
    decreases d.len() - i,
{
    if i < d.len() {
        let t = d.subrange(0, i + 1);
        assert(t.drop_last() =~= d.subrange(0, i));
        lemma_digits_value_mono(d, i + 1);
    } else {
        assert(d.subrange(0, i) =~= d);
    }
}

/// Parses an unsigned decimal number as `str::parse::<usize>` does.
pub fn parse_usize(s: &str) -> (r: Option<usize>)
    ensures
        r is Some <==> parsed_usize(s@) is Some,
        r matches Some(v) ==> parsed_usize(s@) == Some(v as nat),
{
    let n = s.unicode_len();
    let start: usize = if n > 0 && s.get_char(0) == '+' { 1 } else { 0 };
    let d = s.substring_char(start, n);
    let m = d.unicode_len();
    if m == 0 {
        return None;
    }
    let mut value: usize = 0;
    let mut i: usize = 0;
    let mut overflow = false;
    assert(d@ == unsigned_digits(s@));
    while i < m
        invariant
            i <= m,
            m == d@.len(),
            d@ == unsigned_digits(s@),
            forall|k: int| 0 <= k < i ==> text::is_digit(#[trigger] d@[k]),
            !overflow ==> value as nat == digits_value(d@.subrange(0, i as int)),
            overflow ==> digits_value(d@.subrange(0, i as int)) > usize::MAX,
        decreases m - i,
    {
        let c = d.get_char(i);
        if !text::char_is_digit(c) {
            assert(!text::is_digit(d@[i as int]));
            assert(!all_digits(d@));
            return None;
        }
        let dv = ((c as u32) - 48) as usize;
        assert(d@.subrange(0, i + 1).drop_last() =~= d@.subrange(0, i as int));
        assert(d@.subrange(0, i + 1).last() == c);
        if !overflow {
            if value > (usize::MAX - dv) / 10 {
                overflow = true;
                assert(value * 10 + dv > usize::MAX) by (nonlinear_arith)
                    requires value > (usize::MAX - dv) / 10, dv <= 9;
            } else {
                assert(value * 10 + dv <= usize::MAX) by (nonlinear_arith)
                    requires value <= (usize::MAX - dv) / 10, dv <= 9;
                value = value * 10 + dv;
            }
        } else {
            assert(digits_value(d@.subrange(0, i + 1)) >= digits_value(d@.subrange(0, i as int)) * 10);
        }
        i = i + 1;
    }
    assert(d@.subrange(0, m as int) =~= d@);
    assert(all_digits(d@));
    if overflow {
        return None;
    }
    Some(value)
}

/// The worker policy that a `--jobs` value selects; without one, `Auto`.
pub fn read_worker_policy(value: Option<&str>) -> (r: Result<WorkerPolicy, ApiError>)
    ensures
        match value {
            None => r == Ok::<WorkerPolicy, ApiError>(WorkerPolicy::Auto),
            Some(v) => if v@ == "auto"@ {
                r == Ok::<WorkerPolicy, ApiError>(WorkerPolicy::Auto)
            } else if v@ == "1"@ {
                r == Ok::<WorkerPolicy, ApiError>(WorkerPolicy::Single)
            } else {
                match parsed_usize(v@) {
                    Some(n) => if n == 0 {
                        r matches Err(ApiError::InvalidInput(m)) && m@ == "--jobs must be auto, 1, or a positive integer"@
                    } else {
                        r == Ok::<WorkerPolicy, ApiError>(WorkerPolicy::Threads(n as usize))
                    },
                    None => r matches Err(ApiError::InvalidInput(m)) && m@ == "--jobs must be auto, 1, or a positive integer"@,
                }
            },
        },
{
    let v = match value {
        None => return Ok(WorkerPolicy::Auto),
        Some(v) => v,
    };
    if text::str_eq(v, "auto") {
        return Ok(WorkerPolicy::Auto);
    }
    if text::str_eq(v, "1") {
        return Ok(WorkerPolicy::Single);
    }
    match parse_usize(v) {
        None => Err(ApiError::InvalidInput(text::owned("--jobs must be auto, 1, or a positive integer"))),
        Some(jobs) => {
            if jobs == 0 {
                Err(ApiError::InvalidInput(text::owned("--jobs must be auto, 1, or a positive integer")))
            } else {
                Ok(WorkerPolicy::Threads(jobs))
            }
        },
    }
}

/// Help after-text: in verbose mode the context paragraph comes before the
/// normal text.
pub fn verbose_help(verbose: bool, normal: &str, context: &str) -> (r: String)
    ensures r@ == if verbose { context@ + "\n\n"@ + normal@ } else { normal@ },
{
    if verbose {
        text::concat3(context, "\n\n", normal)
    } else {
        text::owned(normal)
    }
}

/// What `str::parse` gives for an unsigned integer type whose largest value
/// is `max`: an optional `+` and at least one digit, with a value that fits.
pub open spec fn parsed_unsigned(s: Seq<char>, max: nat) -> Option<nat> {
    let d = unsigned_digits(s);
    if d.len() == 0 || !all_digits(d) {
        None
    } else if digits_value(d) > max {
        None
    } else {
        Some(digits_value(d))
    }
}

/// Parses an unsigned decimal number no larger than `max`, as `str::parse`
/// does for the unsigned type with that largest value.
pub fn parse_unsigned(s: &str, max: u64) -> (r: Option<u64>)
    ensures
        match parsed_unsigned(s@, max as nat) {
            Some(v) => r == Some(v as u64),
            None => r is None,
        },
{
    let n = s.unicode_len();
    let start: usize = if n > 0 && s.get_char(0) == '+' { 1 } else { 0 };
    let d = s.substring_char(start, n);
    let m = d.unicode_len();
    if m == 0 {
        return None;
    }
    let mut value: u64 = 0;
    let mut i: usize = 0;
    let mut overflow = false;
    assert(d@ == unsigned_digits(s@));
    while i < m
        invariant
            i <= m,
            m == d@.len(),
            d@ == unsigned_digits(s@),
            forall|k: int| 0 <= k < i ==> text::is_digit(#[trigger] d@[k]),
            !overflow ==> value as nat == digits_value(d@.subrange(0, i as int)) && value <= max,
            overflow ==> digits_value(d@.subrange(0, i as int)) > max,
        decreases m - i,
    {
        let c = d.get_char(i);
        if !text::char_is_digit(c) {
            assert(!text::is_digit(d@[i as int]));
            assert(!all_digits(d@));
            return None;
        }
        let dv = ((c as u32) - 48) as u64;
        assert(d@.subrange(0, i + 1).drop_last() =~= d@.subrange(0, i as int));
        assert(d@.subrange(0, i + 1).last() == c);
        if !overflow {
            if dv > max || value > (max - dv) / 10 {
                overflow = true;
                assert(value * 10 + dv > max) by (nonlinear_arith)
                    requires value > (max - dv) / 10 || dv > max, dv <= 9, value >= 0;
            } else {
                assert(value * 10 + dv <= max) by (nonlinear_arith)
                    requires value <= (max - dv) / 10, dv <= max, dv <= 9;
                value = value * 10 + dv;
            }
        } else {
            assert(digits_value(d@.subrange(0, i + 1)) >= digits_value(d@.subrange(0, i as int)) * 10);
        }
        i = i + 1;
    }
    assert(d@.subrange(0, m as int) =~= d@);
    assert(all_digits(d@));
    if overflow {
        return None;
    }
    Some(value)
}

/// The decimal text of a number reads back as the number.
pub proof fn lemma_decimal_reads_back(n: nat, max: nat)
    requires n <= max,
    ensures
        parsed_unsigned(text::dec(n), max) == Some(n),
        text::dec(n).len() > 0,
        all_digits(text::dec(n)),
    decreases n,
{
    let d = text::dec(n);
    assert(d.last() as nat == n % 10 + 48);
    assert(d.last() as nat - 48 == n % 10);
    if n < 10 {
        assert(d.drop_last() =~= Seq::<char>::empty());
        assert(digits_value(Seq::<char>::empty()) == 0);
        assert(digits_value(d) == digits_value(d.drop_last()) * 10 + (d.last() as nat - 48) as nat);
        assert(digits_value(d) == n);
    } else {
        lemma_decimal_reads_back(n / 10, max);
        assert(d.drop_last() =~= text::dec(n / 10));
        assert(digits_value(d) == digits_value(text::dec(n / 10)) * 10 + n % 10);
        assert(digits_value(d) == n);
        assert(all_digits(d)) by {
            assert forall|k: int| 0 <= k < d.len() implies text::is_digit(#[trigger] d[k]) by {
                if k < d.len() - 1 {
                    assert(d[k] == text::dec(n / 10)[k]);
                }
            }
        }
    }
    assert(unsigned_digits(d) == d);
}

} // verus!
