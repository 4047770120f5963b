//! Session settings: the default lockbox remembered between commands, the
//! output formats that session commands accept, and Auto Open prompts.

use vstd::prelude::*;
use crate::text;
use crate::paths;
use crate::messages::ApiError;
use crate::output::OutputFormat;

verus! {

/// `--format` is accepted only by the session listing.
pub fn reject_session_format(explicit: bool, command: &str) -> (r: Result<(), ApiError>)
    ensures
        explicit ==> (r matches Err(ApiError::InvalidInput(m)) && m@ == "--format is not supported by session "@ + command@),
        !explicit ==> r is Ok,
{
    if explicit {
        return Err(ApiError::InvalidInput(text::concat2("--format is not supported by session ", command)));
    }
    Ok(())
}

/// A format given to `session` is inherited only by `session auto-open status`.
pub fn reject_auto_open_format(inherited_format: Option<OutputFormat>, command: &str) -> (r: Result<(), ApiError>)
    ensures
        inherited_format is Some ==> (r matches Err(ApiError::InvalidInput(m)) && m@
            == "--format is only supported by session and session auto-open status, not auto-open "@ + command@),
        inherited_format is None ==> r is Ok,
{
    if inherited_format.is_some() {
        return Err(ApiError::InvalidInput(text::concat2(
            "--format is only supported by session and session auto-open status, not auto-open ", command)));
    }
    Ok(())
}

/// The remembered default lockbox, from the contents of its file (none when
/// there is no file): the path written there, without its line ends.
pub fn default_lockbox_or_none(contents: Option<&str>) -> (r: Option<String>)
    ensures
        match contents {
            Some(c) => r matches Some(p) && p@ == text::trim_end_char(c@, '\n'),
            None => r is None,
        },
{
    match contents {
        Some(c) => Some(text::owned(text::trim_end_matches_char(c, '\n'))),
        None => None,
    }
}

/// The text written to remember a default lockbox.
pub fn default_lockbox_file_text(lockbox_path: &str) -> (r: String)
    ensures r@ == lockbox_path@.push('\n'),
{
    let mut out = text::owned(lockbox_path);
    text::push_char(&mut out, '\n');
    out
}

/// The remembered default lockbox reads back as written, for a path that does
/// not itself end with a line end.
pub proof fn lemma_default_lockbox_reads_back(path: Seq<char>)
    requires path.len() == 0 || path.last() != '\n',
    ensures text::trim_end_char(path.push('\n'), '\n') == path,
{
    let s = path.push('\n');
    assert(s[s.len() - 1] == '\n');
    if path.len() > 0 {
        assert(s[s.len() - 2] == path.last());
    }
    text::lemma_trail_len(s, text::char_pred('\n'), 1);
    assert(s.subrange(0, s.len() - 1) =~= path);
}

/// A path names the remembered default: it is the same text, or its
/// canonical form (when it has one) is the default's path.
pub open spec fn names_default(default: Option<Seq<char>>, path: Seq<char>, canonical: Option<Seq<char>>) -> bool {
    match default {
        Some(d) => d == path || (canonical matches Some(c) && paths::same_path_as(c, d)),
        None => false,
    }
}

/// Whether a path names the remembered default lockbox, given the default
/// (if any) and the canonical form of the path (if it exists).
pub fn default_matches(default: Option<&str>, path: &str, canonical: Option<&str>) -> (r: bool)
    ensures r == names_default(match default { Some(d) => Some(d@), None => None }, path@,
        match canonical { Some(c) => Some(c@), None => None }),
{
    match default {
        Some(d) => {
            if text::str_eq(d, path) {
                true
            } else {
                match canonical {
                    Some(c) => paths::same_path(c, d),
                    None => false,
                }
            }
        },
        None => false,
    }
}

/// Whether the remembered default is forgotten because its lockbox went away:
/// exactly when the path names it.
pub fn clear_default_if_matches(default: Option<&str>, path: &str, canonical: Option<&str>) -> (r: bool)
    ensures r == names_default(match default { Some(d) => Some(d@), None => None }, path@,
        match canonical { Some(c) => Some(c@), None => None }),
{
    default_matches(default, path, canonical)
}

/// The question asked before Auto Open is turned off.
pub const AUTO_OPEN_DISABLE_PROMPT: &'static str = "Disable Auto Open?\nThe stored Vault passphrase will be removed from the platform credential store.\nAll open Lockboxes will be closed.\nType 'yes' to disable Auto Open: ";

/// Auto Open is turned off when asked to without a prompt, or when the answer
/// to the prompt is `yes`.
pub fn confirm_auto_open_disable(yes: bool, answer: &str) -> (r: bool)
    ensures r == (yes || text::trim(answer@) == "yes"@),
{
    yes || text::str_eq(text::str_trim(answer), "yes")
}

/// The rows of the Auto Open status table.
pub fn auto_open_status_rows(supported: bool, scope: &str, stored: bool, backend: &str, item: &str) -> (r: Vec<Vec<String>>)
    ensures
        r@.len() == 5,
        r@[0]@.len() == 2 && r@[0]@[0]@ == "supported"@ && r@[0]@[1]@ == (if supported { "yes"@ } else { "no"@ }),
        r@[1]@.len() == 2 && r@[1]@[0]@ == "scope"@ && r@[1]@[1]@ == scope@,
        r@[2]@.len() == 2 && r@[2]@[0]@ == "Vault passphrase stored"@ && r@[2]@[1]@ == (if stored { "yes"@ } else { "no"@ }),
        r@[3]@.len() == 2 && r@[3]@[0]@ == "backend"@ && r@[3]@[1]@ == backend@,
        r@[4]@.len() == 2 && r@[4]@[0]@ == "vault"@ && r@[4]@[1]@ == item@,
{
    let mut rows: Vec<Vec<String>> = Vec::new();
    rows.push(vec![text::owned("supported"), text::owned(crate::mirror::yes_no(supported))]);
    rows.push(vec![text::owned("scope"), text::owned(scope)]);
    rows.push(vec![text::owned("Vault passphrase stored"), text::owned(crate::mirror::yes_no(stored))]);
    rows.push(vec![text::owned("backend"), text::owned(backend)]);
    rows.push(vec![text::owned("vault"), text::owned(item)]);
    rows
}

} // verus!
