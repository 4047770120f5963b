//! Opening and closing a lockbox: the order in which vault identities are
//! tried, where the password comes from, and what `close` refuses and reports.

use vstd::prelude::*;
use crate::text;
use crate::messages::{ApiError, CliMessage, cli_error, is_plain_error};
use crate::completion::views;

verus! {

/// The order in which the vault identities are tried when a lockbox is opened
/// without a password: the first identity named `default_name` moves to the
/// front, the others keep their order.
pub fn identity_trial_order(identities: &[String], default_name: &str) -> (r: Vec<String>)
    ensures
        (forall|q: int| 0 <= q < identities@.len() ==> identities@[q]@ != default_name@)
            ==> views(r@) == views(identities@),
        forall|p: int| 0 <= p < identities@.len() && identities@[p]@ == default_name@
            && (forall|q: int| 0 <= q < p ==> identities@[q]@ != default_name@)
            ==> views(r@) == seq![default_name@] + views(identities@).take(p)
                + views(identities@).skip(p + 1),
{
    let n = identities.len();
    let mut p: usize = 0;
    while p < n && !text::str_eq(identities[p].as_str(), default_name)
        invariant
            p <= n,
            n == identities@.len(),
            forall|q: int| 0 <= q < p ==> identities@[q]@ != default_name@,
        decreases n - p,
    {
        p = p + 1;
    }
    let mut out: Vec<String> = Vec::new();
    let ghost ids = views(identities@);
    if p == n {
        let mut j: usize = 0;
        while j < n
            invariant
                j <= n,
                n == identities@.len(),
                ids == views(identities@),
                views(out@) == ids.take(j as int),
            decreases n - j,
        {
            let ghost before = views(out@);
            out.push(identities[j].clone());
            assert(views(out@) =~= before.push(ids[j as int]));
            assert(ids.take(j + 1) =~= ids.take(j as int).push(ids[j as int]));
            j = j + 1;
        }
        assert(ids.take(n as int) =~= ids);
    } else {
        out.push(identities[p].clone());
        assert(views(out@) =~= seq![default_name@] + ids.take(0));
        let mut j: usize = 0;
        while j < n
            invariant
                j <= n,
                p < n,
                n == identities@.len(),
                ids == views(identities@),
                ids[p as int] == default_name@,
                views(out@) == seq![default_name@] + (if j <= p { ids.take(j as int) } else {
                    ids.take(p as int) + ids.subrange(p + 1, j as int) }),
            decreases n - j,
        {
            let ghost before = views(out@);
            if j != p {
                out.push(identities[j].clone());
                assert(views(out@) =~= before.push(ids[j as int]));
            }
            proof {
                if j < p {
                    assert(ids.take(j + 1) =~= ids.take(j as int).push(ids[j as int]));
                    assert(views(out@) =~= seq![default_name@] + ids.take(j + 1));
                } else if j > p {
                    assert(ids.subrange(p + 1, j + 1) =~= ids.subrange(p + 1, j as int).push(ids[j as int]));
                    assert(views(out@) =~= seq![default_name@] + (ids.take(p as int) + ids.subrange(p + 1, j + 1)));
                } else {
                    assert(ids.take(p as int) + ids.subrange(p + 1, j + 1) =~= ids.take(p as int));
                }
            }
            j = j + 1;
        }
        assert(ids.subrange(p + 1, n as int) =~= ids.skip(p + 1));
        proof {
            assert forall|pp: int| 0 <= pp < identities@.len() && identities@[pp]@ == default_name@
                && (forall|q: int| 0 <= q < pp ==> identities@[q]@ != default_name@)
                implies pp == p by {
                if pp > p {
                    assert(identities@[p as int]@ == default_name@);
                }
            }
        }
    }
    out
}

/// Opening by identity failed: without a password slot there is nothing left
/// to try.
pub fn identity_open_refusal(lockbox_path: &str, has_password_slot: bool) -> (r: Option<CliMessage>)
    ensures
        has_password_slot ==> r is None,
        !has_password_slot ==> (r matches Some(m) && is_plain_error(m, "none of the local vault identities can open "@
            + lockbox_path@ + "; the lockbox has no password access"@)),
{
    if has_password_slot {
        None
    } else {
        let message = text::concat3("none of the local vault identities can open ", lockbox_path,
            "; the lockbox has no password access");
        Some(cli_error(message.as_str()))
    }
}

/// `close --all` is refused; every other value names the lockbox to close.
pub fn close_refusal(lockbox_path: &str) -> (r: Result<(), ApiError>)
    ensures
        lockbox_path@ == "--all"@ ==> (r matches Err(ApiError::InvalidInput(m))
            && m@ == "close --all has been removed; use `lockbox session close-all`"@),
        lockbox_path@ != "--all"@ ==> r is Ok,
{
    if text::str_eq(lockbox_path, "--all") {
        Err(ApiError::InvalidInput(text::owned("close --all has been removed; use `lockbox session close-all`")))
    } else {
        Ok(())
    }
}

/// The line printed after `close`.
pub fn close_report(lockbox_path: &str, was_open: bool) -> (r: String)
    ensures
        r@ == (if was_open { "Lockbox closed: "@ } else { "Lockbox was already closed: "@ }) + lockbox_path@,
{
    if was_open {
        text::concat2("Lockbox closed: ", lockbox_path)
    } else {
        text::concat2("Lockbox was already closed: ", lockbox_path)
    }
}

/// Where `open` reads the lockbox password from.
#[derive(Clone, Debug, PartialEq, Eq)]
pub enum PasswordSource {
    Prompt,
    Variables(String),
    File(String),
    Stdin,
}

/// The number of password-source options given to `open`.
pub open spec fn password_source_count(env_name: Option<&str>, file: Option<&str>, stdin: bool) -> nat {
    (if env_name is Some { 1nat } else { 0nat }) + (if file is Some { 1nat } else { 0nat })
        + (if stdin { 1nat } else { 0nat })
}

/// The password source of `open`: at most one of `--password-env`,
/// `--password-file` and `--password-stdin`; without one, a prompt.
pub fn select_password_source(env_name: Option<&str>, file: Option<&str>, stdin: bool)
    -> (r: Result<PasswordSource, ApiError>)
    ensures
        password_source_count(env_name, file, stdin) > 1 ==> (r matches Err(ApiError::InvalidInput(m))
            && m@ == "choose only one password source for lockbox open"@),
        password_source_count(env_name, file, stdin) <= 1 ==> (r matches Ok(source) && match source {
            PasswordSource::Prompt => env_name is None && file is None && !stdin,
            PasswordSource::Variables(v) => env_name matches Some(e) && v@ == e@,
            PasswordSource::File(v) => file matches Some(f) && v@ == f@,
            PasswordSource::Stdin => stdin,
        }),
{
    let mut source = PasswordSource::Prompt;
    if let Some(e) = env_name {
        source = PasswordSource::Variables(text::owned(e));
    }
    if let Some(f) = file {
        if !matches!(source, PasswordSource::Prompt) {
            return Err(ApiError::InvalidInput(text::owned("choose only one password source for lockbox open")));
        }
        source = PasswordSource::File(text::owned(f));
    }
    if stdin {
        if !matches!(source, PasswordSource::Prompt) {
            return Err(ApiError::InvalidInput(text::owned("choose only one password source for lockbox open")));
        }
        source = PasswordSource::Stdin;
    }
    Ok(source)
}

/// The password held by an environment variable, which must be set.
pub fn password_from_variable(name: &str, value: Option<&str>) -> (r: Result<String, ApiError>)
    ensures
        match value {
            Some(v) => r matches Ok(p) && p@ == v@,
            None => r matches Err(ApiError::InvalidInput(m)) && m@ == "variable is not set: "@ + name@,
        },
{
    match value {
        Some(v) => Ok(text::owned(v)),
        None => Err(ApiError::InvalidInput(text::concat2("variable is not set: ", name))),
    }
}

/// A line-end byte: `\n` or `\r`.
pub open spec fn is_line_end(b: u8) -> bool {
    b == 10 || b == 13
}

/// A password read from a file or standard input, without its trailing line
/// ends.
pub fn strip_line_ends(bytes: &[u8]) -> (r: Vec<u8>)
    ensures
        r@.len() <= bytes@.len(),
        r@ == bytes@.take(r@.len() as int),
        forall|j: int| r@.len() <= j < bytes@.len() ==> is_line_end(#[trigger] bytes@[j]),
        r@.len() > 0 ==> !is_line_end(r@.last()),
{
    let mut k: usize = bytes.len();
    while k > 0 && (bytes[k - 1] == 10u8 || bytes[k - 1] == 13u8)
        invariant
            k <= bytes@.len(),
            forall|j: int| k <= j < bytes@.len() ==> is_line_end(#[trigger] bytes@[j]),
        decreases k,
    {
        k = k - 1;
    }
    let mut out: Vec<u8> = Vec::new();
    let mut i: usize = 0;
    while i < k
        invariant
            i <= k,
            k <= bytes@.len(),
            out@ == bytes@.take(i as int),
        decreases k - i,
    {
        out.push(bytes[i]);
        assert(bytes@.take(i + 1) =~= bytes@.take(i as int).push(bytes@[i as int]));
        i = i + 1;
    }
    out
}

} // verus!
