//! What every command needs before it touches a lockbox: checks of the
//! lockbox path and of positional arguments, and new vault passphrases.

use vstd::prelude::*;
use crate::text;
use crate::messages::{ApiError, CliMessage, cli_error, is_plain_error};

verus! {

/// What the file system said about a lockbox path.
#[derive(Debug)]
pub enum PathStatus {
    File,
    Directory,
    NotFound,
    PermissionDenied,
    /// Any other failure, with its text.
    Failed(String),
}

/// The refusal for each unusable lockbox path.
pub open spec fn access_refusal(path: Seq<char>, status: PathStatus) -> Option<Seq<char>> {
    match status {
        PathStatus::File => None,
        PathStatus::Directory => Some("lockbox path is a directory: "@ + path),
        PathStatus::NotFound => Some("lockbox not found: "@ + path),
        PathStatus::PermissionDenied => Some("permission denied reading lockbox: "@ + path),
        PathStatus::Failed(e) => Some("cannot access lockbox "@ + path + ": "@ + e@),
    }
}

/// Accepts a lockbox path that names a file that can be read.
pub fn ensure_lockbox_path_accessible(path: &str, status: &PathStatus) -> (r: Result<(), CliMessage>)
    ensures
        match access_refusal(path@, *status) {
            None => r is Ok,
            Some(m) => r matches Err(e) && is_plain_error(e, m),
        },
{
    match status {
        PathStatus::File => Ok(()),
        PathStatus::Directory => Err(cli_error(text::concat2("lockbox path is a directory: ", path).as_str())),
        PathStatus::NotFound => Err(cli_error(text::concat2("lockbox not found: ", path).as_str())),
        PathStatus::PermissionDenied => Err(cli_error(text::concat2("permission denied reading lockbox: ", path).as_str())),
        PathStatus::Failed(e) => {
            let mut m = text::concat3("cannot access lockbox ", path, ": ");
            text::push_str(&mut m, e.as_str());
            Err(cli_error(m.as_str()))
        },
    }
}

/// A positional argument that a command requires.
pub fn require_arg<'a>(args: &'a [String], index: usize, name: &str) -> (r: Result<&'a str, ApiError>)
    ensures
        index < args@.len() ==> (r matches Ok(v) && v@ == args@[index as int]@),
        index >= args@.len() ==> (r matches Err(ApiError::InvalidInput(m)) && m@ == "missing "@ + name@),
{
    if index < args.len() {
        Ok(args[index].as_str())
    } else {
        Err(ApiError::InvalidInput(text::concat2("missing ", name)))
    }
}

/// The characters of generated passphrases: digits and lower-case letters
/// without `i`, `l`, `o` and `u`.
pub const PASS_PHRASE_ALPHABET: &'static str = "0123456789abcdefghjkmnpqrstvwxyz";

/// The passphrase written for some random bytes: one character of the
/// alphabet for the low five bits of each byte, in groups of four joined by
/// hyphens.
pub open spec fn pass_phrase_of(bytes: Seq<u8>) -> Seq<char>
    decreases bytes.len(),
{
    if bytes.len() == 0 {
        Seq::empty()
    } else {
        let i = bytes.len() - 1;
        let before = pass_phrase_of(bytes.drop_last());
        let grouped = if i > 0 && i % 4 == 0 { before.push('-') } else { before };
        grouped.push(PASS_PHRASE_ALPHABET@[(bytes.last() % 32) as int])
    }
}

/// The passphrase written for some random bytes.
pub fn pass_phrase_from_bytes(bytes: &[u8]) -> (r: String)
    ensures r@ == pass_phrase_of(bytes@),
{
    proof { reveal_strlit("0123456789abcdefghjkmnpqrstvwxyz"); }
    let alphabet = PASS_PHRASE_ALPHABET;
    let mut out = String::new();
    let n = bytes.len();
    let mut index: usize = 0;
    while index < n
        invariant
            index <= n,
            n == bytes@.len(),
            alphabet@ == PASS_PHRASE_ALPHABET@,
            alphabet@.len() == 32,
            out@ == pass_phrase_of(bytes@.subrange(0, index as int)),
        decreases n - index,
    {
        assert(bytes@.subrange(0, index + 1).drop_last() =~= bytes@.subrange(0, index as int));
        if index > 0 && index % 4 == 0 {
            text::push_char(&mut out, '-');
        }
        let c = alphabet.get_char((bytes[index] % 32) as usize);
        text::push_char(&mut out, c);
        index = index + 1;
    }
    assert(bytes@.subrange(0, n as int) =~= bytes@);
    out
}

/// `getrandom::fill`: fills a buffer with random bytes from the system's
/// source; on failure, the text of the error. Nothing is promised of the
/// bytes but their number.
#[verifier::external_body]
fn fill_random(buf: &mut Vec<u8>) -> (r: Result<(), String>)
    ensures final(buf)@.len() == old(buf)@.len(),
{
    match getrandom::fill(buf.as_mut_slice()) {
        Ok(()) => Ok(()),
        Err(e) => Err(e.to_string()),
    }
}

/// A new random vault passphrase: twenty random characters in five groups.
pub fn generated_vault_pass_phrase() -> (r: Result<String, ApiError>)
    ensures
        r matches Ok(s) ==> exists|b: Seq<u8>| b.len() == 20 && s@ == #[trigger] pass_phrase_of(b),
        r matches Err(e) ==> e is Io,
{
    let mut bytes: Vec<u8> = Vec::new();
    let mut i: usize = 0;
    while i < 20
        invariant
            i <= 20,
            bytes@.len() == i,
        decreases 20 - i,
    {
        bytes.push(0);
        i = i + 1;
    }
    match fill_random(&mut bytes) {
        Ok(()) => {},
        Err(e) => return Err(ApiError::Io(e)),
    }
    let phrase = pass_phrase_from_bytes(bytes.as_slice());
    let ghost drawn = bytes@;
    assert(phrase@ == pass_phrase_of(drawn));
    let mut k: usize = 0;
    while k < bytes.len()
        invariant
            k <= bytes@.len(),
            bytes@.len() == 20,
        decreases bytes@.len() - k,
    {
        bytes.set(k, 0);
        k = k + 1;
    }
    Ok(phrase)
}

proof fn lemma_pass_phrase_len(b: Seq<u8>)
    ensures b.len() > 0 ==> pass_phrase_of(b).len() == b.len() + (b.len() - 1) / 4,
    decreases b.len(),
{
    if b.len() > 1 {
        lemma_pass_phrase_len(b.drop_last());
        let i: int = b.len() - 1;
        assert(i / 4 == (i - 1) / 4 + (if i % 4 == 0 { 1int } else { 0int })) by (nonlinear_arith)
            requires i >= 1;
        let before = pass_phrase_of(b.drop_last());
        assert(before.len() == i + (i - 1) / 4);
        let grouped = if i > 0 && i % 4 == 0 { before.push('-') } else { before };
        assert(grouped.len() == before.len() + (if i % 4 == 0 { 1int } else { 0int }));
        assert(pass_phrase_of(b) == grouped.push(PASS_PHRASE_ALPHABET@[(b.last() % 32) as int]));
    } else if b.len() == 1 {
        assert(pass_phrase_of(b.drop_last()) == Seq::<char>::empty());
    }
}

/// A generated passphrase has 24 characters, so it always meets the minimum
/// length of a new vault passphrase.
pub proof fn lemma_generated_pass_phrase_is_long_enough(b: Seq<u8>)
    requires b.len() == 20,
    ensures
        pass_phrase_of(b).len() == 24,
        pass_phrase_of(b).len() >= 15,
{
    lemma_pass_phrase_len(b);
}

/// The answers that confirm a generated passphrase was stored.
pub fn confirm_generated_vault_pass_phrase_stored(answer: &str) -> (r: bool)
    ensures
        ({
            let a = text::trim(answer@);
            r == (a == "y"@ || a == "Y"@ || a == "yes"@ || a == "YES"@ || a == "Yes"@)
        }),
{
    let a = text::str_trim(answer);
    text::str_eq(a, "y") || text::str_eq(a, "Y") || text::str_eq(a, "yes") || text::str_eq(a, "YES") || text::str_eq(a, "Yes")
}

} // verus!
