//! The check, before a mirror update is committed, that the source still is
//! what was scanned: what each host entry met on the second walk means, and
//! which changes refuse the commit.

use vstd::prelude::*;
use crate::text;
use crate::messages::{CliMessage, cli_error, is_plain_error};

verus! {

/// What a host directory entry is.
#[derive(Clone, Copy, Debug, PartialEq, Eq, Structural)]
pub enum HostEntryKind {
    Symlink,
    Directory,
    File,
    /// A socket, device or other special file.
    Other,
}

/// What the source scan recorded for a relative path.
#[derive(Clone, Copy, Debug, PartialEq, Eq, Structural)]
pub enum RecordedSource {
    Absent,
    /// A file, with the length and modification time that were scanned.
    File { len: u64, modified_nanos: Option<u128> },
    /// A directory.
    Directory,
}

/// A change of the source that refuses the commit.
#[derive(Clone, Copy, Debug, PartialEq, Eq, Structural)]
pub enum SourceChange {
    NewEntry,
    SymbolicLink,
    NewFile,
    FileReplacedEntry,
    FileChanged,
    Unsupported,
    Removed,
}

/// What to do with one host entry of the second walk.
#[derive(Clone, Copy, Debug, PartialEq, Eq, Structural)]
pub enum SourceEntryStep {
    /// Ignored or excluded, or a file that the include rules leave out.
    Skip,
    /// A directory: mark it seen (only without include rules), then walk it.
    Directory { mark_seen: bool },
    /// A file that the rules take: mark its directories seen, then check it.
    File,
    Refuse(SourceChange),
}

/// The meaning of one host entry: ignored and excluded entries are skipped,
/// a symbolic link or a special file refuses, a directory is walked and a
/// file is checked when the include rules take it.
pub open spec fn source_entry_step(ignored: bool, excluded: bool, kind: HostEntryKind, includes_empty: bool,
    included: bool) -> SourceEntryStep {
    if ignored || excluded {
        SourceEntryStep::Skip
    } else {
        match kind {
            HostEntryKind::Symlink => SourceEntryStep::Refuse(SourceChange::SymbolicLink),
            HostEntryKind::Directory => SourceEntryStep::Directory { mark_seen: includes_empty },
            HostEntryKind::File => if included { SourceEntryStep::File } else { SourceEntryStep::Skip },
            HostEntryKind::Other => SourceEntryStep::Refuse(SourceChange::Unsupported),
        }
    }
}

/// What to do with one host entry of the second walk.
pub fn check_source_entry(ignored: bool, excluded: bool, kind: HostEntryKind, includes_empty: bool, included: bool)
    -> (r: SourceEntryStep)
    ensures r == source_entry_step(ignored, excluded, kind, includes_empty, included),
{
    if ignored || excluded {
        SourceEntryStep::Skip
    } else {
        match kind {
            HostEntryKind::Symlink => SourceEntryStep::Refuse(SourceChange::SymbolicLink),
            HostEntryKind::Directory => SourceEntryStep::Directory { mark_seen: includes_empty },
            HostEntryKind::File => if included { SourceEntryStep::File } else { SourceEntryStep::Skip },
            HostEntryKind::Other => SourceEntryStep::Refuse(SourceChange::Unsupported),
        }
    }
}

/// Marking a path seen: a path that the scan did not record is a new entry.
pub fn seen_check(in_source: bool) -> (r: Option<SourceChange>)
    ensures r == (if in_source { None } else { Some(SourceChange::NewEntry) }),
{
    if in_source { None } else { Some(SourceChange::NewEntry) }
}

/// Whether a file's content has to be hashed again: always in strict mode,
/// else when its length or modification time differs from the scan.
pub open spec fn needs_rehash(strict: bool, recorded_len: u64, recorded_modified: Option<u128>, len: u64,
    modified: Option<u128>) -> bool {
    strict || !(recorded_len == len && recorded_modified == modified)
}

/// A file of the second walk against what the scan recorded for its path: a
/// path with no record is a new file, a path recorded as a directory was
/// replaced by a file; otherwise whether its content has to be hashed again.
pub fn recorded_file_check(recorded: RecordedSource, len: u64, modified: Option<u128>, strict: bool)
    -> (r: Result<bool, SourceChange>)
    ensures
        match recorded {
            RecordedSource::Absent => r == Err::<bool, SourceChange>(SourceChange::NewFile),
            RecordedSource::Directory => r == Err::<bool, SourceChange>(SourceChange::FileReplacedEntry),
            RecordedSource::File { len: l, modified_nanos: mn } => r == Ok::<bool, SourceChange>(
                needs_rehash(strict, l, mn, len, modified)),
        },
{
    match recorded {
        RecordedSource::Absent => Err(SourceChange::NewFile),
        RecordedSource::Directory => Err(SourceChange::FileReplacedEntry),
        RecordedSource::File { len: l, modified_nanos: mn } => {
            let same_time = match (mn, modified) {
                (Some(a), Some(b)) => a == b,
                (None, None) => true,
                _ => false,
            };
            Ok(strict || !(l == len && same_time))
        },
    }
}

/// A file hashed again must have the digest of the scan.
pub fn content_check(expected_digest: &str, digest: &str) -> (r: Option<SourceChange>)
    ensures r == (if expected_digest@ == digest@ { None } else { Some(SourceChange::FileChanged) }),
{
    if text::str_eq(expected_digest, digest) { None } else { Some(SourceChange::FileChanged) }
}

/// After the walk, every recorded path must have been seen again.
pub fn removed_check(seen: bool) -> (r: Option<SourceChange>)
    ensures r == (if seen { None } else { Some(SourceChange::Removed) }),
{
    if seen { None } else { Some(SourceChange::Removed) }
}

/// The message of a source change; `subject` is the relative path (for a
/// new or removed entry) or the host path.
pub open spec fn source_change_summary(c: SourceChange, subject: Seq<char>) -> Seq<char> {
    match c {
        SourceChange::NewEntry => "source changed while updating the mirror; new entry found: "@ + subject,
        SourceChange::SymbolicLink => "source changed while updating the mirror; symbolic link found: "@ + subject,
        SourceChange::NewFile => "source changed while updating the mirror; new file found: "@ + subject,
        SourceChange::FileReplacedEntry =>
            "source changed while updating the mirror; file replaced another entry: "@ + subject,
        SourceChange::FileChanged => "source file changed while updating the mirror: "@ + subject,
        SourceChange::Unsupported => "source changed while updating the mirror; unsupported entry found: "@ + subject,
        SourceChange::Removed => "source changed while updating the mirror; entry was removed: "@ + subject,
    }
}

/// The diagnostic of a source change.
pub fn source_change_message(c: SourceChange, subject: &str) -> (r: CliMessage)
    ensures is_plain_error(r, source_change_summary(c, subject@)),
{
    let prefix = match c {
        SourceChange::NewEntry => "source changed while updating the mirror; new entry found: ",
        SourceChange::SymbolicLink => "source changed while updating the mirror; symbolic link found: ",
        SourceChange::NewFile => "source changed while updating the mirror; new file found: ",
        SourceChange::FileReplacedEntry => "source changed while updating the mirror; file replaced another entry: ",
        SourceChange::FileChanged => "source file changed while updating the mirror: ",
        SourceChange::Unsupported => "source changed while updating the mirror; unsupported entry found: ",
        SourceChange::Removed => "source changed while updating the mirror; entry was removed: ",
    };
    let summary = text::concat2(prefix, subject);
    cli_error(summary.as_str())
}

/// Outside strict mode, a file whose length and modification time match the
/// scan is never hashed again; in strict mode every file is.
pub proof fn lemma_rehash_only_when_needed(l: u64, mn: Option<u128>)
    ensures
        !needs_rehash(false, l, mn, l, mn),
        needs_rehash(true, l, mn, l, mn),
{
}

/// Why the source scan refuses an entry.
#[derive(Clone, Copy, Debug, PartialEq, Eq, Structural)]
pub enum ScanRefusal {
    SymbolicLink,
    Unsupported,
    NotUtf8,
    DuplicatePath,
}

/// The message of a refused scan; `subject` is the host path, or the
/// relative path of a duplicate.
pub open spec fn scan_refusal_summary(r: ScanRefusal, subject: Seq<char>) -> Seq<char> {
    match r {
        ScanRefusal::SymbolicLink => "symbolic links are not supported by mirror projects: "@ + subject,
        ScanRefusal::Unsupported => "unsupported source entry type: "@ + subject,
        ScanRefusal::NotUtf8 => "source path is not valid UTF-8: "@ + subject,
        ScanRefusal::DuplicatePath => "duplicate source path while scanning: "@ + subject,
    }
}

/// The refusal of the source scan for an entry step: the scan walks entries
/// with the same steps as the check, and refuses a symbolic link or a special
/// file with its own words.
pub open spec fn scan_refusal_of(step: SourceEntryStep) -> Option<ScanRefusal> {
    match step {
        SourceEntryStep::Refuse(SourceChange::SymbolicLink) => Some(ScanRefusal::SymbolicLink),
        SourceEntryStep::Refuse(_) => Some(ScanRefusal::Unsupported),
        _ => None,
    }
}

/// The diagnostic of a refused scan.
pub fn scan_refusal_message(r: ScanRefusal, subject: &str) -> (m: CliMessage)
    ensures is_plain_error(m, scan_refusal_summary(r, subject@)),
{
    let prefix = match r {
        ScanRefusal::SymbolicLink => "symbolic links are not supported by mirror projects: ",
        ScanRefusal::Unsupported => "unsupported source entry type: ",
        ScanRefusal::NotUtf8 => "source path is not valid UTF-8: ",
        ScanRefusal::DuplicatePath => "duplicate source path while scanning: ",
    };
    let summary = text::concat2(prefix, subject);
    cli_error(summary.as_str())
}

/// The directories above a relative `/`-separated path, nearest first: each
/// prefix before a `/`.
pub open spec fn ancestor_directories(rel: Seq<char>) -> Seq<Seq<char>>
    decreases rel.len(),
{
    match text::rfind_char(rel, '/') {
        None => Seq::empty(),
        Some(k) => {
            proof { text::lemma_rfind_char(rel, '/'); }
            seq![rel.subrange(0, k)] + ancestor_directories(rel.subrange(0, k))
        },
    }
}

/// The directories above a file of the source, which the scan records and
/// the check marks seen.
pub fn ancestors_of(rel: &str) -> (r: Vec<String>)
    ensures r@.map_values(|s: String| s@) == ancestor_directories(rel@),
{
    let mut out: Vec<String> = Vec::new();
    let mut cur: &str = rel;
    loop
        invariant
            out@.map_values(|s: String| s@) + ancestor_directories(cur@) == ancestor_directories(rel@),
        ensures
            out@.map_values(|s: String| s@) == ancestor_directories(rel@),
        decreases cur@.len(),
    {
        match text::rfind_char_index(cur, '/') {
            None => {
                assert(out@.map_values(|s: String| s@) + ancestor_directories(cur@)
                    =~= out@.map_values(|s: String| s@));
                break;
            },
            Some(k) => {
                proof { text::lemma_rfind_char(cur@, '/'); }
                let parent = cur.substring_char(0, k);
                let ghost before = out@.map_values(|s: String| s@);
                out.push(text::owned(parent));
                assert(out@.map_values(|s: String| s@) =~= before.push(parent@));
                assert(before.push(parent@) + ancestor_directories(parent@)
                    =~= before + (seq![parent@] + ancestor_directories(parent@)));
                cur = parent;
            },
        }
    }
    out
}

} // verus!
