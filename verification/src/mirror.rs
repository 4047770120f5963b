//! One-way mirroring of a host directory into a lockbox: the progress line,
//! the update plan and the safety checks before it is applied.

use vstd::prelude::*;
use crate::text;
use crate::output::{byte_len, json_quoted, json_string, row_view};
use crate::records::{FileFingerprint, PlanOperation};
use crate::messages::{CliMessage, cli_error, is_plain_error};

verus! {

/// The progress line of a mirror run, written to the terminal's error stream.
#[derive(Clone, Copy, Debug)]
pub struct MirrorProgress {
    pub enabled: bool,
    /// The line is redrawn in place (a terminal that is not `dumb`).
    pub redraw: bool,
    pub line_width: usize,
    pub line_active: bool,
    pub next_percent: usize,
    pub scanned_files: usize,
    pub scanned_bytes: u64,
}

/// A progress message as shown.
pub open spec fn progress_line(message: Seq<char>) -> Seq<char> {
    "Mirror: "@ + message
}

/// The text of an optional output.
pub open spec fn text_view(o: Option<String>) -> Option<Seq<char>> {
    match o {
        Some(s) => Some(s@),
        None => None,
    }
}

/// `n` spaces.
pub open spec fn spaces(n: nat) -> Seq<char> {
    Seq::new(n, |i: int| ' ')
}

/// What writing a message does: the new state, and the text written (none when
/// progress is off). Without redrawing, each message is a line of its own;
/// with it, the message overwrites the line, padded to clear what was there,
/// and a final message ends the line.
pub open spec fn progress_write(s: MirrorProgress, message: Seq<char>, finish: bool) -> (MirrorProgress, Option<Seq<char>>) {
    let line = progress_line(message);
    if !s.enabled {
        (s, None)
    } else if !s.redraw {
        (s, Some(line.push('\n')))
    } else {
        let w = byte_len(line);
        let pad: nat = if s.line_width > w { (s.line_width - w) as nat } else { 0 };
        let out = seq!['\r'] + line + spaces(pad);
        if finish {
            (MirrorProgress { line_width: 0, line_active: false, ..s }, Some(out.push('\n')))
        } else {
            (MirrorProgress { line_width: if w > s.line_width { w as usize } else { s.line_width }, line_active: true, ..s }, Some(out))
        }
    }
}

/// The percentage of a counted stage, computed with a saturating product.
pub open spec fn percent_of(completed: usize, total: usize) -> nat {
    (if completed * 100 > usize::MAX { usize::MAX as nat } else { (completed * 100) as nat }) / total as nat
}

/// The next percentage to report after `percent`: `next` raised by tens past it.
pub open spec fn next_report(next: nat, percent: nat) -> nat
    decreases (if next > percent { 0 } else { percent + 1 - next }),
{
    if next > percent { next } else { next_report(next + 10, percent) }
}

/// The message of a counted stage.
pub open spec fn counted_message(label: Seq<char>, completed: usize, total: usize, percent: nat) -> Seq<char> {
    label + " "@ + text::dec(completed as nat) + "/"@ + text::dec(total as nat) + " ("@ + text::dec(percent) + "%)"@
}

/// The message shown while host files are being read.
pub open spec fn scan_text(files: usize, size: Seq<char>) -> Seq<char> {
    "scanning ("@ + text::dec(files as nat) + " files complete, "@ + size + " read)."@
}

impl MirrorProgress {
    /// Progress for a run; it redraws its line only on an interactive terminal.
    pub fn new(enabled: bool, interactive_terminal: bool) -> (r: MirrorProgress)
        ensures
            r.enabled == enabled,
            r.redraw == (enabled && interactive_terminal),
            r.line_width == 0,
            !r.line_active,
            r.next_percent == 10,
            r.scanned_files == 0,
            r.scanned_bytes == 0,
    {
        MirrorProgress {
            enabled,
            redraw: enabled && interactive_terminal,
            line_width: 0,
            line_active: false,
            next_percent: 10,
            scanned_files: 0,
            scanned_bytes: 0,
        }
    }

    fn write(&mut self, message: &str, finish: bool) -> (r: Option<String>)
        ensures
            (*final(self), text_view(r)) == progress_write(*old(self), message@, finish),
    {
        if !self.enabled {
            return None;
        }
        let line = text::concat2("Mirror: ", message);
        if !self.redraw {
            let mut out = line;
            text::push_char(&mut out, '\n');
            return Some(out);
        }
        let w = line.as_str().len();
        let padding: usize = if self.line_width > w { self.line_width - w } else { 0 };
        let mut out = String::new();
        text::push_char(&mut out, '\r');
        text::push_str(&mut out, line.as_str());
        let mut i: usize = 0;
        let ghost before = out@;
        while i < padding
            invariant
                i <= padding,
                out@ == before + spaces(i as nat),
            decreases padding - i,
        {
            text::push_char(&mut out, ' ');
            i = i + 1;
            assert(out@ =~= before + spaces(i as nat));
        }
        if finish {
            text::push_char(&mut out, '\n');
            self.line_width = 0;
            self.line_active = false;
        } else {
            if w > self.line_width {
                self.line_width = w;
            }
            self.line_active = true;
        }
        proof {
            let line_spec = progress_line(message@);
            assert(line@ == line_spec);
        }
        Some(out)
    }

    /// Counts bytes read from host files; says whether a report is due, which
    /// it is at most once a second (`second_elapsed`) while progress is on.
    pub fn scanned(&mut self, bytes: usize, second_elapsed: bool) -> (due: bool)
        ensures
            final(self).scanned_bytes == if old(self).scanned_bytes + bytes > u64::MAX { u64::MAX as int } else { old(self).scanned_bytes + bytes },
            *final(self) == (MirrorProgress { scanned_bytes: final(self).scanned_bytes, ..*old(self) }),
            due == (old(self).enabled && second_elapsed),
    {
        self.scanned_bytes = self.scanned_bytes.saturating_add(bytes as u64);
        self.enabled && second_elapsed
    }

    /// The report of bytes read, given their size as text.
    pub fn scan_message(&self, size: &str) -> (r: String)
        ensures r@ == scan_text(self.scanned_files, size@),
    {
        let files = text::decimal(self.scanned_files as u64);
        let mut out = text::concat3("scanning (", files.as_str(), " files complete, ");
        text::push_str(&mut out, size);
        text::push_str(&mut out, " read).");
        out
    }

    /// Counts one more host file read.
    pub fn scanned_file(&mut self)
        requires old(self).scanned_files < usize::MAX,
        ensures *final(self) == (MirrorProgress { scanned_files: (old(self).scanned_files + 1) as usize, ..*old(self) }),
    {
        self.scanned_files = self.scanned_files + 1;
    }

    /// Shows the message of a stage that is under way.
    pub fn stage(&mut self, message: &str) -> (r: Option<String>)
        ensures (*final(self), text_view(r)) == progress_write(*old(self), message@, false),
    {
        self.write(message, false)
    }

    /// Shows the last message of a run and ends the line.
    pub fn finish(&mut self, message: &str) -> (r: Option<String>)
        ensures (*final(self), text_view(r)) == progress_write(*old(self), message@, true),
    {
        self.write(message, true)
    }

    /// Starts a counted stage: percentages are reported from 10% again.
    pub fn begin_counted(&mut self, message: &str) -> (r: Option<String>)
        ensures
            (*final(self), text_view(r)) == progress_write(
                MirrorProgress { next_percent: 10, ..*old(self) }, message@, false),
    {
        self.next_percent = 10;
        self.stage(message)
    }

    /// Reports a counted stage at each further tenth, and when it completes.
    pub fn counted(&mut self, label: &str, completed: usize, total: usize) -> (r: Option<String>)
        requires
            old(self).enabled && total > 0 ==> percent_of(completed, total) + 10 <= usize::MAX,
            old(self).next_percent <= usize::MAX - 10,
        ensures
            !old(self).enabled || total == 0 ==> r is None && *final(self) == *old(self),
            old(self).enabled && total > 0 ==> {
                let p = percent_of(completed, total);
                if p >= old(self).next_percent || completed == total {
                    let (after, out) = progress_write(*old(self), counted_message(label@, completed, total, p), false);
                    &&& text_view(r) == out
                    &&& *final(self) == (MirrorProgress { next_percent: next_report(old(self).next_percent as nat, p) as usize, ..after })
                } else {
                    r is None && *final(self) == *old(self)
                }
            },
    {
        if !self.enabled || total == 0 {
            return None;
        }
        let product: usize = if completed > usize::MAX / 100 { usize::MAX } else { completed * 100 };
        let percent = product / total;
        if percent >= self.next_percent || completed == total {
            let mut message = text::owned(label);
            text::push_str(&mut message, " ");
            let c = text::decimal(completed as u64);
            text::push_str(&mut message, c.as_str());
            text::push_str(&mut message, "/");
            let t = text::decimal(total as u64);
            text::push_str(&mut message, t.as_str());
            text::push_str(&mut message, " (");
            let p = text::decimal(percent as u64);
            text::push_str(&mut message, p.as_str());
            text::push_str(&mut message, "%)");
            assert(percent as nat == percent_of(completed, total));
            assert(message@ == counted_message(label@, completed, total, percent as nat));
            let out = self.write(message.as_str(), false);
            let ghost start = self.next_percent as nat;
            let ghost after = *self;
            while self.next_percent <= percent
                invariant
                    percent + 10 <= usize::MAX,
                    next_report(self.next_percent as nat, percent as nat) == next_report(start, percent as nat),
                    *self == (MirrorProgress { next_percent: self.next_percent, ..after }),
                decreases (if self.next_percent > percent { 0 } else { percent + 1 - self.next_percent }),
            {
                self.next_percent = self.next_percent + 10;
            }
            return out;
        }
        None
    }

    /// What ends an unfinished progress line when the run is over.
    pub fn closing(&self) -> (r: Option<String>)
        ensures
            self.redraw && self.line_active ==> (r matches Some(s) && s@ == seq!['\n']),
            !(self.redraw && self.line_active) ==> r is None,
    {
        if self.redraw && self.line_active {
            let mut out = String::new();
            text::push_char(&mut out, '\n');
            Some(out)
        } else {
            None
        }
    }
}

/// The counts of a mirror update plan.
#[derive(Clone, Copy, Debug)]
pub struct MirrorPlan {
    pub additions: usize,
    pub replacements: usize,
    pub removals: usize,
    pub unchanged: usize,
    pub directories: usize,
    pub removed_files: usize,
}

/// What the lockbox holds at a mirrored path.
#[derive(Debug)]
pub enum MirrorEntry {
    Missing,
    /// A directory, with the number of files below it.
    Directory { files: usize },
    /// A file, with its length and the SHA-256 of its content as hex.
    File { len: u64, digest: String },
    /// Anything else, such as a link.
    Other,
}

/// Room in every count for `extra` more.
pub open spec fn has_room(p: MirrorPlan, extra: nat) -> bool {
    &&& p.additions + extra <= usize::MAX
    &&& p.replacements + extra <= usize::MAX
    &&& p.removals + extra <= usize::MAX
    &&& p.unchanged + extra <= usize::MAX
    &&& p.directories + extra <= usize::MAX
    &&& p.removed_files + extra <= usize::MAX
}

/// The plan for a source directory: the operations to perform at its
/// destination, and the new counts.
pub open spec fn directory_step(p: MirrorPlan, existing: MirrorEntry) -> (MirrorPlan, Seq<PlanOperation>) {
    match existing {
        MirrorEntry::Missing => (MirrorPlan { directories: (p.directories + 1) as usize, ..p }, seq![PlanOperation::MakeDirectory]),
        MirrorEntry::Directory { .. } => (p, Seq::empty()),
        _ => (MirrorPlan {
            removed_files: (p.removed_files + 1) as usize,
            removals: (p.removals + 1) as usize,
            directories: (p.directories + 1) as usize,
            ..p
        }, seq![PlanOperation::Remove, PlanOperation::MakeDirectory]),
    }
}

/// The plan for a source file: added where nothing is, put in place of a
/// directory or other entry, replaced where the lockbox's copy differs in
/// length or content, and left alone where it is the same.
pub open spec fn file_step(p: MirrorPlan, len: u64, digest: Seq<char>, existing: MirrorEntry) -> (MirrorPlan, Seq<PlanOperation>) {
    match existing {
        MirrorEntry::Missing => (MirrorPlan { additions: (p.additions + 1) as usize, ..p }, seq![PlanOperation::Add]),
        MirrorEntry::Directory { files } => (MirrorPlan {
            removed_files: (p.removed_files + files) as usize,
            removals: (p.removals + 1) as usize,
            additions: (p.additions + 1) as usize,
            ..p
        }, seq![PlanOperation::Remove, PlanOperation::Add]),
        MirrorEntry::Other => (MirrorPlan {
            removed_files: (p.removed_files + 1) as usize,
            removals: (p.removals + 1) as usize,
            additions: (p.additions + 1) as usize,
            ..p
        }, seq![PlanOperation::Remove, PlanOperation::Add]),
        MirrorEntry::File { len: stored_len, digest: stored } => if stored_len == len && stored@ == digest {
            (MirrorPlan { unchanged: (p.unchanged + 1) as usize, ..p }, Seq::empty())
        } else {
            (MirrorPlan { replacements: (p.replacements + 1) as usize, ..p }, seq![PlanOperation::Replace])
        },
    }
}

impl MirrorPlan {
    /// An empty plan.
    pub fn new() -> (r: MirrorPlan)
        ensures
            r.additions == 0 && r.replacements == 0 && r.removals == 0,
            r.unchanged == 0 && r.directories == 0 && r.removed_files == 0,
    {
        MirrorPlan { additions: 0, replacements: 0, removals: 0, unchanged: 0, directories: 0, removed_files: 0 }
    }

    /// Plans the mirror's destination itself: it is created unless it is the
    /// lockbox root or already exists.
    pub fn plan_destination(&mut self, destination: &str, exists: bool) -> (ops: Vec<PlanOperation>)
        requires has_room(*old(self), 1),
        ensures
            destination@ != "/"@ && !exists ==> *final(self) == (MirrorPlan { directories: (old(self).directories + 1) as usize, ..*old(self) })
                && ops@ == seq![PlanOperation::MakeDirectory],
            !(destination@ != "/"@ && !exists) ==> *final(self) == *old(self) && ops@.len() == 0,
    {
        let mut ops: Vec<PlanOperation> = Vec::new();
        if !text::str_eq(destination, "/") && !exists {
            self.directories = self.directories + 1;
            ops.push(PlanOperation::MakeDirectory);
        }
        ops
    }

    /// Plans a directory of the source.
    pub fn plan_directory(&mut self, existing: &MirrorEntry) -> (ops: Vec<PlanOperation>)
        requires has_room(*old(self), 1),
        ensures (*final(self), ops@) == directory_step(*old(self), *existing),
    {
        let mut ops: Vec<PlanOperation> = Vec::new();
        match existing {
            MirrorEntry::Missing => {
                self.directories = self.directories + 1;
                ops.push(PlanOperation::MakeDirectory);
            },
            MirrorEntry::Directory { .. } => {},
            _ => {
                self.removed_files = self.removed_files + 1;
                self.removals = self.removals + 1;
                ops.push(PlanOperation::Remove);
                self.directories = self.directories + 1;
                ops.push(PlanOperation::MakeDirectory);
            },
        }
        proof {
            let (p, o) = directory_step(*old(self), *existing);
            assert(ops@ =~= o);
        }
        ops
    }

    /// Plans a file of the source, given its fingerprint.
    pub fn plan_file(&mut self, fingerprint: &FileFingerprint, existing: &MirrorEntry) -> (ops: Vec<PlanOperation>)
        requires
            has_room(*old(self), 1),
            *existing matches MirrorEntry::Directory { files } ==> old(self).removed_files + files <= usize::MAX,
        ensures (*final(self), ops@) == file_step(*old(self), fingerprint.len, fingerprint.digest@, *existing),
    {
        let mut ops: Vec<PlanOperation> = Vec::new();
        match existing {
            MirrorEntry::Missing => {
                self.additions = self.additions + 1;
                ops.push(PlanOperation::Add);
            },
            MirrorEntry::Directory { files } => {
                self.removed_files = self.removed_files + *files;
                self.removals = self.removals + 1;
                ops.push(PlanOperation::Remove);
                self.additions = self.additions + 1;
                ops.push(PlanOperation::Add);
            },
            MirrorEntry::Other => {
                self.removed_files = self.removed_files + 1;
                self.removals = self.removals + 1;
                ops.push(PlanOperation::Remove);
                self.additions = self.additions + 1;
                ops.push(PlanOperation::Add);
            },
            MirrorEntry::File { len, digest } => {
                if *len == fingerprint.len && text::str_eq(digest.as_str(), fingerprint.digest.as_str()) {
                    self.unchanged = self.unchanged + 1;
                } else {
                    self.replacements = self.replacements + 1;
                    ops.push(PlanOperation::Replace);
                }
            },
        }
        proof {
            let (p, o) = file_step(*old(self), fingerprint.len, fingerprint.digest@, *existing);
            assert(ops@ =~= o);
        }
        ops
    }

    /// Plans the removal of a lockbox entry that the source no longer has: a
    /// directory removes the files below it, anything else one file.
    pub fn plan_missing(&mut self, is_directory: bool, files: usize)
        requires
            has_room(*old(self), 1),
            old(self).removed_files + files <= usize::MAX,
        ensures
            *final(self) == (MirrorPlan {
                removals: (old(self).removals + 1) as usize,
                removed_files: (old(self).removed_files + if is_directory { files as nat } else { 1nat }) as usize,
                ..*old(self)
            }),
    {
        self.removals = self.removals + 1;
        self.removed_files = self.removed_files + if is_directory { files } else { 1 };
    }
}

/// Whether the plan removes a lockbox entry below the destination: only
/// under the Remove policy, never the destination itself (an empty relative
/// path), never an entry that the source still has, and never one below a
/// removal already planned.
pub open spec fn removal_planned(policy: MissingFilePolicy, relative: Seq<char>, in_source: bool, under_planned: bool) -> bool {
    policy == MissingFilePolicy::Remove && relative.len() > 0 && !in_source && !under_planned
}

/// The choice of the last step of planning: whether a lockbox entry is removed.
pub fn plans_removal(policy: MissingFilePolicy, relative: &str, in_source: bool, under_planned: bool) -> (r: bool)
    ensures r == removal_planned(policy, relative@, in_source, under_planned),
{
    matches!(policy, MissingFilePolicy::Remove) && relative.unicode_len() > 0 && !in_source && !under_planned
}

/// The safety options of an update.
#[derive(Clone, Copy, Debug)]
pub struct MirrorUpdateOptions {
    pub allow_empty: bool,
    pub allow_large_delete: bool,
}

/// A plan deletes more than half of the files that the mirror manages.
pub open spec fn is_large_delete(removed_files: usize, destination_files: usize) -> bool {
    destination_files > 0 && removed_files * 100 > destination_files * 50
}

/// Refuses a plan that deletes more than half of the managed files, unless
/// that was allowed.
pub fn validate_large_delete(plan: &MirrorPlan, options: MirrorUpdateOptions, destination_files: usize) -> (r: Result<(), CliMessage>)
    requires
        plan.removed_files * 100 <= usize::MAX,
        destination_files * 50 <= usize::MAX,
    ensures
        !options.allow_large_delete && is_large_delete(plan.removed_files, destination_files) ==> (r matches Err(m)
            && is_plain_error(m, "mirror update would delete "@ + text::dec(plan.removed_files as nat) + " of "@
                + text::dec(destination_files as nat) + " managed files; pass --allow-large-delete"@)),
        !(!options.allow_large_delete && is_large_delete(plan.removed_files, destination_files)) ==> r is Ok,
{
    if !options.allow_large_delete && destination_files > 0 && plan.removed_files * 100 > destination_files * 50 {
        let removed = text::decimal(plan.removed_files as u64);
        let total = text::decimal(destination_files as u64);
        let mut message = text::concat3("mirror update would delete ", removed.as_str(), " of ");
        text::push_str(&mut message, total.as_str());
        text::push_str(&mut message, " managed files; pass --allow-large-delete");
        return Err(cli_error(message.as_str()));
    }
    Ok(())
}

/// The warnings shown with a status report, for updates that would be
/// blocked: an empty source that would remove entries, and a large delete.
pub fn status_warnings(plan: &MirrorPlan, files_empty: bool, destination_files: usize) -> (r: Vec<String>)
    requires
        plan.removed_files * 100 <= usize::MAX,
        destination_files * 50 <= usize::MAX,
    ensures
        ({
            let empty = files_empty && plan.removals > 0;
            let large = is_large_delete(plan.removed_files, destination_files);
            let first: Seq<Seq<char>> = if empty { seq!["no source files match; update requires --allow-empty."@] } else { Seq::empty() };
            let second: Seq<Seq<char>> = if large {
                seq!["removing "@ + text::dec(plan.removed_files as nat) + " of "@ + text::dec(destination_files as nat)
                    + " managed files requires --allow-large-delete."@]
            } else {
                Seq::empty()
            };
            r@.map_values(|s: String| s@) == first + second
        }),
{
    let mut out: Vec<String> = Vec::new();
    if files_empty && plan.removals > 0 {
        out.push(text::owned("no source files match; update requires --allow-empty."));
    }
    let ghost after_first = out@.map_values(|s: String| s@);
    if destination_files > 0 && plan.removed_files * 100 > destination_files * 50 {
        let removed = text::decimal(plan.removed_files as u64);
        let total = text::decimal(destination_files as u64);
        let mut message = text::concat3("removing ", removed.as_str(), " of ");
        text::push_str(&mut message, total.as_str());
        text::push_str(&mut message, " managed files requires --allow-large-delete.");
        out.push(message);
    }
    proof {
        let empty = files_empty && plan.removals > 0;
        let first: Seq<Seq<char>> = if empty { seq!["no source files match; update requires --allow-empty."@] } else { Seq::empty() };
        assert(after_first =~= first);
    }
    assert(out@.map_values(|s: String| s@) =~= {
        let empty = files_empty && plan.removals > 0;
        let large = is_large_delete(plan.removed_files, destination_files);
        let first: Seq<Seq<char>> = if empty { seq!["no source files match; update requires --allow-empty."@] } else { Seq::empty() };
        let second: Seq<Seq<char>> = if large {
            seq!["removing "@ + text::dec(plan.removed_files as nat) + " of "@ + text::dec(destination_files as nat)
                + " managed files requires --allow-large-delete."@]
        } else {
            Seq::empty()
        };
        first + second
    });
    out
}

/// The paths of a stored plan, by operation, in the order the plan lists them.
#[derive(Debug)]
pub struct PlanPaths {
    pub add: Vec<String>,
    pub replace: Vec<String>,
    pub make_directory: Vec<String>,
    pub remove: Vec<String>,
}

/// Each path behind a label.
pub open spec fn labelled(label: Seq<char>, paths: Seq<Seq<char>>) -> Seq<Seq<char>> {
    paths.map_values(|p: Seq<char>| label + p)
}

/// A JSON array of path strings.
pub open spec fn json_array(paths: Seq<Seq<char>>) -> Seq<char> {
    "["@ + crate::output::joined(paths.map_values(|p: Seq<char>| json_quoted(p)), ","@) + "]"@
}

/// The report of a plan in JSON: one object line.
pub open spec fn plan_json(plan: MirrorPlan, source: Seq<char>, destination: Seq<char>, paths: PlanPaths) -> Seq<char> {
    "{\"source\":"@ + json_quoted(source) + ",\"destination\":"@ + json_quoted(destination)
        + ",\"add\":"@ + json_array(row_view(paths.add@))
        + ",\"replace\":"@ + json_array(row_view(paths.replace@))
        + ",\"create_directory\":"@ + json_array(row_view(paths.make_directory@))
        + ",\"remove\":"@ + json_array(row_view(paths.remove@))
        + ",\"remove_file_count\":"@ + text::dec(plan.removed_files as nat)
        + ",\"unchanged\":"@ + text::dec(plan.unchanged as nat) + "}"@
}

/// The report of a plan as tab-separated lines: one per path, then the
/// count of unchanged files.
pub open spec fn plan_tsv(plan: MirrorPlan, paths: PlanPaths) -> Seq<Seq<char>> {
    labelled("add\t"@, row_view(paths.add@)) + labelled("replace\t"@, row_view(paths.replace@))
        + labelled("create-directory\t"@, row_view(paths.make_directory@))
        + labelled("remove\t"@, row_view(paths.remove@))
        + seq!["unchanged\t"@ + text::dec(plan.unchanged as nat)]
}

/// The report of a plan for reading: the counts, then the entries to remove
/// when there are any.
pub open spec fn plan_summary(plan: MirrorPlan, project: Seq<char>, source: Seq<char>, paths: PlanPaths) -> Seq<Seq<char>> {
    seq![
        "Mirror status for '"@ + project + "'"@,
        ""@,
        "  source:    "@ + source,
        "  add:       "@ + text::dec(plan.additions as nat) + " files"@,
        "  replace:   "@ + text::dec(plan.replacements as nat) + " files"@,
        "  mkdir:     "@ + text::dec(plan.directories as nat) + " directories"@,
        "  remove:    "@ + text::dec(plan.removed_files as nat) + " files"@,
        "  unchanged: "@ + text::dec(plan.unchanged as nat) + " files"@
    ] + if plan.removals > 0 {
        seq![""@, "Entries to remove:"@] + labelled("  "@, row_view(paths.remove@))
    } else {
        Seq::empty()
    }
}

pub(crate) fn push_labelled(out: &mut Vec<String>, label: &str, paths: &Vec<String>)
    ensures row_view(final(out)@) == row_view(old(out)@) + labelled(label@, row_view(paths@)),
{
    let n = paths.len();
    let mut i: usize = 0;
    while i < n
        invariant
            i <= n,
            n == paths@.len(),
            row_view(out@) == row_view(old(out)@) + labelled(label@, row_view(paths@.subrange(0, i as int))),
        decreases n - i,
    {
        let ghost prev = out@;
        out.push(text::concat2(label, paths[i].as_str()));
        proof {
            assert(row_view(out@) =~= row_view(prev).push(label@ + paths@[i as int]@));
            assert(labelled(label@, row_view(paths@.subrange(0, i + 1))) =~= labelled(label@, row_view(paths@.subrange(0, i as int))).push(label@ + paths@[i as int]@));
        }
        i = i + 1;
    }
    assert(paths@.subrange(0, n as int) =~= paths@);
}

pub(crate) fn push_json_array(out: &mut String, paths: &Vec<String>)
    ensures final(out)@ == old(out)@ + json_array(row_view(paths@)),
{
    let n = paths.len();
    let mut quoted: Vec<String> = Vec::new();
    let mut i: usize = 0;
    while i < n
        invariant
            i <= n,
            n == paths@.len(),
            quoted@.len() == i,
            forall|k: int| 0 <= k < i ==> #[trigger] quoted@[k]@ == json_quoted(paths@[k]@),
        decreases n - i,
    {
        quoted.push(json_string(paths[i].as_str()));
        i = i + 1;
    }
    assert(row_view(quoted@) =~= row_view(paths@).map_values(|p: Seq<char>| json_quoted(p)));
    let body = crate::output::join_strings(quoted.as_slice(), ",");
    text::push_str(out, "[");
    text::push_str(out, body.as_str());
    text::push_str(out, "]");
}

fn count_line(label: &str, n: usize, unit: &str) -> (r: String)
    ensures r@ == label@ + text::dec(n as nat) + unit@,
{
    let d = text::decimal(n as u64);
    text::concat3(label, d.as_str(), unit)
}

/// The lines that report a plan: `json` gives one object line, `tsv` one
/// line per planned path, anything else the summary for reading.
pub fn plan_report(plan: &MirrorPlan, project: &str, source: &str, destination: &str, format: &str, paths: &PlanPaths) -> (r: Vec<String>)
    ensures
        format@ == "json"@ ==> row_view(r@) == seq![plan_json(*plan, source@, destination@, *paths)],
        format@ == "tsv"@ ==> row_view(r@) == plan_tsv(*plan, *paths),
        format@ != "json"@ && format@ != "tsv"@ ==> row_view(r@) == plan_summary(*plan, project@, source@, *paths),
{
    proof {
        reveal_strlit("json");
        reveal_strlit("tsv");
        assert("json"@.len() != "tsv"@.len());
    }
    let mut out: Vec<String> = Vec::new();
    if text::str_eq(format, "json") {
        let mut line = text::owned("{\"source\":");
        let q = json_string(source);
        text::push_str(&mut line, q.as_str());
        text::push_str(&mut line, ",\"destination\":");
        let q = json_string(destination);
        text::push_str(&mut line, q.as_str());
        text::push_str(&mut line, ",\"add\":");
        push_json_array(&mut line, &paths.add);
        text::push_str(&mut line, ",\"replace\":");
        push_json_array(&mut line, &paths.replace);
        text::push_str(&mut line, ",\"create_directory\":");
        push_json_array(&mut line, &paths.make_directory);
        text::push_str(&mut line, ",\"remove\":");
        push_json_array(&mut line, &paths.remove);
        let d = text::decimal(plan.removed_files as u64);
        text::push_str(&mut line, ",\"remove_file_count\":");
        text::push_str(&mut line, d.as_str());
        let d = text::decimal(plan.unchanged as u64);
        text::push_str(&mut line, ",\"unchanged\":");
        text::push_str(&mut line, d.as_str());
        text::push_str(&mut line, "}");
        out.push(line);
        assert(row_view(out@) =~= seq![plan_json(*plan, source@, destination@, *paths)]);
        return out;
    }
    if text::str_eq(format, "tsv") {
        push_labelled(&mut out, "add\t", &paths.add);
        push_labelled(&mut out, "replace\t", &paths.replace);
        push_labelled(&mut out, "create-directory\t", &paths.make_directory);
        push_labelled(&mut out, "remove\t", &paths.remove);
        let ghost before = out@;
        let d = text::decimal(plan.unchanged as u64);
        out.push(text::concat2("unchanged\t", d.as_str()));
        assert(row_view(out@) =~= row_view(before) + seq!["unchanged\t"@ + text::dec(plan.unchanged as nat)]);
        assert(row_view(out@) =~= plan_tsv(*plan, *paths));
        return out;
    }
    out.push(text::concat3("Mirror status for '", project, "'"));
    out.push(text::owned(""));
    out.push(text::concat2("  source:    ", source));
    out.push(count_line("  add:       ", plan.additions, " files"));
    out.push(count_line("  replace:   ", plan.replacements, " files"));
    out.push(count_line("  mkdir:     ", plan.directories, " directories"));
    out.push(count_line("  remove:    ", plan.removed_files, " files"));
    out.push(count_line("  unchanged: ", plan.unchanged, " files"));
    let ghost head = row_view(out@);
    if plan.removals > 0 {
        out.push(text::owned(""));
        out.push(text::owned("Entries to remove:"));
        push_labelled(&mut out, "  ", &paths.remove);
    }
    assert(row_view(out@) =~= plan_summary(*plan, project@, source@, *paths));
    out
}

/// The rules that a removal keeps: those not among the patterns.
pub open spec fn kept_rules(rules: Seq<Seq<char>>, patterns: Seq<Seq<char>>) -> Seq<Seq<char>>
    decreases rules.len(),
{
    if rules.len() == 0 {
        Seq::empty()
    } else {
        let kept = kept_rules(rules.drop_last(), patterns);
        if patterns.contains(rules.last()) { kept } else { kept.push(rules.last()) }
    }
}

proof fn lemma_kept_len(rules: Seq<Seq<char>>, patterns: Seq<Seq<char>>)
    ensures
        kept_rules(rules, patterns).len() <= rules.len(),
        kept_rules(rules, patterns).len() == rules.len() <==> forall|i: int| 0 <= i < rules.len() ==> !patterns.contains(#[trigger] rules[i]),
    decreases rules.len(),
{
    if rules.len() > 0 {
        lemma_kept_len(rules.drop_last(), patterns);
        assert forall|i: int| 0 <= i < rules.drop_last().len() implies rules.drop_last()[i] == #[trigger] rules[i] by {}
    }
}

fn remove_rules(rules: &[String], patterns: &[String]) -> (r: Vec<String>)
    ensures crate::glob::string_views(r@) == kept_rules(crate::glob::string_views(rules@), crate::glob::string_views(patterns@)),
{
    let ghost pv = crate::glob::string_views(patterns@);
    let mut out: Vec<String> = Vec::new();
    let n = rules.len();
    let mut i: usize = 0;
    while i < n
        invariant
            i <= n,
            n == rules@.len(),
            pv == crate::glob::string_views(patterns@),
            crate::glob::string_views(out@) == kept_rules(crate::glob::string_views(rules@.subrange(0, i as int)), pv),
        decreases n - i,
    {
        assert(crate::glob::string_views(rules@.subrange(0, i + 1)).drop_last() =~= crate::glob::string_views(rules@.subrange(0, i as int)));
        let mut listed = false;
        let mut j: usize = 0;
        while j < patterns.len()
            invariant
                j <= patterns@.len(),
                pv == crate::glob::string_views(patterns@),
                listed <==> pv.subrange(0, j as int).contains(rules@[i as int]@),
                i < n,
                n == rules@.len(),
            decreases patterns@.len() - j,
        {
            let ghost pre = pv.subrange(0, j as int);
            assert(pv.subrange(0, j + 1) =~= pre.push(pv[j as int]));
            if text::str_eq(patterns[j].as_str(), rules[i].as_str()) {
                listed = true;
                assert(pre.push(pv[j as int])[j as int] == rules@[i as int]@);
            } else {
                assert(pre.push(pv[j as int]).contains(rules@[i as int]@) ==> pre.contains(rules@[i as int]@)) by {
                    if pre.push(pv[j as int]).contains(rules@[i as int]@) {
                        let k = choose|k: int| 0 <= k < pre.len() + 1 && pre.push(pv[j as int])[k] == rules@[i as int]@;
                        assert(k < pre.len());
                        assert(pre[k] == rules@[i as int]@);
                    }
                }
            }
            j = j + 1;
        }
        assert(pv.subrange(0, pv.len() as int) =~= pv);
        if !listed {
            let ghost before = crate::glob::string_views(out@);
            out.push(rules[i].clone());
            assert(crate::glob::string_views(out@) =~= before.push(rules@[i as int]@));
        }
        i = i + 1;
    }
    assert(rules@.subrange(0, n as int) =~= rules@);
    out
}

fn copy_strings(v: &[String]) -> (r: Vec<String>)
    ensures crate::glob::string_views(r@) == crate::glob::string_views(v@),
{
    let mut out: Vec<String> = Vec::new();
    let mut i: usize = 0;
    while i < v.len()
        invariant
            i <= v@.len(),
            crate::glob::string_views(out@) == crate::glob::string_views(v@.subrange(0, i as int)),
        decreases v@.len() - i,
    {
        let c = v[i].clone();
        assert(c@ == v@[i as int]@);
        let ghost before = crate::glob::string_views(out@);
        out.push(c);
        assert(crate::glob::string_views(out@) =~= before.push(v@[i as int]@));
        assert(crate::glob::string_views(v@.subrange(0, i + 1)) =~= crate::glob::string_views(v@.subrange(0, i as int)).push(v@[i as int]@));
        i = i + 1;
    }
    assert(v@.subrange(0, v@.len() as int) =~= v@);
    out
}

/// Edits a mirror's rules: `add` puts patterns into the include rules (for
/// `include`) or the exclude rules (otherwise), sorted and without repeats;
/// `remove` takes them out and is refused when none was stored; `clear`
/// empties the include rules, the exclude rules or `all` of them. The new
/// include and exclude rules are returned.
pub fn edit_rules(includes: &[String], excludes: &[String], action: &str, kind: Option<&str>, patterns: &[String])
    -> (r: Result<(Vec<String>, Vec<String>), CliMessage>)
    requires
        action@ == "clear"@ && kind is Some ==> kind->0@ == "include"@ || kind->0@ == "exclude"@ || kind->0@ == "all"@,
    ensures
        ({
            let inc = crate::glob::string_views(includes@);
            let exc = crate::glob::string_views(excludes@);
            let pats = crate::glob::string_views(patterns@);
            match kind {
                None => r matches Err(m) && is_plain_error(m, "rule kind is required"@),
                Some(k) => {
                    let on_includes = k@ == "include"@;
                    let target = if on_includes { inc } else { exc };
                    if action@ == "add"@ {
                        r matches Ok((ni, ne)) && ({
                            let (changed, same, other) = if on_includes {
                                (crate::glob::string_views(ni@), crate::glob::string_views(ne@), exc)
                            } else {
                                (crate::glob::string_views(ne@), crate::glob::string_views(ni@), inc)
                            };
                            &&& same == other
                            &&& crate::glob::strictly_sorted(changed)
                            &&& forall|x: Seq<char>| changed.contains(x) <==> (target.contains(x) || pats.contains(x))
                        })
                    } else if action@ == "remove"@ {
                        if kept_rules(target, pats).len() == target.len() {
                            r matches Err(m) && is_plain_error(m, "none of the supplied rules were stored"@)
                        } else {
                            r matches Ok((ni, ne)) && if on_includes {
                                crate::glob::string_views(ni@) == kept_rules(inc, pats) && crate::glob::string_views(ne@) == exc
                            } else {
                                crate::glob::string_views(ni@) == inc && crate::glob::string_views(ne@) == kept_rules(exc, pats)
                            }
                        }
                    } else if action@ == "clear"@ {
                        r matches Ok((ni, ne))
                            && ni@.len() == (if k@ == "exclude"@ { includes@.len() } else { 0 })
                            && ne@.len() == (if k@ == "include"@ { excludes@.len() } else { 0 })
                            && (k@ == "exclude"@ ==> crate::glob::string_views(ni@) == inc)
                            && (k@ == "include"@ ==> crate::glob::string_views(ne@) == exc)
                    } else {
                        r matches Err(m) && is_plain_error(m, "unknown rule action: "@ + action@)
                    }
                },
            }
        }),
{
    proof {
        reveal_strlit("include");
        reveal_strlit("exclude");
        reveal_strlit("all");
        assert("include"@[0] == 'i' && "exclude"@[0] == 'e');
        assert("include"@ != "exclude"@);
    }
    let k = match kind {
        None => return Err(cli_error("rule kind is required")),
        Some(k) => k,
    };
    let on_includes = text::str_eq(k, "include");
    let mut inc: Vec<String> = copy_strings(includes);
    let mut exc: Vec<String> = copy_strings(excludes);
    proof {
        assert(crate::glob::string_views(inc@) =~= crate::glob::string_views(includes@));
        assert(crate::glob::string_views(exc@) =~= crate::glob::string_views(excludes@));
        assert(crate::glob::string_views(inc@).len() == inc@.len());
        assert(crate::glob::string_views(exc@).len() == exc@.len());
        assert(crate::glob::string_views(includes@).len() == includes@.len());
        assert(crate::glob::string_views(excludes@).len() == excludes@.len());
    }
    if text::str_eq(action, "add") {
        let target = if on_includes { &mut inc } else { &mut exc };
        let mut t: usize = 0;
        let ghost base = crate::glob::string_views(target@);
        while t < patterns.len()
            invariant
                t <= patterns@.len(),
                crate::glob::string_views(target@) == base + crate::glob::string_views(patterns@.subrange(0, t as int)),
            decreases patterns@.len() - t,
        {
            let c = patterns[t].clone();
            assert(c@ == patterns@[t as int]@);
            let ghost before = crate::glob::string_views(target@);
            target.push(c);
            assert(crate::glob::string_views(target@) =~= before.push(patterns@[t as int]@));
            assert(crate::glob::string_views(patterns@.subrange(0, t + 1)) =~= crate::glob::string_views(patterns@.subrange(0, t as int)).push(patterns@[t as int]@));
            t = t + 1;
        }
        assert(patterns@.subrange(0, patterns@.len() as int) =~= patterns@);
        let ghost joined = crate::glob::string_views(target@);
        crate::glob::normalize(target);
        proof {
            assert forall|x: Seq<char>| joined.contains(x) <==> (base.contains(x) || crate::glob::string_views(patterns@).contains(x)) by {
                let pv = crate::glob::string_views(patterns@);
                if joined.contains(x) {
                    let q = choose|q: int| 0 <= q < joined.len() && joined[q] == x;
                    if q < base.len() {
                        assert(base[q] == x);
                    } else {
                        assert(pv[q - base.len()] == x);
                    }
                }
                if base.contains(x) {
                    let q = choose|q: int| 0 <= q < base.len() && base[q] == x;
                    assert(joined[q] == x);
                }
                if pv.contains(x) {
                    let q = choose|q: int| 0 <= q < pv.len() && pv[q] == x;
                    assert(joined[base.len() + q] == x);
                }
            }
        }
        return Ok((inc, exc));
    }
    if text::str_eq(action, "remove") {
        let target = if on_includes { inc.as_slice() } else { exc.as_slice() };
        let kept = remove_rules(target, patterns);
        proof { lemma_kept_len(crate::glob::string_views(target@), crate::glob::string_views(patterns@)); }
        if kept.len() == target.len() {
            return Err(cli_error("none of the supplied rules were stored"));
        }
        if on_includes {
            return Ok((kept, exc));
        } else {
            return Ok((inc, kept));
        }
    }
    if text::str_eq(action, "clear") {
        if text::str_eq(k, "include") {
            return Ok((Vec::new(), exc));
        } else if text::str_eq(k, "exclude") {
            return Ok((inc, Vec::new()));
        } else {
            return Ok((Vec::new(), Vec::new()));
        }
    }
    Err(cli_error(text::concat2("unknown rule action: ", action).as_str()))
}

/// Rule values as listed for reading, indented, or the placeholder when
/// there are none.
pub open spec fn rule_values(values: Seq<Seq<char>>, empty: Seq<char>) -> Seq<Seq<char>> {
    if values.len() == 0 { seq!["    "@ + empty] } else { labelled("    "@, values) }
}

/// The listing of a mirror's rules: `json` gives one object line (a kind
/// that is not shown is `null`), `tsv` one line per rule, anything else the
/// rules for reading. A kind of `include` or `exclude` shows only those rules.
pub open spec fn rule_listing(includes: Seq<Seq<char>>, excludes: Seq<Seq<char>>, kind: Option<Seq<char>>, format: Seq<char>) -> Seq<Seq<char>> {
    let show_includes = kind != Some("exclude"@);
    let show_excludes = kind != Some("include"@);
    if format == "json"@ {
        seq!["{\"exclude\":"@ + (if show_excludes { json_array(excludes) } else { "null"@ })
            + ",\"include\":"@ + (if show_includes { json_array(includes) } else { "null"@ }) + "}"@]
    } else if format == "tsv"@ {
        (if show_includes { labelled("include\t"@, includes) } else { Seq::empty() })
            + (if show_excludes { labelled("exclude\t"@, excludes) } else { Seq::empty() })
    } else {
        (if show_includes { seq!["include:"@] + rule_values(includes, "(all source paths)"@) } else { Seq::empty() })
            + (if show_excludes { seq!["exclude:"@] + rule_values(excludes, "(none)"@) } else { Seq::empty() })
    }
}

pub(crate) fn push_rule_values(out: &mut Vec<String>, values: &Vec<String>, empty: &str)
    ensures row_view(final(out)@) == row_view(old(out)@) + rule_values(row_view(values@), empty@),
{
    if values.len() == 0 {
        let ghost before = out@;
        out.push(text::concat2("    ", empty));
        assert(row_view(out@) =~= row_view(before) + rule_values(row_view(values@), empty@));
    } else {
        push_labelled(out, "    ", values);
    }
}

/// The lines that list a mirror's rules.
pub fn rule_list_lines(includes: &Vec<String>, excludes: &Vec<String>, kind: Option<&str>, format: &str) -> (r: Vec<String>)
    ensures row_view(r@) == rule_listing(row_view(includes@), row_view(excludes@),
        match kind { Some(k) => Some(k@), None => None }, format@),
{
    proof {
        reveal_strlit("json");
        reveal_strlit("tsv");
        assert("json"@.len() != "tsv"@.len());
    }
    let show_includes = match kind { Some(k) => !text::str_eq(k, "exclude"), None => true };
    let show_excludes = match kind { Some(k) => !text::str_eq(k, "include"), None => true };
    let mut out: Vec<String> = Vec::new();
    if text::str_eq(format, "json") {
        let mut line = text::owned("{\"exclude\":");
        if show_excludes {
            push_json_array(&mut line, excludes);
        } else {
            text::push_str(&mut line, "null");
        }
        text::push_str(&mut line, ",\"include\":");
        if show_includes {
            push_json_array(&mut line, includes);
        } else {
            text::push_str(&mut line, "null");
        }
        text::push_str(&mut line, "}");
        out.push(line);
        assert(row_view(out@) =~= rule_listing(row_view(includes@), row_view(excludes@),
            match kind { Some(k) => Some(k@), None => None }, format@));
        return out;
    }
    if text::str_eq(format, "tsv") {
        if show_includes {
            push_labelled(&mut out, "include\t", includes);
        }
        let ghost mid = out@;
        if show_excludes {
            push_labelled(&mut out, "exclude\t", excludes);
        }
        assert(row_view(out@) =~= rule_listing(row_view(includes@), row_view(excludes@),
            match kind { Some(k) => Some(k@), None => None }, format@));
        return out;
    }
    if show_includes {
        out.push(text::owned("include:"));
        assert(row_view(out@) =~= seq!["include:"@]);
        push_rule_values(&mut out, includes, "(all source paths)");
    }
    let ghost first: Seq<Seq<char>> = if show_includes { seq!["include:"@] + rule_values(row_view(includes@), "(all source paths)"@) } else { Seq::empty() };
    assert(row_view(out@) =~= first);
    if show_excludes {
        let ghost before = out@;
        out.push(text::owned("exclude:"));
        assert(row_view(out@) =~= row_view(before) + seq!["exclude:"@]);
        push_rule_values(&mut out, excludes, "(none)");
    }
    assert(row_view(out@) =~= rule_listing(row_view(includes@), row_view(excludes@),
        match kind { Some(k) => Some(k@), None => None }, format@));
    out
}

/// `yes` or `no`.
pub fn yes_no(value: bool) -> (r: &'static str)
    ensures r@ == if value { "yes"@ } else { "no"@ },
{
    if value { "yes" } else { "no" }
}

/// What becomes of lockbox entries whose source file is gone.
#[derive(Clone, Copy, Debug, PartialEq, Eq, Structural)]
pub enum MissingFilePolicy {
    Remove,
    Retain,
}

/// The name of a policy.
pub fn policy_name(policy: MissingFilePolicy) -> (r: &'static str)
    ensures r@ == match policy { MissingFilePolicy::Remove => "remove"@, MissingFilePolicy::Retain => "retain"@ },
{
    match policy {
        MissingFilePolicy::Remove => "remove",
        MissingFilePolicy::Retain => "retain",
    }
}

/// The words that cannot name a mirror project because they are commands.
pub open spec fn reserved_project_names() -> Seq<Seq<char>> {
    seq!["create"@, "projects"@, "info"@, "status"@, "update"@, "configure"@, "rebind"@, "forget"@,
        "delete"@, "destroy"@, "delete-project"@, "rule"@, "rules"@, "add"@, "extract"@, "cat"@,
        "list"@, "ls"@, "remove"@, "rm"@, "move"@, "mv"@, "rename"@, "help"@]
}

/// Refuses a project name that is also a mirror command.
pub fn validate_project_action_name(name: &str) -> (r: Result<(), CliMessage>)
    ensures
        reserved_project_names().contains(name@) ==> (r matches Err(m) && is_plain_error(m,
            "mirror project name '"@ + name@ + "' conflicts with a command"@)),
        !reserved_project_names().contains(name@) ==> r is Ok,
{
    let reserved: [&'static str; 24] = ["create", "projects", "info", "status", "update", "configure", "rebind", "forget",
        "delete", "destroy", "delete-project", "rule", "rules", "add", "extract", "cat",
        "list", "ls", "remove", "rm", "move", "mv", "rename", "help"];
    let ghost names = reserved@.map_values(|s: &str| s@);
    assert(names =~= reserved_project_names());
    let mut i: usize = 0;
    while i < 24
        invariant
            i <= 24,
            names == reserved@.map_values(|s: &str| s@),
            names == reserved_project_names(),
            names.len() == 24,
            forall|k: int| 0 <= k < i ==> names[k] != name@,
        decreases 24 - i,
    {
        if text::str_eq(reserved[i], name) {
            assert(names[i as int] == name@);
            assert(names.contains(name@));
            return Err(cli_error(text::concat3("mirror project name '", name, "' conflicts with a command").as_str()));
        }
        i = i + 1;
    }
    assert(!names.contains(name@));
    Ok(())
}

/// The lockbox path of a project file: below the destination, when one is
/// given, joined by a single slash.
pub open spec fn joined_destination(destination: Option<Seq<char>>, relative: Seq<char>) -> Seq<char> {
    match destination {
        Some(d) => text::trim_end_char(d, '/') + "/"@ + text::trim_start_char(relative, '/'),
        None => relative,
    }
}

/// The lockbox path of a project file below an optional destination.
pub fn join_relative_destination(destination: Option<&str>, relative: &str) -> (r: String)
    ensures r@ == joined_destination(match destination { Some(d) => Some(d@), None => None }, relative@),
{
    match destination {
        Some(d) => text::concat3(text::trim_end_matches_char(d, '/'), "/", text::trim_start_matches_char(relative, '/')),
        None => text::owned(relative),
    }
}

/// A lockbox path relative to a mirror's destination.
pub open spec fn relative_to(root: Seq<char>, path: Seq<char>) -> Seq<char> {
    if root == "/"@ {
        text::trim_start_char(path, '/')
    } else if text::has_prefix(path, root) {
        text::trim_start_char(path.subrange(root.len() as int, path.len() as int), '/')
    } else {
        text::trim_start_char(path, '/')
    }
}

/// A lockbox path relative to a mirror's destination.
pub fn relative_lockbox_path(root: &str, path: &str) -> (r: String)
    ensures r@ == relative_to(root@, path@),
{
    if text::str_eq(root, "/") {
        text::owned(text::trim_start_matches_char(path, '/'))
    } else {
        let rest = match text::strip_prefix(path, root) {
            Some(t) => t,
            None => path,
        };
        text::owned(text::trim_start_matches_char(rest, '/'))
    }
}

/// A host path written with `/` between its components.
pub fn slash_path(components: &[String]) -> (r: String)
    ensures r@ == crate::output::joined(crate::output::row_view(components@), "/"@),
{
    crate::output::join_strings(components, "/")
}

} // verus!
