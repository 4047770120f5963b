//! Adding, listing and extracting lockbox entries: stored-path construction,
//! directory listings and the summary of an add.

use vstd::prelude::*;
use crate::text;
use crate::paths;
use crate::messages::{ApiError, CliMessage, Failure, cli_error, is_plain_error};

verus! {

/// The kind of a stored entry.
#[derive(Clone, Copy, Debug, PartialEq, Eq, Structural)]
pub enum EntryKind {
    File,
    Symlink,
    Directory,
}

pub open spec fn kind_text(k: EntryKind) -> Seq<char> {
    match k {
        EntryKind::File => "file"@,
        EntryKind::Symlink => "symlink"@,
        EntryKind::Directory => "directory"@,
    }
}

/// The listing name of an entry kind.
pub fn kind_name(kind: EntryKind) -> (r: &'static str)
    ensures r@ == kind_text(kind),
{
    match kind {
        EntryKind::File => "file",
        EntryKind::Symlink => "symlink",
        EntryKind::Directory => "directory",
    }
}

/// Counts of the files an add stored.
#[derive(Clone, Copy, Debug, PartialEq, Eq, Structural)]
pub struct AddOutcome {
    pub added: usize,
    pub replaced: usize,
}

impl AddOutcome {
    /// An outcome with nothing added.
    pub fn new() -> (r: AddOutcome)
        ensures r.added == 0 && r.replaced == 0,
    {
        AddOutcome { added: 0, replaced: 0 }
    }

    /// Counts one stored file, as replaced or as newly added.
    pub fn record_file(&mut self, replaced: bool)
        requires
            replaced ==> old(self).replaced < usize::MAX,
            !replaced ==> old(self).added < usize::MAX,
        ensures
            final(self).added == old(self).added + (if replaced { 0int } else { 1int }),
            final(self).replaced == old(self).replaced + (if replaced { 1int } else { 0int }),
    {
        if replaced {
            self.replaced = self.replaced + 1;
        } else {
            self.added = self.added + 1;
        }
    }

    /// Adds the counts of another outcome.
    pub fn merge(&mut self, other: AddOutcome)
        requires
            old(self).added + other.added <= usize::MAX,
            old(self).replaced + other.replaced <= usize::MAX,
        ensures
            final(self).added == old(self).added + other.added,
            final(self).replaced == old(self).replaced + other.replaced,
    {
        self.added = self.added + other.added;
        self.replaced = self.replaced + other.replaced;
    }
}

/// Recording files one by one and merging the outcomes of parts gives the same
/// counts as recording all of them into one outcome.
pub proof fn lemma_merge_is_additive(a: AddOutcome, b: AddOutcome, c: AddOutcome)
    ensures
        (a.added + b.added) + c.added == a.added + (b.added + c.added),
        (a.replaced + b.replaced) + c.replaced == a.replaced + (b.replaced + c.replaced),
        a.added + 0 == a.added && a.replaced + 0 == a.replaced,
{
}

/// `singular` for a count of one, `plural` otherwise.
pub fn plural<'a>(count: usize, singular: &'a str, plural_form: &'a str) -> (r: &'a str)
    ensures r@ == if count == 1 { singular@ } else { plural_form@ },
{
    if count == 1 {
        singular
    } else {
        plural_form
    }
}

pub open spec fn files_word(n: usize) -> Seq<char> {
    if n == 1 { "file"@ } else { "files"@ }
}

/// The sentence that reports an add.
pub open spec fn add_outcome_text(o: AddOutcome, lockbox: Seq<char>) -> Seq<char> {
    if o.replaced == 0 {
        "Added "@ + text::dec(o.added as nat) + " "@ + files_word(o.added) + " to "@ + lockbox + "."@
    } else if o.added == 0 {
        "Replaced "@ + text::dec(o.replaced as nat) + " "@ + files_word(o.replaced) + " in "@ + lockbox + "."@
    } else {
        "Added "@ + text::dec(o.added as nat) + " "@ + files_word(o.added) + " and replaced "@
            + text::dec(o.replaced as nat) + " "@ + files_word(o.replaced) + " in "@ + lockbox + "."@
    }
}

/// The sentence that reports an add.
pub fn add_outcome_message(outcome: &AddOutcome, lockbox_path: &str) -> (r: String)
    ensures r@ == add_outcome_text(*outcome, lockbox_path@),
{
    let mut out = String::new();
    if outcome.replaced == 0 {
        text::push_str(&mut out, "Added ");
        let n = text::decimal(outcome.added as u64);
        text::push_str(&mut out, n.as_str());
        text::push_str(&mut out, " ");
        text::push_str(&mut out, plural(outcome.added, "file", "files"));
        text::push_str(&mut out, " to ");
    } else if outcome.added == 0 {
        text::push_str(&mut out, "Replaced ");
        let n = text::decimal(outcome.replaced as u64);
        text::push_str(&mut out, n.as_str());
        text::push_str(&mut out, " ");
        text::push_str(&mut out, plural(outcome.replaced, "file", "files"));
        text::push_str(&mut out, " in ");
    } else {
        text::push_str(&mut out, "Added ");
        let n = text::decimal(outcome.added as u64);
        text::push_str(&mut out, n.as_str());
        text::push_str(&mut out, " ");
        text::push_str(&mut out, plural(outcome.added, "file", "files"));
        text::push_str(&mut out, " and replaced ");
        let m = text::decimal(outcome.replaced as u64);
        text::push_str(&mut out, m.as_str());
        text::push_str(&mut out, " ");
        text::push_str(&mut out, plural(outcome.replaced, "file", "files"));
        text::push_str(&mut out, " in ");
    }
    text::push_str(&mut out, lockbox_path);
    text::push_str(&mut out, ".");
    assert(out@ =~= add_outcome_text(*outcome, lockbox_path@));
    out
}

/// A stored path given on the command line, rooted at `/`.
pub open spec fn rooted(value: Seq<char>) -> Seq<char> {
    if value.len() > 0 && value[0] == '/' { value } else { seq!['/'] + value }
}

/// The stored path that a command-line value names: the value itself when it
/// starts with `/`, otherwise the value under `/`.
pub fn cli_lockbox_path(value: &str) -> (r: String)
    ensures r@ == rooted(value@),
{
    if value.unicode_len() > 0 && value.get_char(0) == '/' {
        text::owned(value)
    } else {
        let r = text::concat2("/", value);
        proof { reveal_strlit("/"); }
        assert(r@ =~= seq!['/'] + value@);
        r
    }
}

/// The stored path of `leaf` inside a stored directory.
pub open spec fn leaf_path(directory: Seq<char>, leaf: Seq<char>) -> Seq<char> {
    if directory == seq!['/'] {
        seq!['/'] + leaf
    } else {
        text::trim_end_char(directory, '/') + seq!['/'] + leaf
    }
}

/// The stored path of `leaf` inside the stored directory `directory`.
pub fn join_lockbox_leaf(directory: &str, leaf: &str) -> (r: String)
    ensures r@ == leaf_path(directory@, leaf@),
{
    proof { reveal_strlit("/"); }
    assert("/"@ =~= seq!['/']);
    if text::str_eq(directory, "/") {
        let r = text::concat2("/", leaf);
        assert(r@ =~= seq!['/'] + leaf@);
        r
    } else {
        let r = text::concat3(text::trim_end_matches_char(directory, '/'), "/", leaf);
        assert(r@ =~= text::trim_end_char(directory@, '/') + seq!['/'] + leaf@);
        r
    }
}

/// The name under which a host file is added: its final path component.
pub open spec fn source_name_of(source: Seq<char>) -> Result<Seq<char>, Seq<char>> {
    match paths::file_name_of(source) {
        Some(n) => Ok(n),
        None => Err("source path is not valid UTF-8: "@ + source),
    }
}

/// The final component of a host source path; a path without one (such as
/// `/` or one ending in `..`) is refused.
pub fn source_file_name(source: &str) -> (r: Result<String, ApiError>)
    ensures
        match source_name_of(source@) {
            Ok(n) => r matches Ok(v) && v@ == n,
            Err(m) => r matches Err(ApiError::UnsupportedHostPath(e)) && e@ == m,
        },
{
    match paths::file_name(source) {
        Some(n) => Ok(n),
        None => Err(ApiError::UnsupportedHostPath(text::concat2("source path is not valid UTF-8: ", source))),
    }
}

/// Where an added source goes: a directory to the destination (the root by
/// default); a file to the destination, inside it when several sources are
/// added or it ends with `/`, and by its own name at the root by default.
pub open spec fn add_destination_of(source: Seq<char>, is_directory: bool, source_count: nat, destination: Option<Seq<char>>)
    -> Result<Seq<char>, Seq<char>>
{
    match destination {
        None => if is_directory {
            Ok(seq!['/'])
        } else {
            match source_name_of(source) {
                Ok(n) => Ok(rooted(n)),
                Err(m) => Err(m),
            }
        },
        Some(d) => if is_directory {
            Ok(rooted(d))
        } else if source_count > 1 || (d.len() > 0 && d.last() == '/') {
            match source_name_of(source) {
                Ok(n) => Ok(leaf_path(rooted(d), n)),
                Err(m) => Err(m),
            }
        } else {
            Ok(rooted(d))
        },
    }
}

/// The stored path that an added source goes to.
pub fn add_destination(source: &str, is_directory: bool, source_count: usize, destination: Option<&str>) -> (r: Result<String, ApiError>)
    ensures
        match add_destination_of(source@, is_directory, source_count as nat, match destination { Some(d) => Some(d@), None => None }) {
            Ok(p) => r matches Ok(v) && v@ == p,
            Err(m) => r matches Err(ApiError::UnsupportedHostPath(e)) && e@ == m,
        },
{
    match destination {
        None => {
            if is_directory {
                let r = text::owned("/");
                proof { reveal_strlit("/"); }
                assert(r@ =~= seq!['/']);
                Ok(r)
            } else {
                match source_file_name(source) {
                    Ok(n) => Ok(cli_lockbox_path(n.as_str())),
                    Err(e) => Err(e),
                }
            }
        },
        Some(d) => {
            let destination_path = cli_lockbox_path(d);
            if is_directory {
                return Ok(destination_path);
            }
            let n = d.unicode_len();
            if source_count > 1 || (n > 0 && d.get_char(n - 1) == '/') {
                match source_file_name(source) {
                    Ok(name) => Ok(join_lockbox_leaf(destination_path.as_str(), name.as_str())),
                    Err(e) => Err(e),
                }
            } else {
                Ok(destination_path)
            }
        },
    }
}

/// A host source of an add and the stored path it goes to.
#[derive(Clone, Debug)]
pub struct AddSource {
    pub path: String,
    pub destination: String,
    pub is_directory: bool,
}

/// What the host says a source path is.
#[derive(Clone, Debug)]
pub enum SourceStatus {
    File,
    Directory,
    /// Something that is neither a file nor a directory.
    Other,
    NotFound,
    /// The metadata could not be read, with the error's text.
    Failed(String),
}

/// Why one source of an add is refused, given whether it is a directory.
pub open spec fn source_refusal(value: Seq<char>, is_directory: bool, count: nat, recursive: bool) -> Option<Seq<char>> {
    if is_directory && !recursive {
        Some("source is a directory: "@ + value + "; pass --recursive to import its files"@)
    } else if is_directory && count > 1 {
        Some("add directory sources separately so their stored roots are unambiguous"@)
    } else {
        None
    }
}

/// A source can be added: it is a file or a directory, it is not refused,
/// and it has a destination.
pub open spec fn source_ok(value: Seq<char>, status: SourceStatus, count: nat, destination: Option<Seq<char>>, recursive: bool) -> bool {
    let d = status is Directory;
    &&& (status is File || status is Directory)
    &&& source_refusal(value, d, count, recursive) is None
    &&& add_destination_of(value, d, count, destination) is Ok
}

/// The first source from `i` on that cannot be added, or the number of
/// sources when all can.
pub open spec fn first_bad_source(values: Seq<String>, statuses: Seq<SourceStatus>, destination: Option<Seq<char>>,
    recursive: bool, i: int) -> int
    decreases values.len() - i,
{
    if i < 0 || i >= values.len() {
        values.len() as int
    } else if !source_ok(values[i]@, statuses[i], values.len(), destination, recursive) {
        i
    } else {
        first_bad_source(values, statuses, destination, recursive, i + 1)
    }
}

/// The first index from `j` on whose destination repeats an earlier one, or
/// the length when none does.
pub open spec fn first_repeat(dests: Seq<Seq<char>>, j: int) -> int
    decreases dests.len() - j,
{
    if j < 0 || j >= dests.len() {
        dests.len() as int
    } else if dests.subrange(0, j).contains(dests[j]) {
        j
    } else {
        first_repeat(dests, j + 1)
    }
}

/// The sources of an add, with where each goes; `statuses` says what each
/// source is on the host. Refused: several sources with a `--to` that does
/// not end in `/`; the first source that is missing, unreadable, neither a
/// file nor a directory, or a directory where none is allowed; and two
/// sources that go to the same path.
pub fn prepare_add_sources(values: &[String], statuses: &[SourceStatus], destination: Option<&str>, recursive: bool)
    -> (r: Result<Vec<AddSource>, Failure>)
    requires statuses@.len() == values@.len(),
    ensures
        ({
            let n = values@.len();
            let dv = match destination { Some(d) => Some(d@), None => None };
            let bad_to = n > 1 && (destination matches Some(d) && !(d@.len() > 0 && d@.last() == '/'));
            let k = first_bad_source(values@, statuses@, dv, recursive, 0);
            &&& bad_to ==> (r matches Err(Failure::Message(m))
                && is_plain_error(m, "--to must end with / when adding multiple sources"@))
            &&& !bad_to && k < n ==> match statuses@[k] {
                SourceStatus::Other => r matches Err(Failure::Api(ApiError::UnsupportedHostPath(e))) && e@ == values@[k]@,
                SourceStatus::NotFound => r matches Err(Failure::Message(m))
                    && is_plain_error(m, "file not found: "@ + values@[k]@),
                SourceStatus::Failed(t) => r matches Err(Failure::Message(m))
                    && is_plain_error(m, "cannot access source "@ + values@[k]@ + ": "@ + t@),
                _ => {
                    let d = statuses@[k] is Directory;
                    match source_refusal(values@[k]@, d, n, recursive) {
                        Some(t) => r matches Err(Failure::Message(m)) && is_plain_error(m, t),
                        None => match add_destination_of(values@[k]@, d, n, dv) {
                            Err(t) => r matches Err(Failure::Api(ApiError::UnsupportedHostPath(e))) && e@ == t,
                            Ok(_) => false,
                        },
                    }
                },
            }
            &&& !bad_to && k >= n ==> {
                let dests = Seq::new(n, |i: int| add_destination_of(values@[i]@, statuses@[i] is Directory, n, dv)->Ok_0);
                let j = first_repeat(dests, 0);
                &&& j < n ==> (r matches Err(Failure::Message(m))
                    && is_plain_error(m, "multiple sources map to the same lockbox path: "@ + dests[j]))
                &&& j >= n ==> (r matches Ok(sources) && sources@.len() == n
                    && forall|i: int| 0 <= i < n ==> (#[trigger] sources@[i]).path@ == values@[i]@
                        && sources@[i].destination@ == dests[i] && sources@[i].is_directory == (statuses@[i] is Directory))
            }
        }),
{
    let n = values.len();
    let ghost dv = match destination { Some(d) => Some(d@), None => None };
    match destination {
        Some(d) => {
            let m = d.unicode_len();
            if n > 1 && !(m > 0 && d.get_char(m - 1) == '/') {
                return Err(Failure::Message(cli_error("--to must end with / when adding multiple sources")));
            }
        },
        None => {},
    }
    let mut sources: Vec<AddSource> = Vec::new();
    let mut i: usize = 0;
    while i < n
        invariant
            i <= n,
            n == values@.len(),
            statuses@.len() == n,
            !(n > 1 && (destination matches Some(d) && !(d@.len() > 0 && d@.last() == '/'))),
            dv == match destination { Some(d) => Some(d@), None => None },
            first_bad_source(values@, statuses@, dv, recursive, 0) == first_bad_source(values@, statuses@, dv, recursive, i as int),
            sources@.len() == i,
            forall|k: int| 0 <= k < i ==> (#[trigger] sources@[k]).path@ == values@[k]@
                && sources@[k].is_directory == (statuses@[k] is Directory)
                && add_destination_of(values@[k]@, statuses@[k] is Directory, n as nat, dv) == Ok::<Seq<char>, Seq<char>>(sources@[k].destination@),
        decreases n - i,
    {
        let v = values[i].as_str();
        let is_directory = match &statuses[i] {
            SourceStatus::File => false,
            SourceStatus::Directory => true,
            SourceStatus::Other => return Err(Failure::Api(ApiError::UnsupportedHostPath(text::owned(v)))),
            SourceStatus::NotFound => return Err(Failure::Message(cli_error(text::concat2("file not found: ", v).as_str()))),
            SourceStatus::Failed(e) => {
                let mut m = text::concat3("cannot access source ", v, ": ");
                text::push_str(&mut m, e.as_str());
                return Err(Failure::Message(cli_error(m.as_str())));
            },
        };
        if is_directory && !recursive {
            let mut m = text::concat2("source is a directory: ", v);
            text::push_str(&mut m, "; pass --recursive to import its files");
            return Err(Failure::Message(cli_error(m.as_str())));
        }
        if is_directory && n > 1 {
            return Err(Failure::Message(cli_error("add directory sources separately so their stored roots are unambiguous")));
        }
        let dest = match add_destination(v, is_directory, n, destination) {
            Ok(p) => p,
            Err(e) => return Err(Failure::Api(e)),
        };
        assert(first_bad_source(values@, statuses@, dv, recursive, i as int) == first_bad_source(values@, statuses@, dv, recursive, i + 1));
        sources.push(AddSource { path: values[i].clone(), destination: dest, is_directory });
        i = i + 1;
    }
    let ghost dests = Seq::new(n as nat, |k: int| add_destination_of(values@[k]@, statuses@[k] is Directory, n as nat, dv)->Ok_0);
    assert(first_bad_source(values@, statuses@, dv, recursive, n as int) == n as int);
    let mut j: usize = 0;
    while j < n
        invariant
            j <= n,
            n == values@.len(),
            statuses@.len() == n,
            !(n > 1 && (destination matches Some(d) && !(d@.len() > 0 && d@.last() == '/'))),
            dv == match destination { Some(d) => Some(d@), None => None },
            first_bad_source(values@, statuses@, dv, recursive, 0) == n as int,
            dests == Seq::new(n as nat, |k: int| add_destination_of(values@[k]@, statuses@[k] is Directory, n as nat, dv)->Ok_0),
            n == sources@.len(),
            dests.len() == n,
            forall|k: int| 0 <= k < n ==> dests[k] == (#[trigger] sources@[k]).destination@,
            first_repeat(dests, 0) == first_repeat(dests, j as int),
        decreases n - j,
    {
        let mut q: usize = 0;
        while q < j
            invariant
                q <= j,
                j < n,
                n == values@.len(),
                statuses@.len() == n,
                !(n > 1 && (destination matches Some(d) && !(d@.len() > 0 && d@.last() == '/'))),
                dv == match destination { Some(d) => Some(d@), None => None },
                first_bad_source(values@, statuses@, dv, recursive, 0) == n as int,
                dests == Seq::new(n as nat, |k: int| add_destination_of(values@[k]@, statuses@[k] is Directory, n as nat, dv)->Ok_0),

                n == sources@.len(),
                dests.len() == n,
                forall|k: int| 0 <= k < n ==> dests[k] == (#[trigger] sources@[k]).destination@,
                forall|k: int| 0 <= k < q ==> dests[k] != dests[j as int],
                first_repeat(dests, 0) == first_repeat(dests, j as int),
            decreases j - q,
        {
            if text::str_eq(sources[q].destination.as_str(), sources[j].destination.as_str()) {
                proof {
                    assert(dests.subrange(0, j as int)[q as int] == dests[j as int]);
                    assert(dests.subrange(0, j as int).contains(dests[j as int]));
                }
                let m = text::concat2("multiple sources map to the same lockbox path: ", sources[j].destination.as_str());
                return Err(Failure::Message(cli_error(m.as_str())));
            }
            q = q + 1;
        }
        proof {
            assert(!dests.subrange(0, j as int).contains(dests[j as int])) by {
                if dests.subrange(0, j as int).contains(dests[j as int]) {
                    let w = choose|w: int| 0 <= w < j && dests.subrange(0, j as int)[w] == dests[j as int];
                    assert(dests[w] == dests[j as int]);
                }
            }
        }
        j = j + 1;
    }
    Ok(sources)
}

/// The prefix that the entries directly inside a stored directory start with.
pub open spec fn listing_prefix_of(path: Seq<char>) -> Seq<char> {
    if path == seq!['/'] { seq!['/'] } else { text::trim_end_char(path, '/') + seq!['/'] }
}

/// The prefix that the entries directly inside a stored directory start with.
pub fn listing_prefix(path: &str) -> (r: String)
    ensures r@ == listing_prefix_of(path@),
{
    proof { reveal_strlit("/"); }
    assert("/"@ =~= seq!['/']);
    if text::str_eq(path, "/") {
        let r = text::owned("/");
        assert(r@ =~= seq!['/']);
        r
    } else {
        let r = text::concat2(text::trim_end_matches_char(path, '/'), "/");
        assert(r@ =~= text::trim_end_char(path@, '/') + seq!['/']);
        r
    }
}

/// The first component of a path below a listed directory, and whether more
/// components follow it (so that it is a directory).
pub open spec fn direct_child_of(rest: Seq<char>) -> Option<(Seq<char>, bool)> {
    let r = text::trim_start_char(rest, '/');
    if r.len() == 0 {
        None
    } else {
        match text::find_char(r, '/') {
            Some(k) => if k > 0 { Some((r.subrange(0, k), true)) } else { None },
            None => Some((r, false)),
        }
    }
}

/// The first component of a path below a listed directory, and whether more
/// components follow it.
pub fn direct_child(rest: &str) -> (r: Option<(&str, bool)>)
    ensures
        r is Some <==> direct_child_of(rest@) is Some,
        r matches Some((name, dir)) ==> direct_child_of(rest@) == Some((name@, dir)),
{
    let r = text::trim_start_matches_char(rest, '/');
    if r.unicode_len() == 0 {
        return None;
    }
    match text::find_char_index(r, '/') {
        Some(k) => {
            if k > 0 {
                Some((r.substring_char(0, k), true))
            } else {
                None
            }
        },
        None => Some((r, false)),
    }
}

/// A stored entry as a listing sees it.
#[derive(Clone, Debug)]
pub struct ListedEntry {
    pub path: String,
    pub kind: EntryKind,
    pub len: u64,
}

/// The listing row of an entry below a listed directory whose entries start
/// with `prefix`, with the name it is listed under: a directory, or an entry
/// with more components below the name, shows as `directory`, `-` and the
/// name with a `/`; anything else shows its kind, length and name.
pub open spec fn listing_row(e: ListedEntry, prefix: Seq<char>) -> Option<(Seq<char>, Seq<Seq<char>>)> {
    let rest = if text::has_prefix(e.path@, prefix) { e.path@.subrange(prefix.len() as int, e.path@.len() as int) } else { e.path@ };
    match direct_child_of(rest) {
        None => None,
        Some((name, dir)) => Some((name, if dir || e.kind == EntryKind::Directory {
            seq!["directory"@, "-"@, name + "/"@]
        } else {
            seq![kind_text(e.kind), text::dec(e.len as nat), name]
        })),
    }
}

/// The row listed under a name: that of the first entry listed under it.
pub open spec fn first_row(entries: Seq<ListedEntry>, prefix: Seq<char>, name: Seq<char>) -> Option<Seq<Seq<char>>>
    decreases entries.len(),
{
    if entries.len() == 0 {
        None
    } else {
        match first_row(entries.drop_last(), prefix, name) {
            Some(row) => Some(row),
            None => match listing_row(entries.last(), prefix) {
                Some((n, row)) => if n == name { Some(row) } else { None },
                None => None,
            },
        }
    }
}

/// The name a listing row is listed under.
pub open spec fn row_name(row: Seq<Seq<char>>) -> Seq<char> {
    if row[1] == "-"@ { row[2].drop_last() } else { row[2] }
}

/// The rows of a listing of the entries directly inside a stored directory:
/// one per name, ordered by name. `stat` is what the listed path itself is;
/// a path that is not a directory lists as its own single row.
pub fn direct_listing_rows(path: &str, stat: Option<&ListedEntry>, entries: &[ListedEntry]) -> (r: Vec<Vec<String>>)
    ensures
        match stat {
            Some(e) if e.kind != EntryKind::Directory => r@.len() == 1
                && r@[0]@.map_values(|v: String| v@) == seq![kind_text(e.kind), text::dec(e.len as nat), leaf_name_of(e.path@)],
            _ => {
                let prefix = listing_prefix_of(path@);
                let rows = r@.map_values(|row: Vec<String>| row@.map_values(|v: String| v@));
                &&& forall|k: int| 0 <= k < rows.len() ==> (#[trigger] rows[k]).len() == 3
                &&& crate::glob::strictly_sorted(rows.map_values(|row: Seq<Seq<char>>| row_name(row)))
                &&& forall|k: int| 0 <= k < rows.len() ==> first_row(entries@, prefix, row_name(#[trigger] rows[k])) == Some(rows[k])
                &&& forall|name: Seq<char>| first_row(entries@, prefix, name) is Some
                    ==> exists|k: int| 0 <= k < rows.len() && row_name(#[trigger] rows[k]) == name
            },
        },
{
    proof {
        reveal_strlit("-");
        reveal_strlit("directory");
    }
    match stat {
        Some(e) => {
            if e.kind != EntryKind::Directory {
                let mut row: Vec<String> = Vec::new();
                row.push(text::owned(kind_name(e.kind)));
                row.push(text::decimal(e.len));
                row.push(text::owned(leaf_name(e.path.as_str())));
                let mut out: Vec<Vec<String>> = Vec::new();
                out.push(row);
                assert(out@[0]@.map_values(|v: String| v@) =~= seq![kind_text(e.kind), text::dec(e.len as nat), leaf_name_of(e.path@)]);
                return out;
            }
        },
        None => {},
    }
    let prefix = listing_prefix(path);
    let mut names: Vec<String> = Vec::new();
    let mut rows: Vec<Vec<String>> = Vec::new();
    let n = entries.len();
    let mut i: usize = 0;
    while i < n
        invariant
            i <= n,
            n == entries@.len(),
            names@.len() == rows@.len(),
            crate::glob::strictly_sorted(crate::glob::string_views(names@)),
            forall|k: int| 0 <= k < rows@.len() ==> (#[trigger] rows@[k])@.len() == 3
                && row_name(rows@[k]@.map_values(|v: String| v@)) == names@[k]@
                && first_row(entries@.subrange(0, i as int), prefix@, names@[k]@) == Some(rows@[k]@.map_values(|v: String| v@)),
            forall|name: Seq<char>| first_row(entries@.subrange(0, i as int), prefix@, name) is Some
                ==> crate::glob::string_views(names@).contains(name),
        decreases n - i,
    {
        let ghost pre = entries@.subrange(0, i as int);
        let ghost cur = entries@.subrange(0, i + 1);
        assert(cur.drop_last() =~= pre);
        assert(cur.last() == entries@[i as int]);
        let e = &entries[i];
        let rest = match text::strip_prefix(e.path.as_str(), prefix.as_str()) {
            Some(t) => t,
            None => e.path.as_str(),
        };
        match direct_child(rest) {
            None => {
                assert forall|name: Seq<char>| first_row(cur, prefix@, name) == first_row(pre, prefix@, name) by {}
            },
            Some((name, dir)) => {
                let ghost nm = name@;
                let mut row: Vec<String> = Vec::new();
                if dir || e.kind == EntryKind::Directory {
                    row.push(text::owned("directory"));
                    row.push(text::owned("-"));
                    row.push(text::concat2(name, "/"));
                } else {
                    row.push(text::owned(kind_name(e.kind)));
                    row.push(text::decimal(e.len));
                    row.push(text::owned(name));
                }
                let ghost rv = row@.map_values(|v: String| v@);
                proof {
                    assert(listing_row(entries@[i as int], prefix@) == Some((nm, rv)));
                    assert(rv.len() == 3);
                    if dir || e.kind == EntryKind::Directory {
                        reveal_strlit("/");
                        assert("/"@ =~= seq!['/']);
                        assert((nm + "/"@).drop_last() =~= nm);
                    } else {
                        assert(text::dec(e.len as nat) != "-"@) by {
                            reveal_strlit("-");
                            assert("-"@ =~= seq!['-']);
                            crate::args::lemma_decimal_reads_back(e.len as nat, e.len as nat);
                            assert(text::is_digit(text::dec(e.len as nat)[0]));
                        }
                    }
                    assert(row_name(rv) == nm);
                }
                let mut p: usize = 0;
                while p < names.len() && crate::glob::text_less_exec(names[p].as_str(), name)
                    invariant
                        p <= names@.len(),
                        nm == name@,
                        forall|k: int| 0 <= k < p ==> crate::glob::text_less(#[trigger] crate::glob::string_views(names@)[k], nm),
                    decreases names@.len() - p,
                {
                    assert(crate::glob::string_views(names@)[p as int] == names@[p as int]@);
                    p = p + 1;
                }
                let ghost before = crate::glob::string_views(names@);
                let ghost rows_before = rows@;
                if p < names.len() && text::str_eq(names[p].as_str(), name) {
                    proof {
                        assert(before[p as int] == nm);
                        assert forall|k: int| 0 <= k < rows@.len() implies first_row(cur, prefix@, names@[k]@)
                            == Some(rows@[k]@.map_values(|v: String| v@)) by {}
                        assert forall|x: Seq<char>| first_row(cur, prefix@, x) is Some implies before.contains(x) by {
                            if first_row(pre, prefix@, x) is None {
                                assert(x == nm);
                            }
                        }
                    }
                } else {
                    if p < names.len() {
                        proof { crate::glob::lemma_text_less_total(before[p as int], nm); }
                    }
                    proof {
                        assert(first_row(pre, prefix@, nm) is None) by {
                            if first_row(pre, prefix@, nm) is Some {
                                assert(before.contains(nm));
                                let k = choose|k: int| 0 <= k < before.len() && before[k] == nm;
                                if k < p {
                                    crate::glob::lemma_text_less_irreflexive(nm);
                                } else if k > p {
                                    crate::glob::lemma_text_less_transitive(before[p as int], before[k], nm);
                                    crate::glob::lemma_text_less_irreflexive(nm);
                                    assert(crate::glob::text_less(before[p as int], before[k]));
                                    if crate::glob::text_less(nm, before[p as int]) {
                                        crate::glob::lemma_text_less_transitive(nm, before[p as int], before[k]);
                                    }
                                }
                            }
                        }
                    }
                    names.insert(p, text::owned(name));
                    rows.insert(p, row);
                    let ghost after = crate::glob::string_views(names@);
                    proof {
                        assert(after =~= before.insert(p as int, nm));
                        assert forall|a: int, b: int| 0 <= a < b < after.len() implies #[trigger] crate::glob::text_less(after[a], after[b]) by {
                            if b < p {
                            } else if b == p {
                            } else if a < p {
                                assert(crate::glob::text_less(after[a], nm));
                                if b == p + 1 {
                                    assert(crate::glob::text_less(nm, after[b]));
                                } else {
                                    assert(crate::glob::text_less(before[p as int], before[b - 1]));
                                    crate::glob::lemma_text_less_transitive(nm, before[p as int], before[b - 1]);
                                }
                                crate::glob::lemma_text_less_transitive(after[a], nm, after[b]);
                            } else if a == p {
                                if b == p + 1 {
                                } else {
                                    assert(crate::glob::text_less(before[p as int], before[b - 1]));
                                    crate::glob::lemma_text_less_transitive(nm, before[p as int], before[b - 1]);
                                }
                            } else {
                                assert(crate::glob::text_less(before[a - 1], before[b - 1]));
                            }
                        }
                        assert forall|k: int| 0 <= k < rows@.len() implies (#[trigger] rows@[k])@.len() == 3
                            && row_name(rows@[k]@.map_values(|v: String| v@)) == names@[k]@
                            && first_row(cur, prefix@, names@[k]@) == Some(rows@[k]@.map_values(|v: String| v@)) by {
                            if k < p {
                                assert(rows@[k] == rows_before[k]);
                                assert(names@[k]@ == before[k]);
                            } else if k > p {
                                assert(rows@[k] == rows_before[k - 1]);
                                assert(names@[k]@ == before[k - 1]);
                            }
                        }
                        assert forall|x: Seq<char>| first_row(cur, prefix@, x) is Some implies after.contains(x) by {
                            if x == nm {
                                assert(after[p as int] == nm);
                            } else {
                                assert(first_row(pre, prefix@, x) is Some);
                                assert(before.contains(x));
                                let k = choose|k: int| 0 <= k < before.len() && before[k] == x;
                                if k < p {
                                    assert(after[k] == x);
                                } else {
                                    assert(after[k + 1] == x);
                                }
                            }
                        }
                    }
                }
            },
        }
        i = i + 1;
    }
    proof {
        assert(entries@.subrange(0, n as int) =~= entries@);
        let rv = rows@.map_values(|row: Vec<String>| row@.map_values(|v: String| v@));
        assert(rv.map_values(|row: Seq<Seq<char>>| row_name(row)) =~= crate::glob::string_views(names@));
        assert forall|x: Seq<char>| first_row(entries@, prefix@, x) is Some implies exists|k: int| 0 <= k < rv.len() && row_name(#[trigger] rv[k]) == x by {
            assert(first_row(entries@.subrange(0, n as int), prefix@, x) is Some);
            assert(crate::glob::string_views(names@).contains(x));
            let k = choose|k: int| 0 <= k < crate::glob::string_views(names@).len() && crate::glob::string_views(names@)[k] == x;
            assert(rv.map_values(|row: Seq<Seq<char>>| row_name(row))[k] == x);
            assert(row_name(rv[k]) == x);
        }
    }
    rows
}

/// The display name of a stored entry: its last non-empty component, or the
/// whole path when there is none.
pub open spec fn leaf_name_of(path: Seq<char>) -> Seq<char> {
    let t = text::trim_end_char(path, '/');
    let last = match text::rfind_char(t, '/') {
        None => t,
        Some(k) => t.subrange(k + 1, t.len() as int),
    };
    if last.len() > 0 { last } else { path }
}

/// The display name of a stored entry.
pub fn leaf_name(path: &str) -> (r: &str)
    ensures r@ == leaf_name_of(path@),
{
    let t = text::trim_end_matches_char(path, '/');
    let n = t.unicode_len();
    let last = match text::rfind_char_index(t, '/') {
        None => t,
        Some(k) => {
            proof { text::lemma_rfind_char(t@, '/'); }
            t.substring_char(k + 1, n)
        },
    };
    if last.unicode_len() > 0 {
        last
    } else {
        path
    }
}

/// How extracted entries are written to the host.
#[derive(Clone, Copy, Debug, PartialEq, Eq, Structural)]
pub struct ExtractPolicy {
    pub overwrite: bool,
    pub restore_symlinks: bool,
    pub restore_permissions: bool,
}

/// Some argument equals `flag`.
pub open spec fn has_arg(args: Seq<String>, flag: Seq<char>) -> bool {
    exists|i: int| 0 <= i < args.len() && #[trigger] args[i]@ == flag
}

/// The extract policy that the option arguments select.
pub fn extract_policy_from_args(args: &[String]) -> (r: ExtractPolicy)
    ensures
        r.overwrite == has_arg(args@, "--overwrite"@),
        r.restore_symlinks == has_arg(args@, "--restore-symlinks"@),
        r.restore_permissions == has_arg(args@, "--restore-permissions"@),
{
    let mut policy = ExtractPolicy { overwrite: false, restore_symlinks: false, restore_permissions: false };
    let n = args.len();
    let mut i: usize = 0;
    while i < n
        invariant
            i <= n,
            n == args@.len(),
            policy.overwrite == has_arg(args@.subrange(0, i as int), "--overwrite"@),
            policy.restore_symlinks == has_arg(args@.subrange(0, i as int), "--restore-symlinks"@),
            policy.restore_permissions == has_arg(args@.subrange(0, i as int), "--restore-permissions"@),
        decreases n - i,
    {
        let a = args[i].as_str();
        let ghost pre = args@.subrange(0, i as int);
        let ghost post = args@.subrange(0, i + 1);
        assert forall|f: Seq<char>| has_arg(post, f) == (has_arg(pre, f) || args@[i as int]@ == f) by {
            if has_arg(post, f) {
                let k = choose|k: int| 0 <= k < post.len() && #[trigger] post[k]@ == f;
                if k < i {
                    assert(pre[k] == post[k]);
                }
            }
            if has_arg(pre, f) {
                let k = choose|k: int| 0 <= k < pre.len() && #[trigger] pre[k]@ == f;
                assert(post[k] == pre[k]);
            }
            if args@[i as int]@ == f {
                assert(post[i as int] == args@[i as int]);
            }
        }
        if text::str_eq(a, "--overwrite") {
            policy.overwrite = true;
        }
        if text::str_eq(a, "--restore-symlinks") {
            policy.restore_symlinks = true;
        }
        if text::str_eq(a, "--restore-permissions") {
            policy.restore_permissions = true;
        }
        i = i + 1;
    }
    assert(args@.subrange(0, n as int) =~= args@);
    policy
}

/// The progress line shown while files are added to a lockbox.
#[derive(Debug)]
pub struct AddProgress {
    pub enabled: bool,
    pub terminal: bool,
    /// A progress line has been written at least once (its time is kept by the caller).
    pub has_written: bool,
    pub pending: Option<String>,
    pub wrote: bool,
}

/// Whether progress is shown: as `LOCKBOX_ADD_PROGRESS` says, or else when a
/// directory is added on a terminal.
pub open spec fn progress_enabled(mode: Option<Seq<char>>, source_is_dir: bool, terminal: bool) -> bool {
    match mode {
        Some(m) => if m == "0"@ || m == "off"@ || m == "false"@ || m == "never"@ {
            false
        } else if m == "1"@ || m == "on"@ || m == "true"@ || m == "always"@ {
            true
        } else {
            source_is_dir && terminal
        },
        None => source_is_dir && terminal,
    }
}

/// The width cleared at the end: `COLUMNS` when it is a positive number, else 120.
pub open spec fn clear_width(columns: Option<Seq<char>>) -> nat {
    match columns {
        Some(c) => match crate::args::parsed_usize(c) {
            Some(v) => if v > 0 { v } else { 120 },
            None => 120,
        },
        None => 120,
    }
}

/// The width of the terminal to clear, from `COLUMNS`.
pub fn terminal_width_fallback(columns: Option<&str>) -> (r: usize)
    ensures r as nat == clear_width(match columns { Some(c) => Some(c@), None => None }),
{
    match columns {
        Some(c) => match crate::args::parse_usize(c) {
            Some(v) => if v > 0 { v } else { 120 },
            None => 120,
        },
        None => 120,
    }
}

/// A line of spaces.
pub open spec fn blank(n: nat) -> Seq<char> {
    Seq::new(n, |i: int| ' ')
}

impl AddProgress {
    /// Progress for adding a source, given `LOCKBOX_ADD_PROGRESS`, whether the
    /// source is a directory, and whether the error stream is a terminal.
    pub fn for_source(mode: Option<&str>, source_is_dir: bool, terminal: bool) -> (r: AddProgress)
        ensures
            r.enabled == progress_enabled(match mode { Some(m) => Some(m@), None => None }, source_is_dir, terminal),
            r.terminal == terminal,
            !r.has_written && r.pending is None && !r.wrote,
    {
        let enabled = match mode {
            Some(m) => if text::str_eq(m, "0") || text::str_eq(m, "off") || text::str_eq(m, "false") || text::str_eq(m, "never") {
                false
            } else if text::str_eq(m, "1") || text::str_eq(m, "on") || text::str_eq(m, "true") || text::str_eq(m, "always") {
                true
            } else {
                source_is_dir && terminal
            },
            None => source_is_dir && terminal,
        };
        AddProgress { enabled, terminal, has_written: false, pending: None, wrote: false }
    }

    fn write_pending(&mut self) -> (r: Option<String>)
        ensures
            match old(self).pending {
                Some(p) => (r matches Some(t) && t@ == "\rAdding: "@ + p@) && final(self).pending is None
                    && final(self).has_written && final(self).wrote
                    && final(self).enabled == old(self).enabled && final(self).terminal == old(self).terminal,
                None => r is None && *final(self) == *old(self),
            },
    {
        let pending = self.pending.take();
        match pending {
            Some(p) => {
                let out = text::concat2("\rAdding: ", p.as_str());
                self.has_written = true;
                self.wrote = true;
                Some(out)
            },
            None => None,
        }
    }

    /// Notes the path being added; it is shown at once the first time, and
    /// then at most once per interval (`interval_elapsed`).
    pub fn record(&mut self, path: &str, interval_elapsed: bool) -> (r: Option<String>)
        ensures
            !old(self).enabled ==> r is None && *final(self) == *old(self),
            old(self).enabled && (!old(self).has_written || interval_elapsed) ==> (r matches Some(t)
                && t@ == "\rAdding: "@ + path@) && final(self).pending is None && final(self).has_written
                && final(self).wrote && final(self).enabled && final(self).terminal == old(self).terminal,
            old(self).enabled && old(self).has_written && !interval_elapsed ==> r is None
                && (final(self).pending matches Some(p) && p@ == path@)
                && final(self).enabled && final(self).terminal == old(self).terminal
                && final(self).has_written && final(self).wrote == old(self).wrote,
    {
        if !self.enabled {
            return None;
        }
        self.pending = Some(text::owned(path));
        if !self.has_written || interval_elapsed {
            return self.write_pending();
        }
        None
    }

    /// Shows the last pending path, then clears the line on a terminal or
    /// ends it elsewhere, if anything was shown.
    pub fn finish(&mut self, columns: Option<&str>) -> (r: Option<String>)
        ensures
            !old(self).enabled ==> r is None,
            old(self).enabled ==> ({
                let first = match old(self).pending { Some(p) => "\rAdding: "@ + p@, None => Seq::<char>::empty() };
                let wrote = old(self).wrote || old(self).pending is Some;
                let last = if !wrote { Seq::<char>::empty() } else if old(self).terminal {
                    seq!['\r'] + blank(clear_width(match columns { Some(c) => Some(c@), None => None })) + seq!['\r']
                } else {
                    seq!['\n']
                };
                r matches Some(t) && t@ == first + last
            }),
    {
        if !self.enabled {
            return None;
        }
        let mut out = match self.write_pending() {
            Some(t) => t,
            None => String::new(),
        };
        let ghost first = out@;
        if self.wrote {
            if self.terminal {
                let width = terminal_width_fallback(columns);
                text::push_char(&mut out, '\r');
                let mut i: usize = 0;
                let ghost start = out@;
                while i < width
                    invariant
                        i <= width,
                        out@ == start + blank(i as nat),
                    decreases width - i,
                {
                    text::push_char(&mut out, ' ');
                    i = i + 1;
                    assert(out@ =~= start + blank(i as nat));
                }
                text::push_char(&mut out, '\r');
                assert(out@ =~= first + (seq!['\r'] + blank(width as nat) + seq!['\r']));
            } else {
                text::push_char(&mut out, '\n');
                assert(out@ =~= first + seq!['\n']);
            }
        } else {
            assert(out@ =~= first + Seq::<char>::empty());
        }
        Some(out)
    }
}

} // verus!
