//! Salvage and diagnosis of damaged lockboxes: where recovered copies and
//! backups of damaged files go, and how a lockbox file's state is described.

use vstd::prelude::*;
use crate::text;
use crate::paths;

verus! {

/// The parent of a path, or the empty path when it has none.
pub open spec fn parent_or_empty(p: Seq<char>) -> Seq<char> {
    match paths::parent_of(p) { Some(d) => d, None => Seq::empty() }
}

/// A name that is present and not empty, or the fallback.
pub open spec fn name_or(name: Option<Seq<char>>, fallback: Seq<char>) -> Seq<char> {
    match name {
        Some(n) => if n.len() > 0 { n } else { fallback },
        None => fallback,
    }
}

fn parent_text(p: &str) -> (r: String)
    ensures r@ == parent_or_empty(p@),
{
    match paths::parent(p) {
        Some(d) => d,
        None => String::new(),
    }
}

fn present_or(name: Option<String>, fallback: &str) -> (r: String)
    ensures r@ == name_or(match name { Some(n) => Some(n@), None => None }, fallback@),
{
    match name {
        Some(n) => if n.as_str().unicode_len() > 0 { n } else { text::owned(fallback) },
        None => text::owned(fallback),
    }
}

/// Where a salvaged copy of a lockbox is written by default: beside it, named
/// after its stem (`lockbox` when it has none) with `.recovered.lbox`.
pub fn default_recovered_path(lockbox_path: &str) -> (r: String)
    ensures
        r@ == paths::joined(parent_or_empty(lockbox_path@),
            name_or(paths::file_stem_of(lockbox_path@), "lockbox"@) + ".recovered.lbox"@),
{
    let parent = parent_text(lockbox_path);
    let stem = present_or(paths::file_stem(lockbox_path), "lockbox");
    let name = text::concat2(stem.as_str(), ".recovered.lbox");
    paths::join(parent.as_str(), name.as_str())
}

/// The backup names tried, in order, for a damaged lockbox before it is
/// repaired in place: `NAME.damaged`, then `NAME.damaged.1`, `NAME.damaged.2`
/// and so on; the first that does not exist is used.
pub open spec fn damaged_candidate(input_path: Seq<char>, attempt: nat) -> Seq<char> {
    let name = name_or(paths::file_name_of(input_path), "lockbox.lbox"@);
    paths::joined(parent_or_empty(input_path),
        if attempt == 0 { name + ".damaged"@ } else { name + ".damaged."@ + text::dec(attempt) })
}

/// The backup name tried at a given attempt for a damaged lockbox.
pub fn damaged_backup_candidate(input_path: &str, attempt: usize) -> (r: String)
    ensures r@ == damaged_candidate(input_path@, attempt as nat),
{
    let parent = parent_text(input_path);
    let name = present_or(paths::file_name(input_path), "lockbox.lbox");
    let file = if attempt == 0 {
        text::concat2(name.as_str(), ".damaged")
    } else {
        let n = text::decimal(attempt as u64);
        text::concat3(name.as_str(), ".damaged.", n.as_str())
    };
    paths::join(parent.as_str(), file.as_str())
}

/// The backup path for a damaged lockbox: the first candidate that does not
/// exist, with its attempt number. `taken[k]` answers whether the candidate
/// of attempt `k` exists; the caller asks until a candidate is free, and any
/// candidate past the end of `taken` counts as free.
pub fn next_damaged_backup_path(input_path: &str, taken: &[bool]) -> (r: (String, usize))
    ensures
        r.0@ == damaged_candidate(input_path@, r.1 as nat),
        r.1 <= taken@.len(),
        forall|k: int| 0 <= k < r.1 ==> taken@[k],
        r.1 < taken@.len() ==> !taken@[r.1 as int],
        (exists|k: int| 0 <= k < taken@.len() && !taken@[k]) ==> r.1 < taken@.len() && !taken@[r.1 as int],
{
    let mut k: usize = 0;
    while k < taken.len() && taken[k]
        invariant
            k <= taken@.len(),
            forall|q: int| 0 <= q < k ==> taken@[q],
        decreases taken@.len() - k,
    {
        k = k + 1;
    }
    (damaged_backup_candidate(input_path, k), k)
}

/// The state of a lockbox header as reported by `doctor`.
pub fn header_status(header_readable: bool) -> (r: &'static str)
    ensures r@ == if header_readable { "ok"@ } else { "corrupt; recovered key-directory metadata"@ },
{
    if header_readable { "ok" } else { "corrupt; recovered key-directory metadata" }
}

/// How a key slot of a lockbox is protected.
#[derive(Clone, Copy, Debug, PartialEq, Eq, Structural)]
pub enum SlotProtection {
    Password,
    Contact,
    Other,
}

/// The description of a key slot's protection.
pub fn slot_protection(protection: SlotProtection) -> (r: &'static str)
    ensures
        r@ == match protection {
            SlotProtection::Password => "pass phrase"@,
            SlotProtection::Contact => "contact key"@,
            SlotProtection::Other => "unknown"@,
        },
{
    match protection {
        SlotProtection::Password => "pass phrase",
        SlotProtection::Contact => "contact key",
        SlotProtection::Other => "unknown",
    }
}

/// What a salvage scan found in a damaged lockbox.
#[derive(Clone, Copy, Debug)]
pub struct RecoveryReport {
    pub intact_file_count: u64,
    pub partial_files: u64,
    pub corrupt_records: u64,
    pub toc_recovered: bool,
    pub variables_recovered: bool,
    pub variable_count: u64,
    pub forms_recovered: bool,
    pub form_definition_count: u64,
    pub form_record_count: u64,
}

/// The text of a flag as printed (`true` or `false`).
pub open spec fn bool_text(b: bool) -> Seq<char> {
    if b { "true"@ } else { "false"@ }
}

/// The `field`/`value` rows of a salvage report, then the output written and
/// where the damaged original was kept, when there are such.
pub open spec fn report_table(report: RecoveryReport, output: Option<Seq<char>>, damaged_original: Option<Seq<char>>) -> Seq<Seq<Seq<char>>> {
    seq![
        seq!["intact_file_count"@, text::dec(report.intact_file_count as nat)],
        seq!["partial_files"@, text::dec(report.partial_files as nat)],
        seq!["corrupt_records"@, text::dec(report.corrupt_records as nat)],
        seq!["toc_recovered"@, bool_text(report.toc_recovered)],
        seq!["variables_recovered"@, bool_text(report.variables_recovered)],
        seq!["variable_count"@, text::dec(report.variable_count as nat)],
        seq!["forms_recovered"@, bool_text(report.forms_recovered)],
        seq!["form_definition_count"@, text::dec(report.form_definition_count as nat)],
        seq!["form_record_count"@, text::dec(report.form_record_count as nat)]
    ] + match output { Some(o) => seq![seq!["output"@, o]], None => Seq::empty() }
      + match damaged_original { Some(d) => seq![seq!["damaged_original"@, d]], None => Seq::empty() }
}

fn field_row(field: &str, value: String) -> (r: Vec<String>)
    ensures r@.map_values(|v: String| v@) == seq![field@, value@],
{
    let mut row: Vec<String> = Vec::new();
    row.push(text::owned(field));
    row.push(value);
    assert(row@.map_values(|v: String| v@) =~= seq![field@, value@]);
    row
}

fn bool_string(b: bool) -> (r: String)
    ensures r@ == bool_text(b),
{
    if b { text::owned("true") } else { text::owned("false") }
}

/// The rows of a salvage report.
pub fn report_rows(report: &RecoveryReport, output: Option<&str>, damaged_original: Option<&str>) -> (r: Vec<Vec<String>>)
    ensures
        r@.map_values(|row: Vec<String>| row@.map_values(|v: String| v@)) == report_table(*report,
            match output { Some(o) => Some(o@), None => None },
            match damaged_original { Some(d) => Some(d@), None => None }),
{
    let mut rows: Vec<Vec<String>> = Vec::new();
    rows.push(field_row("intact_file_count", text::decimal(report.intact_file_count)));
    rows.push(field_row("partial_files", text::decimal(report.partial_files)));
    rows.push(field_row("corrupt_records", text::decimal(report.corrupt_records)));
    rows.push(field_row("toc_recovered", bool_string(report.toc_recovered)));
    rows.push(field_row("variables_recovered", bool_string(report.variables_recovered)));
    rows.push(field_row("variable_count", text::decimal(report.variable_count)));
    rows.push(field_row("forms_recovered", bool_string(report.forms_recovered)));
    rows.push(field_row("form_definition_count", text::decimal(report.form_definition_count)));
    rows.push(field_row("form_record_count", text::decimal(report.form_record_count)));
    match output {
        Some(o) => rows.push(field_row("output", text::owned(o))),
        None => {},
    }
    match damaged_original {
        Some(d) => rows.push(field_row("damaged_original", text::owned(d))),
        None => {},
    }
    assert(rows@.map_values(|row: Vec<String>| row@.map_values(|v: String| v@)) =~= report_table(*report,
        match output { Some(o) => Some(o@), None => None },
        match damaged_original { Some(d) => Some(d@), None => None }));
    rows
}

} // verus!
