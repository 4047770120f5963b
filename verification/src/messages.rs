//! Structured command errors: exit codes, diagnostic messages and the plain
//! or coloured text they are rendered to.

use vstd::prelude::*;
use crate::text;

verus! {

/// Process exit codes; each failure class has its own stable number.
#[derive(Clone, Copy, Debug, PartialEq, Eq, Structural)]
pub enum ExitCode {
    General,
    Usage,
    LockboxClosed,
    AuthenticationFailed,
    NotFound,
    VaultUnavailable,
    UnsupportedFormat,
    CorruptData,
}

/// The number of each exit code.
pub open spec fn exit_value(c: ExitCode) -> i32 {
    match c {
        ExitCode::General => 1,
        ExitCode::Usage => 2,
        ExitCode::LockboxClosed => 10,
        ExitCode::AuthenticationFailed => 11,
        ExitCode::NotFound => 12,
        ExitCode::VaultUnavailable => 13,
        ExitCode::UnsupportedFormat => 14,
        ExitCode::CorruptData => 15,
    }
}

impl ExitCode {
    /// The process exit status of this code.
    pub fn as_i32(self) -> (r: i32)
        ensures r == exit_value(self),
    {
        match self {
            ExitCode::General => 1,
            ExitCode::Usage => 2,
            ExitCode::LockboxClosed => 10,
            ExitCode::AuthenticationFailed => 11,
            ExitCode::NotFound => 12,
            ExitCode::VaultUnavailable => 13,
            ExitCode::UnsupportedFormat => 14,
            ExitCode::CorruptData => 15,
        }
    }
}

/// Different exit codes have different numbers, so a script can tell the
/// failure classes apart by the exit status alone.
pub proof fn lemma_exit_values_distinct(a: ExitCode, b: ExitCode)
    ensures exit_value(a) == exit_value(b) ==> a == b,
{
}

/// A diagnostic: a summary, labelled details and an optional next step.
#[derive(Debug)]
pub struct CliMessage {
    pub exit_code: ExitCode,
    pub summary: String,
    pub details: Vec<(String, String)>,
    pub next_step: Option<String>,
}

impl CliMessage {
    pub fn exit_code(&self) -> (r: ExitCode)
        ensures r == self.exit_code,
    {
        self.exit_code
    }

    pub fn summary(&self) -> (r: &str)
        ensures r@ == self.summary@,
    {
        self.summary.as_str()
    }

    pub fn details(&self) -> (r: &[(String, String)])
        ensures r@ == self.details@,
    {
        self.details.as_slice()
    }

    pub fn next_step(&self) -> (r: Option<&str>)
        ensures
            r is Some <==> self.next_step is Some,
            r matches Some(s) ==> s@ == self.next_step->0@,
    {
        match &self.next_step {
            Some(s) => Some(s.as_str()),
            None => None,
        }
    }

    /// The message on one line: the summary, each detail as `. Label: value`
    /// and then `. ` and the next step.
    pub fn to_text(&self) -> (r: String)
        ensures r@ == message_text(*self),
    {
        let mut out = text::owned(self.summary.as_str());
        let n = self.details.len();
        let mut i: usize = 0;
        while i < n
            invariant
                i <= n,
                n == self.details@.len(),
                out@ == self.summary@ + details_text(self.details@.subrange(0, i as int)),
            decreases n - i,
        {
            assert(self.details@.subrange(0, i + 1).drop_last() =~= self.details@.subrange(0, i as int));
            text::push_str(&mut out, ". ");
            text::push_str(&mut out, self.details[i].0.as_str());
            text::push_str(&mut out, ": ");
            text::push_str(&mut out, self.details[i].1.as_str());
            i = i + 1;
        }
        assert(self.details@.subrange(0, n as int) =~= self.details@);
        match &self.next_step {
            Some(step) => {
                text::push_str(&mut out, ". ");
                text::push_str(&mut out, step.as_str());
            },
            None => {},
        }
        out
    }
}

/// The details of a message on one line, each as `. Label: value`.
pub open spec fn details_text(ds: Seq<(String, String)>) -> Seq<char>
    decreases ds.len(),
{
    if ds.len() == 0 {
        Seq::empty()
    } else {
        details_text(ds.drop_last()) + ". "@ + ds.last().0@ + ": "@ + ds.last().1@
    }
}

/// A message on one line.
pub open spec fn message_text(m: CliMessage) -> Seq<char> {
    m.summary@ + details_text(m.details@) + match m.next_step {
        Some(n) => ". "@ + n@,
        None => Seq::empty(),
    }
}

/// A general failure whose only content is the given summary.
pub open spec fn is_plain_error(m: CliMessage, summary: Seq<char>) -> bool {
    &&& m.exit_code == ExitCode::General
    &&& m.summary@ == summary
    &&& m.details@.len() == 0
    &&& m.next_step is None
}

/// A general failure with just a summary.
pub fn cli_error(message: &str) -> (r: CliMessage)
    ensures
        r.exit_code == ExitCode::General,
        r.summary@ == message@,
        r.details@.len() == 0,
        r.next_step is None,
{
    CliMessage {
        exit_code: ExitCode::General,
        summary: text::owned(message),
        details: Vec::new(),
        next_step: None,
    }
}

/// A failure with an exit code, details and a next step.
pub fn cli_diagnostic(
    exit_code: ExitCode,
    summary: &str,
    details: Vec<(String, String)>,
    next_step: &str,
) -> (r: CliMessage)
    ensures
        r.exit_code == exit_code,
        r.summary@ == summary@,
        r.details@ == details@,
        r.next_step matches Some(n) && n@ == next_step@,
{
    CliMessage {
        exit_code,
        summary: text::owned(summary),
        details,
        next_step: Some(text::owned(next_step)),
    }
}

pub const RED_BOLD: &'static str = "\x1b[1;31m";
pub const YELLOW_BOLD: &'static str = "\x1b[1;33m";
pub const CYAN: &'static str = "\x1b[36m";
pub const RESET: &'static str = "\x1b[0m";

/// A section heading: the label and a colon on a line, wrapped in the style's
/// escape codes when colour is on.
pub open spec fn heading_text(label: Seq<char>, style: Seq<char>, colour: bool) -> Seq<char> {
    if colour {
        style + label + ":"@ + RESET@ + seq!['\n']
    } else {
        label + ":"@ + seq!['\n']
    }
}

/// Appends a section heading.
pub fn heading(out: &mut String, label: &str, style: &str, colour: bool)
    ensures final(out)@ == old(out)@ + heading_text(label@, style@, colour),
{
    if colour {
        text::push_str(out, style);
        text::push_str(out, label);
        text::push_str(out, ":");
        text::push_str(out, RESET);
        text::push_char(out, '\n');
    } else {
        text::push_str(out, label);
        text::push_str(out, ":");
        text::push_char(out, '\n');
    }
}

/// A line without the carriage return of a `\r\n` ending.
pub open spec fn strip_cr(x: Seq<char>) -> Seq<char> {
    if x.len() > 0 && x.last() == '\r' {
        x.drop_last()
    } else {
        x
    }
}

/// Every line of `s` (as `str::lines` splits it) indented by two spaces and
/// ended with a newline.
pub open spec fn indented(s: Seq<char>) -> Seq<char>
    decreases s.len(),
{
    if s.len() == 0 {
        Seq::empty()
    } else {
        match text::find_char(s, '\n') {
            None => "  "@ + s + seq!['\n'],
            Some(k) => {
                proof { text::lemma_find_from_props(s, seq!['\n'], 0); }
                "  "@ + strip_cr(s.subrange(0, k)) + seq!['\n'] + indented(s.subrange(k + 1, s.len() as int))
            },
        }
    }
}

/// Appends every line of `value`, indented by two spaces.
pub fn write_indented(out: &mut String, value: &str)
    ensures final(out)@ == old(out)@ + indented(value@),
{
    let ghost target = out@ + indented(value@);
    let mut rest = value;
    loop
        invariant
            target == out@ + indented(rest@),
            target == old(out)@ + indented(value@),
        decreases rest@.len(),
    {
        let n = rest.unicode_len();
        if n == 0 {
            assert(out@ + indented(rest@) =~= out@);
            return;
        }
        match text::find_char_index(rest, '\n') {
            None => {
                text::push_str(out, "  ");
                text::push_str(out, rest);
                text::push_char(out, '\n');
                assert(out@ =~= target);
                return;
            }
            Some(k) => {
                proof { text::lemma_find_from_props(rest@, seq!['\n'], 0); }
                let mut line = rest.substring_char(0, k);
                if k > 0 && line.get_char(k - 1) == '\r' {
                    line = line.substring_char(0, k - 1);
                }
                assert(line@ == strip_cr(rest@.subrange(0, k as int)));
                let ghost before = out@;
                text::push_str(out, "  ");
                text::push_str(out, line);
                text::push_char(out, '\n');
                let next = rest.substring_char(k + 1, n);
                assert(out@ + indented(next@) =~= before + indented(rest@));
                rest = next;
            }
        }
    }
}

/// The labelled detail sections of a message, each preceded by a blank line.
pub open spec fn detail_sections(ds: Seq<(String, String)>, colour: bool) -> Seq<char>
    decreases ds.len(),
{
    if ds.len() == 0 {
        Seq::empty()
    } else {
        detail_sections(ds.drop_last(), colour) + seq!['\n']
            + heading_text(ds.last().0@, YELLOW_BOLD@, colour) + indented(ds.last().1@)
    }
}

/// The next-step section, preceded by a blank line, when there is one.
pub open spec fn next_step_section(next: Option<Seq<char>>, colour: bool) -> Seq<char> {
    match next {
        None => Seq::empty(),
        Some(n) => seq!['\n'] + heading_text("Next step"@, CYAN@, colour) + indented(n),
    }
}

/// The text of a rendered diagnostic.
pub open spec fn rendered_message(m: CliMessage, colour: bool) -> Seq<char> {
    heading_text("Error"@, RED_BOLD@, colour) + indented(m.summary@)
        + detail_sections(m.details@, colour)
        + next_step_section(match m.next_step { Some(n) => Some(n@), None => None }, colour)
}

/// Renders a diagnostic for the terminal.
pub fn render_cli_message(message: &CliMessage, colour: bool) -> (r: String)
    ensures r@ == rendered_message(*message, colour),
{
    let mut out = String::new();
    heading(&mut out, "Error", RED_BOLD, colour);
    write_indented(&mut out, message.summary());
    let details = message.details();
    let n = details.len();
    let mut i: usize = 0;
    while i < n
        invariant
            i <= n,
            details@ == message.details@,
            n == details@.len(),
            out@ == heading_text("Error"@, RED_BOLD@, colour) + indented(message.summary@)
                + detail_sections(details@.subrange(0, i as int), colour),
        decreases n - i,
    {
        let (label, value) = &details[i];
        assert(details@.subrange(0, i + 1).drop_last() =~= details@.subrange(0, i as int));
        text::push_char(&mut out, '\n');
        heading(&mut out, label.as_str(), YELLOW_BOLD, colour);
        write_indented(&mut out, value.as_str());
        i = i + 1;
        assert(out@ =~= heading_text("Error"@, RED_BOLD@, colour) + indented(message.summary@)
            + detail_sections(details@.subrange(0, i as int), colour));
    }
    assert(details@.subrange(0, n as int) =~= details@);
    if let Some(next_step) = message.next_step() {
        text::push_char(&mut out, '\n');
        heading(&mut out, "Next step", CYAN, colour);
        write_indented(&mut out, next_step);
    }
    proof {
        assert(out@ =~= rendered_message(*message, colour));
    }
    out
}


/// The kind of artifact whose format version is reported.
#[derive(Clone, Copy, Debug, PartialEq, Eq, Structural)]
pub enum ArtifactKind {
    Lockbox,
    Vault,
    Archive,
    Journal,
}

pub open spec fn artifact_name(a: ArtifactKind) -> Seq<char> {
    match a {
        ArtifactKind::Lockbox => "lockbox"@,
        ArtifactKind::Vault => "vault"@,
        ArtifactKind::Archive => "archive"@,
        ArtifactKind::Journal => "journal"@,
    }
}

impl ArtifactKind {
    /// The lower-case name of the artifact kind.
    pub fn as_str(self) -> (r: &'static str)
        ensures r@ == artifact_name(self),
    {
        match self {
            ArtifactKind::Lockbox => "lockbox",
            ArtifactKind::Vault => "vault",
            ArtifactKind::Archive => "archive",
            ArtifactKind::Journal => "journal",
        }
    }
}

/// A failure reported by the storage engine or the vault.
#[derive(Debug)]
pub enum ApiError {
    CorruptHeader,
    UnsupportedFormatVersion { artifact: ArtifactKind, found: u32, supported: u32 },
    CorruptRecord,
    CorruptVaultRecord(String),
    InvalidInput(String),
    InvalidPath(String),
    NotFound(String),
    AlreadyExists(String),
    InvalidKey,
    InvalidKeyMaterial(String),
    InvalidOperation(String),
    VaultUnavailable(String),
    LockUnavailable(String),
    Configuration(String),
    UnsupportedHostPath(String),
    Io(String),
    SecurityLimitExceeded(String),
    Truncated,
}

/// The exit code of each engine failure.
pub open spec fn api_exit(e: ApiError) -> ExitCode {
    match e {
        ApiError::InvalidInput(_) | ApiError::InvalidPath(_) | ApiError::InvalidKeyMaterial(_) => ExitCode::Usage,
        ApiError::InvalidKey => ExitCode::AuthenticationFailed,
        ApiError::NotFound(_) => ExitCode::NotFound,
        ApiError::VaultUnavailable(_) => ExitCode::VaultUnavailable,
        ApiError::UnsupportedFormatVersion { .. } => ExitCode::UnsupportedFormat,
        ApiError::CorruptHeader | ApiError::CorruptRecord | ApiError::CorruptVaultRecord(_)
        | ApiError::Truncated => ExitCode::CorruptData,
        _ => ExitCode::General,
    }
}

/// Maps an engine failure to its exit code.
pub fn api_error_exit_code(error: &ApiError) -> (r: ExitCode)
    ensures r == api_exit(*error),
{
    match error {
        ApiError::InvalidInput(_) | ApiError::InvalidPath(_) | ApiError::InvalidKeyMaterial(_) => ExitCode::Usage,
        ApiError::InvalidKey => ExitCode::AuthenticationFailed,
        ApiError::NotFound(_) => ExitCode::NotFound,
        ApiError::VaultUnavailable(_) => ExitCode::VaultUnavailable,
        ApiError::UnsupportedFormatVersion { .. } => ExitCode::UnsupportedFormat,
        ApiError::CorruptHeader | ApiError::CorruptRecord | ApiError::CorruptVaultRecord(_)
        | ApiError::Truncated => ExitCode::CorruptData,
        ApiError::AlreadyExists(_) | ApiError::InvalidOperation(_) | ApiError::LockUnavailable(_)
        | ApiError::Configuration(_) | ApiError::UnsupportedHostPath(_) | ApiError::Io(_)
        | ApiError::SecurityLimitExceeded(_) => ExitCode::General,
    }
}

/// The plain-language summary line of an engine failure.
pub open spec fn api_summary(e: ApiError) -> Seq<char> {
    match e {
        ApiError::CorruptHeader => "Lockbox header is damaged"@,
        ApiError::UnsupportedFormatVersion { artifact, .. } => "Unsupported "@ + artifact_name(artifact) + " format"@,
        ApiError::CorruptRecord => "Lockbox data is damaged"@,
        ApiError::CorruptVaultRecord(_) => "Vault data is damaged"@,
        ApiError::InvalidInput(_) => "Invalid input"@,
        ApiError::InvalidPath(_) => "Invalid lockbox path"@,
        ApiError::NotFound(_) => "Lockbox entry not found"@,
        ApiError::AlreadyExists(_) => "Lockbox entry already exists"@,
        ApiError::InvalidKey => "Unable to open the lockbox"@,
        ApiError::InvalidKeyMaterial(_) => "Invalid key"@,
        ApiError::InvalidOperation(_) => "Operation is not available"@,
        ApiError::VaultUnavailable(_) => "Vault is unavailable"@,
        ApiError::LockUnavailable(_) => "Lockbox is in use"@,
        ApiError::Configuration(_) => "Configuration problem"@,
        ApiError::UnsupportedHostPath(_) => "Unsupported file type"@,
        ApiError::Io(_) => "Could not access a file or platform service"@,
        ApiError::SecurityLimitExceeded(_) => "Safety limit exceeded"@,
        ApiError::Truncated => "Lockbox file is incomplete"@,
    }
}

/// The details text of an engine failure.
pub open spec fn api_detail(e: ApiError) -> Seq<char> {
    match e {
        ApiError::CorruptHeader => "The file header could not be read or authenticated."@,
        ApiError::UnsupportedFormatVersion { found, supported, .. } =>
            "Found version "@ + text::dec(found as nat) + "; this reVault build supports version "@
                + text::dec(supported as nat) + "."@,
        ApiError::CorruptRecord => "A page or record failed validation."@,
        ApiError::InvalidKey => "The password or key was not accepted, or the lockbox failed authentication."@,
        ApiError::Truncated => "The file ended before a complete lockbox structure could be read."@,
        ApiError::CorruptVaultRecord(d) | ApiError::InvalidInput(d) | ApiError::InvalidPath(d)
        | ApiError::NotFound(d) | ApiError::AlreadyExists(d) | ApiError::InvalidKeyMaterial(d)
        | ApiError::InvalidOperation(d) | ApiError::VaultUnavailable(d) | ApiError::LockUnavailable(d)
        | ApiError::Configuration(d) | ApiError::UnsupportedHostPath(d) | ApiError::Io(d)
        | ApiError::SecurityLimitExceeded(d) => d@,
    }
}

/// The next step of an engine failure; `guidance` is the engine's own
/// recovery advice for the failure.
pub open spec fn api_next(e: ApiError, guidance: Seq<char>) -> Option<Seq<char>> {
    match e {
        ApiError::InvalidInput(_) | ApiError::InvalidOperation(_) => None,
        ApiError::AlreadyExists(_) => Some("Choose another path, or explicitly replace the existing entry."@),
        ApiError::VaultUnavailable(_) => Some("Run `lbx doctor` to check the vault and session configuration."@),
        _ => Some(guidance),
    }
}

/// The text of a rendered engine failure.
pub open spec fn rendered_api_error(e: ApiError, guidance: Seq<char>, colour: bool) -> Seq<char> {
    let detail = api_detail(e);
    heading_text("Error"@, RED_BOLD@, colour) + indented(api_summary(e))
        + (if detail.len() > 0 {
            seq!['\n'] + heading_text("Details"@, YELLOW_BOLD@, colour) + indented(detail)
        } else {
            Seq::empty()
        })
        + next_step_section(api_next(e, guidance), colour)
}

fn api_summary_text(error: &ApiError) -> (r: String)
    ensures r@ == api_summary(*error),
{
    match error {
        ApiError::CorruptHeader => text::owned("Lockbox header is damaged"),
        ApiError::UnsupportedFormatVersion { artifact, .. } =>
            text::concat3("Unsupported ", artifact.as_str(), " format"),
        ApiError::CorruptRecord => text::owned("Lockbox data is damaged"),
        ApiError::CorruptVaultRecord(_) => text::owned("Vault data is damaged"),
        ApiError::InvalidInput(_) => text::owned("Invalid input"),
        ApiError::InvalidPath(_) => text::owned("Invalid lockbox path"),
        ApiError::NotFound(_) => text::owned("Lockbox entry not found"),
        ApiError::AlreadyExists(_) => text::owned("Lockbox entry already exists"),
        ApiError::InvalidKey => text::owned("Unable to open the lockbox"),
        ApiError::InvalidKeyMaterial(_) => text::owned("Invalid key"),
        ApiError::InvalidOperation(_) => text::owned("Operation is not available"),
        ApiError::VaultUnavailable(_) => text::owned("Vault is unavailable"),
        ApiError::LockUnavailable(_) => text::owned("Lockbox is in use"),
        ApiError::Configuration(_) => text::owned("Configuration problem"),
        ApiError::UnsupportedHostPath(_) => text::owned("Unsupported file type"),
        ApiError::Io(_) => text::owned("Could not access a file or platform service"),
        ApiError::SecurityLimitExceeded(_) => text::owned("Safety limit exceeded"),
        ApiError::Truncated => text::owned("Lockbox file is incomplete"),
    }
}

fn api_detail_text(error: &ApiError) -> (r: String)
    ensures r@ == api_detail(*error),
{
    match error {
        ApiError::CorruptHeader => text::owned("The file header could not be read or authenticated."),
        ApiError::UnsupportedFormatVersion { found, supported, .. } => {
            let mut out = text::owned("Found version ");
            let f = text::decimal(*found as u64);
            text::push_str(&mut out, f.as_str());
            text::push_str(&mut out, "; this reVault build supports version ");
            let s = text::decimal(*supported as u64);
            text::push_str(&mut out, s.as_str());
            text::push_str(&mut out, ".");
            out
        },
        ApiError::CorruptRecord => text::owned("A page or record failed validation."),
        ApiError::InvalidKey => text::owned("The password or key was not accepted, or the lockbox failed authentication."),
        ApiError::Truncated => text::owned("The file ended before a complete lockbox structure could be read."),
        ApiError::CorruptVaultRecord(d) | ApiError::InvalidInput(d) | ApiError::InvalidPath(d)
        | ApiError::NotFound(d) | ApiError::AlreadyExists(d) | ApiError::InvalidKeyMaterial(d)
        | ApiError::InvalidOperation(d) | ApiError::VaultUnavailable(d) | ApiError::LockUnavailable(d)
        | ApiError::Configuration(d) | ApiError::UnsupportedHostPath(d) | ApiError::Io(d)
        | ApiError::SecurityLimitExceeded(d) => text::owned(d.as_str()),
    }
}

fn api_next_text(error: &ApiError, guidance: &str) -> (r: Option<String>)
    ensures
        r is Some <==> api_next(*error, guidance@) is Some,
        r matches Some(n) ==> api_next(*error, guidance@) == Some(n@),
{
    match error {
        ApiError::InvalidInput(_) | ApiError::InvalidOperation(_) => None,
        ApiError::AlreadyExists(_) => Some(text::owned("Choose another path, or explicitly replace the existing entry.")),
        ApiError::VaultUnavailable(_) => Some(text::owned("Run `lbx doctor` to check the vault and session configuration.")),
        _ => Some(text::owned(guidance)),
    }
}

/// Renders an engine failure for the terminal, replacing low-level prefixes
/// with a plain-language summary; `guidance` is the engine's recovery advice.
pub fn render_api_error(error: &ApiError, guidance: &str, colour: bool) -> (r: String)
    ensures r@ == rendered_api_error(*error, guidance@, colour),
{
    let summary = api_summary_text(error);
    let detail = api_detail_text(error);
    let next_step = api_next_text(error, guidance);
    let mut out = String::new();
    heading(&mut out, "Error", RED_BOLD, colour);
    write_indented(&mut out, summary.as_str());
    let ghost after_summary = out@;
    if detail.as_str().unicode_len() > 0 {
        text::push_char(&mut out, '\n');
        heading(&mut out, "Details", YELLOW_BOLD, colour);
        write_indented(&mut out, detail.as_str());
    }
    let ghost after_detail = out@;
    if let Some(next) = &next_step {
        text::push_char(&mut out, '\n');
        heading(&mut out, "Next step", CYAN, colour);
        write_indented(&mut out, next.as_str());
    }
    assert(out@ =~= rendered_api_error(*error, guidance@, colour));
    out
}

/// A failure that reaches the top of a command.
#[derive(Debug)]
pub enum Failure {
    /// A structured diagnostic.
    Message(CliMessage),
    /// A storage-engine or vault failure.
    Api(ApiError),
    /// Any other failure, with its display text.
    Other(String),
}

/// The exit status of a failure.
pub open spec fn failure_exit(f: Failure) -> i32 {
    match f {
        Failure::Message(m) => exit_value(m.exit_code),
        Failure::Api(e) => exit_value(api_exit(e)),
        Failure::Other(_) => exit_value(ExitCode::General),
    }
}

/// The process exit status for a failure.
pub fn exit_code(err: &Failure) -> (r: i32)
    ensures r == failure_exit(*err),
{
    match err {
        Failure::Message(m) => m.exit_code().as_i32(),
        Failure::Api(e) => api_error_exit_code(e).as_i32(),
        Failure::Other(_) => ExitCode::General.as_i32(),
    }
}

/// The text of a rendered failure.
pub open spec fn rendered_failure(f: Failure, guidance: Seq<char>, colour: bool) -> Seq<char> {
    match f {
        Failure::Message(m) => rendered_message(m, colour),
        Failure::Api(e) => rendered_api_error(e, guidance, colour),
        Failure::Other(t) => heading_text("Error"@, RED_BOLD@, colour) + indented(t@),
    }
}

/// Renders a failure for the terminal.
pub fn render_error(err: &Failure, guidance: &str, colour: bool) -> (r: String)
    ensures r@ == rendered_failure(*err, guidance@, colour),
{
    match err {
        Failure::Message(m) => render_cli_message(m, colour),
        Failure::Api(e) => render_api_error(e, guidance, colour),
        Failure::Other(t) => {
            let mut out = String::new();
            heading(&mut out, "Error", RED_BOLD, colour);
            write_indented(&mut out, t.as_str());
            out
        },
    }
}


/// The views of labelled details.
pub open spec fn pair_views(ds: Seq<(String, String)>) -> Seq<(Seq<char>, Seq<char>)> {
    ds.map_values(|p: (String, String)| (p.0@, p.1@))
}

/// The auto-open detail of a closed lockbox, if any.
pub open spec fn auto_open_detail(reason: Option<ApiError>, reason_text: Seq<char>) -> Option<Seq<char>> {
    match reason {
        None => None,
        Some(ApiError::UnsupportedFormatVersion { artifact: ArtifactKind::Lockbox, found, supported }) =>
            if found < supported {
                Some("Your local vault uses Lockbox container format "@ + text::dec(found as nat)
                    + "; this reVault build uses container format "@ + text::dec(supported as nat) + "."@)
            } else {
                Some("Your local vault uses Lockbox container format "@ + text::dec(found as nat)
                    + "; this reVault build supports container format "@ + text::dec(supported as nat) + "."@)
            },
        Some(_) => Some(reason_text),
    }
}

/// The next step for a closed lockbox.
pub open spec fn closed_next_step(path: Seq<char>, reason: Option<ApiError>) -> Seq<char> {
    match reason {
        None => "Open the lockbox first:\n  lbx open "@ + path,
        Some(ApiError::UnsupportedFormatVersion { artifact: ArtifactKind::Lockbox, found, supported }) =>
            if found < supported {
                "Migrate the vault, then retry:\n  lbx migrate vault --replace"@
            } else {
                "Install a newer reVault release, then retry."@
            },
        Some(_) => "Open the lockbox explicitly:\n  lbx open "@ + path,
    }
}

/// The diagnostic for a lockbox that is not open. `reason` is why opening it
/// through the vault did not work (none when auto-open is off), and
/// `reason_text` is that failure's display text.
pub fn closed_lockbox_error(path: &str, reason: Option<&ApiError>, reason_text: &str) -> (r: CliMessage)
    ensures
        r.exit_code == ExitCode::LockboxClosed,
        r.summary@ == "Lockbox is closed"@,
        pair_views(r.details@) == (match auto_open_detail(match reason { Some(e) => Some(*e), None => None }, reason_text@) {
            None => seq![("Lockbox"@, path@)],
            Some(d) => seq![("Lockbox"@, path@), ("Auto-open"@, d)],
        }),
        r.next_step matches Some(n) && n@ == closed_next_step(path@, match reason { Some(e) => Some(*e), None => None }),
{
    let mut details: Vec<(String, String)> = Vec::new();
    details.push((text::owned("Lockbox"), text::owned(path)));
    let next_step = match reason {
        Some(ApiError::UnsupportedFormatVersion { artifact: ArtifactKind::Lockbox, found, supported }) => {
            let mut d = text::owned("Your local vault uses Lockbox container format ");
            let f = text::decimal(*found as u64);
            text::push_str(&mut d, f.as_str());
            if *found < *supported {
                text::push_str(&mut d, "; this reVault build uses container format ");
            } else {
                text::push_str(&mut d, "; this reVault build supports container format ");
            }
            let sv = text::decimal(*supported as u64);
            text::push_str(&mut d, sv.as_str());
            text::push_str(&mut d, ".");
            details.push((text::owned("Auto-open"), d));
            if *found < *supported {
                text::owned("Migrate the vault, then retry:\n  lbx migrate vault --replace")
            } else {
                text::owned("Install a newer reVault release, then retry.")
            }
        },
        Some(_) => {
            details.push((text::owned("Auto-open"), text::owned(reason_text)));
            text::concat2("Open the lockbox explicitly:\n  lbx open ", path)
        },
        None => text::concat2("Open the lockbox first:\n  lbx open ", path),
    };
    let r = cli_diagnostic(ExitCode::LockboxClosed, "Lockbox is closed", details, next_step.as_str());
    assert(pair_views(r.details@) =~= (match auto_open_detail(match reason { Some(e) => Some(*e), None => None }, reason_text@) {
            None => seq![("Lockbox"@, path@)],
            Some(d) => seq![("Lockbox"@, path@), ("Auto-open"@, d)],
        }));
    r
}

/// The fewest characters a new vault passphrase may have.
pub const MIN_VAULT_PASS_PHRASE_CHARS: usize = 15;

/// Accepts a new vault passphrase of at least fifteen characters.
pub fn validate_new_vault_pass_phrase(passphrase: &str) -> (r: Result<(), ApiError>)
    ensures
        passphrase@.len() >= 15 ==> r is Ok,
        passphrase@.len() < 15 ==> (r matches Err(ApiError::InvalidInput(m))
            && m@ == "Vault passphrase must be at least 15 characters"@),
{
    if passphrase.unicode_len() < MIN_VAULT_PASS_PHRASE_CHARS {
        return Err(ApiError::InvalidInput(text::owned("Vault passphrase must be at least 15 characters")));
    }
    Ok(())
}

} // verus!
