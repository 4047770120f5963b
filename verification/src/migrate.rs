//! Direct migration of a vault or an archive to the current format: the
//! registry of historical exporters, the identity of a migration, the paths it
//! works in, and the stages recorded in its journal.

use vstd::prelude::*;
use sha2::Digest;
use crate::text;
use crate::paths;
use crate::vault;
use crate::messages::{CliMessage, cli_error, is_plain_error};

verus! {

/// The kind of artifact that a migration converts.
#[derive(Clone, Copy, Debug, PartialEq, Eq, Structural)]
pub enum ArtifactKind {
    Vault,
    Archive,
    Journal,
}

/// The name of a kind as printed in messages (its `Debug` form).
pub open spec fn kind_debug(kind: ArtifactKind) -> Seq<char> {
    match kind {
        ArtifactKind::Vault => "Vault"@,
        ArtifactKind::Archive => "Archive"@,
        ArtifactKind::Journal => "Journal"@,
    }
}

/// The bytes that stand for a kind in a migration's identity.
pub open spec fn kind_tag(kind: ArtifactKind) -> Seq<char> {
    match kind {
        ArtifactKind::Vault => "vault"@,
        ArtifactKind::Archive => "archive"@,
        ArtifactKind::Journal => "journal"@,
    }
}

/// A historical exporter published on crates.io, and the capabilities it must
/// report.
#[derive(Clone, Copy, Debug)]
pub struct ExporterRelease {
    pub package: &'static str,
    pub version: &'static str,
    pub binary: &'static str,
    pub protocol: u64,
    pub artifact: &'static str,
    pub native_version: u32,
    pub migration_schema: u32,
}

/// The registered exporter of a kind and format version: the vault and the
/// archive of format version 1 have one.
pub open spec fn registered(kind: ArtifactKind, source_version: u32, r: Option<ExporterRelease>) -> bool {
    if kind == ArtifactKind::Vault && source_version == 1 {
        r matches Some(e) && e.package@ == "revault_migrate_vault_v1"@ && e.version@ == "0.0.1"@
            && e.binary@ == "revault-migrate-vault-v1"@ && e.protocol == 1 && e.artifact@ == "vault"@
            && e.native_version == 1 && e.migration_schema == 1
    } else if kind == ArtifactKind::Archive && source_version == 1 {
        r matches Some(e) && e.package@ == "revault_migrate_archive_v1"@ && e.version@ == "0.0.2"@
            && e.binary@ == "revault-migrate-archive-v1"@ && e.protocol == 2 && e.artifact@ == "archive"@
            && e.native_version == 1 && e.migration_schema == 1
    } else {
        r is None
    }
}

/// The exporter registered for a kind and format version, if any.
pub fn exporter_release(kind: ArtifactKind, source_version: u32) -> (r: Option<ExporterRelease>)
    ensures registered(kind, source_version, r),
{
    match kind {
        ArtifactKind::Vault => if source_version == 1 {
            Some(ExporterRelease {
                package: "revault_migrate_vault_v1",
                version: "0.0.1",
                binary: "revault-migrate-vault-v1",
                protocol: 1,
                artifact: "vault",
                native_version: 1,
                migration_schema: 1,
            })
        } else {
            None
        },
        ArtifactKind::Archive => if source_version == 1 {
            Some(ExporterRelease {
                package: "revault_migrate_archive_v1",
                version: "0.0.2",
                binary: "revault-migrate-archive-v1",
                protocol: 2,
                artifact: "archive",
                native_version: 1,
                migration_schema: 1,
            })
        } else {
            None
        },
        ArtifactKind::Journal => None,
    }
}

/// The exporter to use for a kind and format version, or the refusal when
/// none is registered.
pub fn registered_exporter(kind: ArtifactKind, source_version: u32) -> (r: Result<ExporterRelease, CliMessage>)
    ensures
        match r {
            Ok(e) => registered(kind, source_version, Some(e)),
            Err(m) => registered(kind, source_version, None) && is_plain_error(m, "no crates.io exporter is registered for "@
                + kind_debug(kind) + " format version "@ + text::dec(source_version as nat)),
        },
{
    match exporter_release(kind, source_version) {
        Some(e) => Ok(e),
        None => {
            let name = match kind {
                ArtifactKind::Vault => "Vault",
                ArtifactKind::Archive => "Archive",
                ArtifactKind::Journal => "Journal",
            };
            let version = text::decimal(source_version as u64);
            let mut message = text::concat3("no crates.io exporter is registered for ", name, " format version ");
            text::push_str(&mut message, version.as_str());
            Err(cli_error(message.as_str()))
        },
    }
}

/// The directory, below the exporter cache, into which a release is installed.
pub fn exporter_install_dir(cache_root: &str, release: &ExporterRelease) -> (r: String)
    ensures r@ == paths::joined(cache_root@, release.package@ + "-"@ + release.version@),
{
    let name = text::concat3(release.package, "-", release.version);
    paths::join(cache_root, name.as_str())
}

/// The file name of an exporter's binary on the running platform.
pub fn exporter_binary_name(release: &ExporterRelease, windows: bool) -> (r: String)
    ensures r@ == if windows { release.binary@ + ".exe"@ } else { release.binary@ },
{
    if windows {
        text::concat2(release.binary, ".exe")
    } else {
        text::owned(release.binary)
    }
}

/// The refusal when an exporter could not be installed, with what cargo
/// reported when it reported anything.
pub fn install_failure(release: &ExporterRelease, cargo_output: &str) -> (r: CliMessage)
    ensures
        ({
            let detail = text::trim(cargo_output@);
            is_plain_error(r, "failed to install "@ + release.package@ + " "@ + release.version@
                + " from crates.io; install it manually and pass --exporter <path>"@
                + if detail.len() == 0 { Seq::empty() } else { "\nCargo reported:\n"@ + detail })
        }),
{
    let detail = text::str_trim(cargo_output);
    let mut message = text::concat3("failed to install ", release.package, " ");
    text::push_str(&mut message, release.version);
    text::push_str(&mut message, " from crates.io; install it manually and pass --exporter <path>");
    let ghost base = message@;
    if detail.unicode_len() > 0 {
        text::push_str(&mut message, "\nCargo reported:\n");
        text::push_str(&mut message, detail);
        assert(message@ =~= base + ("\nCargo reported:\n"@ + detail@));
    } else {
        assert(message@ =~= base + Seq::<char>::empty());
    }
    cli_error(message.as_str())
}

/// What `serde_json` reads as an unsigned integer member of a JSON object
/// held in some bytes (none when the bytes are not JSON, the member is
/// missing, or it is not such a number).
pub uninterp spec fn json_u64_member(bytes: Seq<u8>, key: Seq<char>) -> Option<u64>;

/// What `serde_json` reads as a string member of a JSON object held in some
/// bytes.
pub uninterp spec fn json_str_member(bytes: Seq<u8>, key: Seq<char>) -> Option<Seq<char>>;

/// `serde_json::from_slice` into a `Value`, then `Value::get` and
/// `Value::as_u64`: an unsigned integer member of a JSON object.
#[verifier::external_body]
fn json_u64_field(bytes: &[u8], key: &str) -> (r: Option<u64>)
    ensures r == json_u64_member(bytes@, key@),
{
    serde_json::from_slice::<serde_json::Value>(bytes).ok()?.get(key)?.as_u64()
}

/// `serde_json::from_slice` into a `Value`, then `Value::get` and
/// `Value::as_str`: a string member of a JSON object.
#[verifier::external_body]
fn json_str_field(bytes: &[u8], key: &str) -> (r: Option<String>)
    ensures
        r matches Some(s) ==> json_str_member(bytes@, key@) == Some(s@),
        r is None ==> json_str_member(bytes@, key@) is None,
{
    Some(serde_json::from_slice::<serde_json::Value>(bytes).ok()?.get(key)?.as_str()?.to_string())
}

/// The capabilities an exporter reported are those of the registered release.
pub open spec fn capabilities_agree(bytes: Seq<u8>, release: ExporterRelease) -> bool {
    &&& json_u64_member(bytes, "protocol"@) == Some(release.protocol)
    &&& json_str_member(bytes, "artifact"@) == Some(release.artifact@)
    &&& json_u64_member(bytes, "native_version"@) == Some(release.native_version as u64)
    &&& json_u64_member(bytes, "migration_schema"@) == Some(release.migration_schema as u64)
}

/// Checks the JSON capabilities that an exporter printed against its release.
pub fn capabilities_match(bytes: &[u8], release: ExporterRelease) -> (r: bool)
    ensures r == capabilities_agree(bytes@, release),
{
    let protocol = json_u64_field(bytes, "protocol");
    let artifact = json_str_field(bytes, "artifact");
    let native = json_u64_field(bytes, "native_version");
    let schema = json_u64_field(bytes, "migration_schema");
    let artifact_ok = match artifact {
        Some(a) => text::str_eq(a.as_str(), release.artifact),
        None => false,
    };
    protocol == Some(release.protocol) && artifact_ok && native == Some(release.native_version as u64)
        && schema == Some(release.migration_schema as u64)
}

/// The SHA-256 digest of some bytes.
pub uninterp spec fn sha256_of(data: Seq<u8>) -> Seq<u8>;

/// `sha2::Sha256::digest`: the 32-byte SHA-256 digest of some bytes.
#[verifier::external_body]
fn sha256(data: &[u8]) -> (r: Vec<u8>)
    ensures
        r@ == sha256_of(data@),
        r@.len() == 32,
{
    sha2::Sha256::digest(data).to_vec()
}

/// What identifies a migration: its kind, its source, its destination when
/// one was given (after a zero byte), and the checksum of the source.
pub open spec fn operation_input(kind: ArtifactKind, source: Seq<char>, output: Option<Seq<char>>, fingerprint: Seq<u8>) -> Seq<u8> {
    vstd::utf8::encode_utf8(kind_tag(kind)) + vstd::utf8::encode_utf8(source)
        + match output { Some(o) => seq![0u8] + vstd::utf8::encode_utf8(o), None => Seq::empty() }
        + fingerprint
}

fn append_bytes(out: &mut Vec<u8>, b: &[u8])
    ensures final(out)@ == old(out)@ + b@,
{
    let ghost before = old(out)@;
    let mut i: usize = 0;
    while i < b.len()
        invariant
            i <= b@.len(),
            out@ == before + b@.subrange(0, i as int),
        decreases b@.len() - i,
    {
        out.push(b[i]);
        i = i + 1;
        assert(out@ =~= before + b@.subrange(0, i as int));
    }
    assert(b@.subrange(0, b@.len() as int) =~= b@);
}

/// The identity of a migration: the first 16 bytes of the SHA-256 of what
/// identifies it, so that a resumed run finds the same journal.
pub fn deterministic_operation_id(kind: ArtifactKind, source: &str, output: Option<&str>, fingerprint: &[u8]) -> (r: Vec<u8>)
    ensures
        r@ == sha256_of(operation_input(kind, source@, match output { Some(o) => Some(o@), None => None }, fingerprint@)).subrange(0, 16),
{
    let tag = match kind {
        ArtifactKind::Vault => "vault",
        ArtifactKind::Archive => "archive",
        ArtifactKind::Journal => "journal",
    };
    let mut data: Vec<u8> = Vec::new();
    append_bytes(&mut data, tag.as_bytes());
    append_bytes(&mut data, source.as_bytes());
    match output {
        Some(o) => {
            data.push(0);
            append_bytes(&mut data, o.as_bytes());
        },
        None => {},
    }
    append_bytes(&mut data, fingerprint);
    proof {
        reveal_strlit("vault");
        reveal_strlit("archive");
        reveal_strlit("journal");
    }
    assert(data@ =~= operation_input(kind, source@, match output { Some(o) => Some(o@), None => None }, fingerprint@));
    let digest = sha256(data.as_slice());
    let mut id: Vec<u8> = Vec::new();
    let mut i: usize = 0;
    while i < 16
        invariant
            i <= 16,
            digest@.len() == 32,
            id@ == digest@.subrange(0, i as int),
        decreases 16 - i,
    {
        id.push(digest[i]);
        i = i + 1;
        assert(id@ =~= digest@.subrange(0, i as int));
    }
    id
}

/// A migration identity written as lower-case hex.
pub fn hex_id(id: &[u8]) -> (r: String)
    ensures r@ == vault::hex_text(id@),
{
    crate::records::hex_digest(id)
}

/// The stages of a migration, in the order in which they are completed.
#[derive(Clone, Copy, Debug, PartialEq, Eq, Structural)]
pub enum MigrationStage {
    Export,
    Upgrade,
    Import,
    Validate,
    Replace,
    Complete,
}

/// The position of a stage in a migration.
pub open spec fn stage_rank(stage: MigrationStage) -> nat {
    match stage {
        MigrationStage::Export => 0,
        MigrationStage::Upgrade => 1,
        MigrationStage::Import => 2,
        MigrationStage::Validate => 3,
        MigrationStage::Replace => 4,
        MigrationStage::Complete => 5,
    }
}

/// The stage recorded once a stage is done: validation leads to the
/// replacement of the source when it was asked for, else to completion; the
/// last stages stay where they are.
pub open spec fn stage_after(stage: MigrationStage, replace: bool) -> MigrationStage {
    match stage {
        MigrationStage::Export => MigrationStage::Upgrade,
        MigrationStage::Upgrade => MigrationStage::Import,
        MigrationStage::Import => MigrationStage::Validate,
        MigrationStage::Validate => if replace { MigrationStage::Replace } else { MigrationStage::Complete },
        MigrationStage::Replace => MigrationStage::Replace,
        MigrationStage::Complete => MigrationStage::Complete,
    }
}

/// The stage recorded in the journal once `stage` is done.
pub fn next_stage(stage: MigrationStage, replace: bool) -> (r: MigrationStage)
    ensures r == stage_after(stage, replace),
{
    match stage {
        MigrationStage::Export => MigrationStage::Upgrade,
        MigrationStage::Upgrade => MigrationStage::Import,
        MigrationStage::Import => MigrationStage::Validate,
        MigrationStage::Validate => if replace { MigrationStage::Replace } else { MigrationStage::Complete },
        MigrationStage::Replace => MigrationStage::Replace,
        MigrationStage::Complete => MigrationStage::Complete,
    }
}

/// A journal only moves forward: each completed stage records a later one,
/// until the migration reaches its final stage.
pub proof fn lemma_stages_advance(stage: MigrationStage, replace: bool)
    ensures
        stage_rank(stage) < 4 ==> stage_rank(stage_after(stage, replace)) == stage_rank(stage) + 1
            || (stage == MigrationStage::Validate && !replace && stage_after(stage, replace) == MigrationStage::Complete),
        stage_rank(stage) >= 4 ==> stage_after(stage, replace) == stage,
{
}

/// The stages visited from a given stage, four steps at most.
pub open spec fn run_from(stage: MigrationStage, replace: bool, steps: nat) -> MigrationStage
    decreases steps,
{
    if steps == 0 { stage } else { run_from(stage_after(stage, replace), replace, (steps - 1) as nat) }
}

/// A migration started at the export stage ends, after its four stages, in
/// the replacement of the source when it was asked for, and complete otherwise.
pub proof fn lemma_migration_reaches_its_end(replace: bool)
    ensures
        run_from(MigrationStage::Export, replace, 4) == if replace { MigrationStage::Replace } else { MigrationStage::Complete },
{
    reveal_with_fuel(run_from, 5);
}

/// Before the source is replaced, the journal must say that this is the stage.
pub fn check_replacement_stage(stage: MigrationStage, kind: &str) -> (r: Result<(), CliMessage>)
    ensures
        stage == MigrationStage::Replace ==> r is Ok,
        stage != MigrationStage::Replace ==> (r matches Err(m) && is_plain_error(m,
            kind@ + " migration journal has an invalid replacement stage"@)),
{
    if stage != MigrationStage::Replace {
        return Err(cli_error(text::concat2(kind, " migration journal has an invalid replacement stage").as_str()));
    }
    Ok(())
}

/// A migration that replaces nothing needs a destination.
pub fn require_destination(replace: bool, output: Option<&str>, kind: &str) -> (r: Result<(), CliMessage>)
    ensures
        !replace && output is None ==> (r matches Err(m) && is_plain_error(m, kind@
            + " migration requires --output <path>, or pass --replace to retain a backup and replace the source"@)),
        !(!replace && output is None) ==> r is Ok,
{
    if !replace && output.is_none() {
        return Err(cli_error(text::concat2(kind, " migration requires --output <path>, or pass --replace to retain a backup and replace the source").as_str()));
    }
    Ok(())
}

/// Refuses to write over a destination that no journal of this migration owns.
pub fn reject_unowned_destination(journal_exists: bool, output_exists: bool, output: &str) -> (r: Result<(), CliMessage>)
    ensures
        !journal_exists && output_exists ==> (r matches Err(m)
            && is_plain_error(m, "migration destination already exists: "@ + output@)),
        !(!journal_exists && output_exists) ==> r is Ok,
{
    if !journal_exists && output_exists {
        return Err(cli_error(text::concat2("migration destination already exists: ", output).as_str()));
    }
    Ok(())
}

/// What a migration journal records of the migration it belongs to.
#[derive(Debug)]
pub struct JournalIdentity {
    pub artifact_kind: ArtifactKind,
    pub source_path: String,
    pub source_format_version: u32,
    pub source_fingerprint: Vec<u8>,
    pub current_stage: MigrationStage,
}

/// A saved migration is resumed only for the same source, unchanged; and an
/// export is not resumed over a destination that already exists.
pub fn validate_resume(
    journal: &JournalIdentity,
    kind: ArtifactKind,
    source: &str,
    source_version: u32,
    fingerprint: &[u8],
    output: &str,
    output_exists: bool,
) -> (r: Result<(), CliMessage>)
    ensures
        ({
            let same = journal.artifact_kind == kind && paths::same_path_as(journal.source_path@, source@)
                && journal.source_format_version == source_version && journal.source_fingerprint@ == fingerprint@;
            &&& !same ==> (r matches Err(m) && is_plain_error(m,
                "the saved migration does not match the current source; the source may have changed"@))
            &&& same && journal.current_stage == MigrationStage::Export && output_exists ==> (r matches Err(m)
                && is_plain_error(m, "migration destination already exists without a completed import: "@ + output@))
            &&& same && !(journal.current_stage == MigrationStage::Export && output_exists) ==> r is Ok
        }),
{
    let same_source = paths::same_path(journal.source_path.as_str(), source);
    let same_fingerprint = same_bytes(journal.source_fingerprint.as_slice(), fingerprint);
    if journal.artifact_kind != kind || !same_source || journal.source_format_version != source_version || !same_fingerprint {
        return Err(cli_error("the saved migration does not match the current source; the source may have changed"));
    }
    if journal.current_stage == MigrationStage::Export && output_exists {
        return Err(cli_error(text::concat2("migration destination already exists without a completed import: ", output).as_str()));
    }
    Ok(())
}

fn same_bytes(a: &[u8], b: &[u8]) -> (r: bool)
    ensures r == (a@ == b@),
{
    if a.len() != b.len() {
        return false;
    }
    let mut i: usize = 0;
    while i < a.len()
        invariant
            i <= a@.len(),
            a@.len() == b@.len(),
            forall|k: int| 0 <= k < i ==> a@[k] == b@[k],
        decreases a@.len() - i,
    {
        if a[i] != b[i] {
            return false;
        }
        i = i + 1;
    }
    assert(a@ =~= b@);
    true
}

/// The directory beside the source in which a migration keeps its work.
pub fn migration_work_dir(source: &str, operation_id: &[u8]) -> (r: Result<String, CliMessage>)
    ensures
        match paths::parent_of(source@) {
            Some(p) => r matches Ok(d) && d@ == paths::joined(p, ".revault-migration-"@ + vault::hex_text(operation_id@)),
            None => r matches Err(m) && is_plain_error(m, "migration source has no parent"@),
        },
{
    match paths::parent(source) {
        Some(p) => {
            let id = hex_id(operation_id);
            let name = text::concat2(".revault-migration-", id.as_str());
            Ok(paths::join(p.as_str(), name.as_str()))
        },
        None => Err(cli_error("migration source has no parent")),
    }
}

/// Where a migrated vault is built before it replaces the source.
pub fn temporary_vault_destination(source: &str, id: &[u8]) -> (r: String)
    ensures r@ == paths::with_file_name_of(source@, ".vault-migrated-"@ + vault::hex_text(id@)),
{
    let hex = hex_id(id);
    let name = text::concat2(".vault-migrated-", hex.as_str());
    paths::with_file_name(source, name.as_str())
}

/// Where a migrated archive is built before it replaces the source.
pub fn temporary_archive_destination(source: &str, id: &[u8]) -> (r: String)
    ensures r@ == paths::with_file_name_of(source@, ".archive-migrated-"@ + vault::hex_text(id@) + ".lbox"@),
{
    let hex = hex_id(id);
    let name = text::concat3(".archive-migrated-", hex.as_str(), ".lbox");
    paths::with_file_name(source, name.as_str())
}

/// Where the source is kept once a migration has replaced it.
pub fn versioned_backup_path(source: &str, version: u32) -> (r: String)
    ensures
        ({
            let name = match paths::file_name_of(source@) { Some(n) => n, None => "artifact"@ };
            r@ == paths::with_file_name_of(source@, name + ".v"@ + text::dec(version as nat) + ".pre-migration"@)
        }),
{
    let name = match paths::file_name(source) {
        Some(n) => n,
        None => text::owned("artifact"),
    };
    let v = text::decimal(version as u64);
    let mut file = text::concat3(name.as_str(), ".v", v.as_str());
    text::push_str(&mut file, ".pre-migration");
    paths::with_file_name(source, file.as_str())
}

} // verus!
