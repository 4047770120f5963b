//! The decisions of a direct migration of the vault or of an archive, between
//! the steps that probe, export, upgrade, import and replace: which step
//! comes next, when the migration is refused, and what is reported.

use vstd::prelude::*;
use crate::text;
use crate::migrate::{MigrationStage, stage_after};
use crate::messages::{CliMessage, cli_error, is_plain_error};

verus! {

/// Where a migration stands.
#[derive(Clone, Copy, Debug, PartialEq, Eq, Structural)]
pub enum MigrationPhase {
    /// Nothing checked yet.
    Start,
    /// An archive migration waits for the state of the vault.
    CheckingVault,
    /// Waiting to learn whether the source exists.
    CheckingSource,
    /// Waiting for the recovery of an interrupted replacement.
    Recovering,
    /// Waiting for the source version and the saved journal.
    Probing,
    /// Waiting for a fresh artifact key.
    GeneratingKey,
    /// Running a stage of the journal.
    Running(MigrationStage),
    /// Waiting to learn whether the backup path is free.
    CheckingBackup,
    /// Waiting for the source to be moved to the backup and the output into its place.
    Swapping,
    /// The migration has ended.
    Done,
}

/// The options of a migration and what it has learnt so far.
#[derive(Clone, Copy, Debug)]
pub struct MigrationState {
    pub phase: MigrationPhase,
    /// An archive (a lockbox) is migrated, not the vault.
    pub archive: bool,
    /// The source is replaced, keeping a backup.
    pub replace: bool,
    /// A destination was given with `--output`.
    pub has_output: bool,
    /// The vault format version that this build writes.
    pub vault_current: u32,
    /// The format version that this build writes for the migrated artifact.
    pub artifact_current: u32,
    /// The format version of the source, once probed.
    pub source_version: u32,
    /// The stage that the journal records.
    pub stage: MigrationStage,
}

/// What a step of the migration reports back.
#[derive(Clone, Copy, Debug)]
pub enum MigrationEvent {
    Begin,
    /// The vault (for an archive migration): whether it exists, and its version.
    VaultChecked { present: bool, version: u32 },
    /// Whether the source exists.
    SourceChecked { exists: bool },
    /// Whether an interrupted replacement was found and completed.
    Recovered(bool),
    /// The source's version and the saved or new journal: whether a journal
    /// existed before, whether the destination exists, whether the journal
    /// belongs to this source unchanged, its stage and whether it holds an
    /// artifact key.
    Probed {
        source_version: u32,
        journal_existed: bool,
        output_exists: bool,
        journal_matches: bool,
        stage: MigrationStage,
        has_artifact_key: bool,
    },
    /// A fresh artifact key was generated.
    KeyGenerated,
    /// The running stage is done (and, for the vault's validation, passed).
    StageDone,
    /// The migrated vault has another format version than this build writes.
    ValidationFailed,
    /// Whether the backup path is already taken.
    BackupChecked { exists: bool },
    /// The source and the output were swapped.
    Swapped,
}

/// Why a migration is refused.
#[derive(Clone, Copy, Debug, PartialEq, Eq, Structural)]
pub enum MigrationFailure {
    NeedsDestination,
    NoVault,
    VaultTooOld { version: u32 },
    VaultTooNew { version: u32 },
    DestinationExists,
    JournalMismatch,
    DestinationWithoutImport,
    KeyPredatesJournal,
    ValidationFailed,
    InvalidReplacementStage,
    BackupExists,
    /// An event that does not belong to the phase the migration is in.
    OutOfOrder,
}

/// How a migration ended without failing.
#[derive(Clone, Copy, Debug, PartialEq, Eq, Structural)]
pub enum MigrationOutcome {
    /// An interrupted replacement was completed.
    RecoveredReplacement,
    /// The migrated artifact was written to the destination.
    WrittenToOutput,
    /// The source was replaced and kept as a backup.
    Replaced,
}

/// What the caller does next.
#[derive(Clone, Copy, Debug, PartialEq, Eq, Structural)]
pub enum MigrationAction {
    /// Probe the vault that an archive migration needs.
    CheckVault,
    /// Check whether the source exists.
    CheckSource,
    /// Complete an interrupted replacement, if there is one.
    Recover,
    /// Probe the source version, fingerprint it and load or create the journal.
    Probe,
    /// Generate an artifact key and record it in the journal.
    GenerateKey,
    /// Export the source to an artifact: with this build's exporter when the
    /// source has the current version (`native`), else with the registered
    /// historical exporter.
    Export { native: bool },
    Upgrade,
    Import,
    Validate,
    /// Check whether the backup path is free.
    CheckBackup,
    /// Move the source to the backup and the output into its place.
    Swap,
    Fail(MigrationFailure),
    Finish(MigrationOutcome),
}

pub open spec fn at(s: MigrationState, phase: MigrationPhase) -> MigrationState {
    MigrationState { phase, ..s }
}

pub open spec fn stop(s: MigrationState, a: MigrationAction) -> (MigrationState, MigrationAction) {
    (at(s, MigrationPhase::Done), a)
}

/// What follows once the journal is at `stage`: the stage's own work, or,
/// past validation, the end of the migration.
pub open spec fn run_stage(s: MigrationState) -> (MigrationState, MigrationAction) {
    match s.stage {
        MigrationStage::Export => (at(s, MigrationPhase::Running(MigrationStage::Export)),
            MigrationAction::Export { native: s.source_version == s.artifact_current }),
        MigrationStage::Upgrade => (at(s, MigrationPhase::Running(MigrationStage::Upgrade)), MigrationAction::Upgrade),
        MigrationStage::Import => (at(s, MigrationPhase::Running(MigrationStage::Import)), MigrationAction::Import),
        MigrationStage::Validate => (at(s, MigrationPhase::Running(MigrationStage::Validate)), MigrationAction::Validate),
        _ => if s.replace {
            if !s.archive && s.stage != MigrationStage::Replace {
                stop(s, MigrationAction::Fail(MigrationFailure::InvalidReplacementStage))
            } else {
                (at(s, MigrationPhase::CheckingBackup), MigrationAction::CheckBackup)
            }
        } else {
            stop(s, MigrationAction::Finish(MigrationOutcome::WrittenToOutput))
        },
    }
}

/// One decision of a migration: the state after an event, and what to do.
pub open spec fn migration_step(s: MigrationState, e: MigrationEvent) -> (MigrationState, MigrationAction) {
    match (s.phase, e) {
        (MigrationPhase::Start, MigrationEvent::Begin) => if !s.replace && !s.has_output {
            stop(s, MigrationAction::Fail(MigrationFailure::NeedsDestination))
        } else if s.archive {
            (at(s, MigrationPhase::CheckingVault), MigrationAction::CheckVault)
        } else {
            (at(s, MigrationPhase::CheckingSource), MigrationAction::CheckSource)
        },
        (MigrationPhase::CheckingVault, MigrationEvent::VaultChecked { present, version }) => if !present {
            stop(s, MigrationAction::Fail(MigrationFailure::NoVault))
        } else if version < s.vault_current {
            stop(s, MigrationAction::Fail(MigrationFailure::VaultTooOld { version }))
        } else if version > s.vault_current {
            stop(s, MigrationAction::Fail(MigrationFailure::VaultTooNew { version }))
        } else {
            (at(s, MigrationPhase::CheckingSource), MigrationAction::CheckSource)
        },
        (MigrationPhase::CheckingSource, MigrationEvent::SourceChecked { exists }) => if exists {
            (at(s, MigrationPhase::Probing), MigrationAction::Probe)
        } else {
            (at(s, MigrationPhase::Recovering), MigrationAction::Recover)
        },
        (MigrationPhase::Recovering, MigrationEvent::Recovered(done)) => if done {
            stop(s, MigrationAction::Finish(MigrationOutcome::RecoveredReplacement))
        } else {
            (at(s, MigrationPhase::Probing), MigrationAction::Probe)
        },
        (MigrationPhase::Probing, MigrationEvent::Probed { source_version, journal_existed, output_exists,
            journal_matches, stage, has_artifact_key }) => {
            let t = MigrationState { source_version, stage, ..s };
            if !journal_existed && output_exists {
                stop(t, MigrationAction::Fail(MigrationFailure::DestinationExists))
            } else if !journal_matches {
                stop(t, MigrationAction::Fail(MigrationFailure::JournalMismatch))
            } else if stage == MigrationStage::Export && output_exists {
                stop(t, MigrationAction::Fail(MigrationFailure::DestinationWithoutImport))
            } else if !has_artifact_key && stage != MigrationStage::Export {
                stop(t, MigrationAction::Fail(MigrationFailure::KeyPredatesJournal))
            } else if !has_artifact_key {
                (at(t, MigrationPhase::GeneratingKey), MigrationAction::GenerateKey)
            } else {
                run_stage(t)
            }
        },
        (MigrationPhase::GeneratingKey, MigrationEvent::KeyGenerated) => run_stage(s),
        (MigrationPhase::Running(st), MigrationEvent::StageDone) =>
            run_stage(MigrationState { stage: stage_after(st, s.replace), ..s }),
        (MigrationPhase::Running(MigrationStage::Validate), MigrationEvent::ValidationFailed) => if !s.archive {
            stop(s, MigrationAction::Fail(MigrationFailure::ValidationFailed))
        } else {
            stop(s, MigrationAction::Fail(MigrationFailure::OutOfOrder))
        },
        (MigrationPhase::CheckingBackup, MigrationEvent::BackupChecked { exists }) => if exists {
            stop(s, MigrationAction::Fail(MigrationFailure::BackupExists))
        } else {
            (at(s, MigrationPhase::Swapping), MigrationAction::Swap)
        },
        (MigrationPhase::Swapping, MigrationEvent::Swapped) =>
            stop(s, MigrationAction::Finish(MigrationOutcome::Replaced)),
        _ => stop(s, MigrationAction::Fail(MigrationFailure::OutOfOrder)),
    }
}

/// The state at the start of a migration.
pub fn migration_begin(archive: bool, replace: bool, has_output: bool, vault_current: u32, artifact_current: u32)
    -> (r: MigrationState)
    ensures
        r == (MigrationState { phase: MigrationPhase::Start, archive, replace, has_output, vault_current,
            artifact_current, source_version: 0, stage: MigrationStage::Export }),
{
    MigrationState { phase: MigrationPhase::Start, archive, replace, has_output, vault_current, artifact_current,
        source_version: 0, stage: MigrationStage::Export }
}

fn run_stage_exec(s: MigrationState) -> (r: (MigrationState, MigrationAction))
    ensures r == run_stage(s),
{
    match s.stage {
        MigrationStage::Export => (MigrationState { phase: MigrationPhase::Running(MigrationStage::Export), ..s },
            MigrationAction::Export { native: s.source_version == s.artifact_current }),
        MigrationStage::Upgrade => (MigrationState { phase: MigrationPhase::Running(MigrationStage::Upgrade), ..s },
            MigrationAction::Upgrade),
        MigrationStage::Import => (MigrationState { phase: MigrationPhase::Running(MigrationStage::Import), ..s },
            MigrationAction::Import),
        MigrationStage::Validate => (MigrationState { phase: MigrationPhase::Running(MigrationStage::Validate), ..s },
            MigrationAction::Validate),
        _ => {
            let done = MigrationState { phase: MigrationPhase::Done, ..s };
            if s.replace {
                if !s.archive && !matches!(s.stage, MigrationStage::Replace) {
                    (done, MigrationAction::Fail(MigrationFailure::InvalidReplacementStage))
                } else {
                    (MigrationState { phase: MigrationPhase::CheckingBackup, ..s }, MigrationAction::CheckBackup)
                }
            } else {
                (done, MigrationAction::Finish(MigrationOutcome::WrittenToOutput))
            }
        },
    }
}

/// The next decision of a migration.
pub fn migration_next(state: &MigrationState, event: MigrationEvent) -> (r: (MigrationState, MigrationAction))
    ensures r == migration_step(*state, event),
{
    let s = *state;
    let done = MigrationState { phase: MigrationPhase::Done, ..s };
    match (s.phase, event) {
        (MigrationPhase::Start, MigrationEvent::Begin) => if !s.replace && !s.has_output {
            (done, MigrationAction::Fail(MigrationFailure::NeedsDestination))
        } else if s.archive {
            (MigrationState { phase: MigrationPhase::CheckingVault, ..s }, MigrationAction::CheckVault)
        } else {
            (MigrationState { phase: MigrationPhase::CheckingSource, ..s }, MigrationAction::CheckSource)
        },
        (MigrationPhase::CheckingVault, MigrationEvent::VaultChecked { present, version }) => if !present {
            (done, MigrationAction::Fail(MigrationFailure::NoVault))
        } else if version < s.vault_current {
            (done, MigrationAction::Fail(MigrationFailure::VaultTooOld { version }))
        } else if version > s.vault_current {
            (done, MigrationAction::Fail(MigrationFailure::VaultTooNew { version }))
        } else {
            (MigrationState { phase: MigrationPhase::CheckingSource, ..s }, MigrationAction::CheckSource)
        },
        (MigrationPhase::CheckingSource, MigrationEvent::SourceChecked { exists }) => if exists {
            (MigrationState { phase: MigrationPhase::Probing, ..s }, MigrationAction::Probe)
        } else {
            (MigrationState { phase: MigrationPhase::Recovering, ..s }, MigrationAction::Recover)
        },
        (MigrationPhase::Recovering, MigrationEvent::Recovered(recovered)) => if recovered {
            (done, MigrationAction::Finish(MigrationOutcome::RecoveredReplacement))
        } else {
            (MigrationState { phase: MigrationPhase::Probing, ..s }, MigrationAction::Probe)
        },
        (MigrationPhase::Probing, MigrationEvent::Probed { source_version, journal_existed, output_exists,
            journal_matches, stage, has_artifact_key }) => {
            let t = MigrationState { source_version, stage, ..s };
            let t_done = MigrationState { phase: MigrationPhase::Done, ..t };
            let at_export = matches!(stage, MigrationStage::Export);
            if !journal_existed && output_exists {
                (t_done, MigrationAction::Fail(MigrationFailure::DestinationExists))
            } else if !journal_matches {
                (t_done, MigrationAction::Fail(MigrationFailure::JournalMismatch))
            } else if at_export && output_exists {
                (t_done, MigrationAction::Fail(MigrationFailure::DestinationWithoutImport))
            } else if !has_artifact_key && !at_export {
                (t_done, MigrationAction::Fail(MigrationFailure::KeyPredatesJournal))
            } else if !has_artifact_key {
                (MigrationState { phase: MigrationPhase::GeneratingKey, ..t }, MigrationAction::GenerateKey)
            } else {
                run_stage_exec(t)
            }
        },
        (MigrationPhase::GeneratingKey, MigrationEvent::KeyGenerated) => run_stage_exec(s),
        (MigrationPhase::Running(st), MigrationEvent::StageDone) => {
            let next = crate::migrate::next_stage(st, s.replace);
            run_stage_exec(MigrationState { stage: next, ..s })
        },
        (MigrationPhase::Running(MigrationStage::Validate), MigrationEvent::ValidationFailed) => if !s.archive {
            (done, MigrationAction::Fail(MigrationFailure::ValidationFailed))
        } else {
            (done, MigrationAction::Fail(MigrationFailure::OutOfOrder))
        },
        (MigrationPhase::CheckingBackup, MigrationEvent::BackupChecked { exists }) => if exists {
            (done, MigrationAction::Fail(MigrationFailure::BackupExists))
        } else {
            (MigrationState { phase: MigrationPhase::Swapping, ..s }, MigrationAction::Swap)
        },
        (MigrationPhase::Swapping, MigrationEvent::Swapped) =>
            (done, MigrationAction::Finish(MigrationOutcome::Replaced)),
        _ => (done, MigrationAction::Fail(MigrationFailure::OutOfOrder)),
    }
}

/// The name of the migrated artifact in messages.
pub open spec fn artifact_word(archive: bool) -> Seq<char> {
    if archive { "archive"@ } else { "vault"@ }
}

/// The message of a refused migration; `path` is the destination, or the
/// backup path for `BackupExists`.
pub open spec fn migration_failure_summary(s: MigrationState, f: MigrationFailure, path: Seq<char>) -> Seq<char> {
    match f {
        MigrationFailure::NeedsDestination => artifact_word(s.archive)
            + " migration requires --output <path>, or pass --replace to retain a backup and replace the source"@,
        MigrationFailure::NoVault => "archive migration requires a current vault; run `lockbox vault init` first"@,
        MigrationFailure::VaultTooOld { version } =>
            "archive migration requires the vault to be migrated first; vault format version "@
            + text::dec(version as nat) + " is older than the current version "@ + text::dec(s.vault_current as nat)
            + ". Run `lockbox migrate vault --replace` or migrate it with `--output <directory>`"@,
        MigrationFailure::VaultTooNew { version } => "archive migration cannot run with a newer vault format version "@
            + text::dec(version as nat) + "; this build supports version "@ + text::dec(s.vault_current as nat)
            + ". Install a newer reVault release"@,
        MigrationFailure::DestinationExists => "migration destination already exists: "@ + path,
        MigrationFailure::JournalMismatch =>
            "the saved migration does not match the current source; the source may have changed"@,
        MigrationFailure::DestinationWithoutImport =>
            "migration destination already exists without a completed import: "@ + path,
        MigrationFailure::KeyPredatesJournal =>
            "the saved migration state predates generated migration keys; remove the incomplete migration state and retry"@,
        MigrationFailure::ValidationFailed => "migrated vault validation failed"@,
        MigrationFailure::InvalidReplacementStage => "vault migration journal has an invalid replacement stage"@,
        MigrationFailure::BackupExists => "migration backup already exists: "@ + path,
        MigrationFailure::OutOfOrder => artifact_word(s.archive) + " migration received a step out of order"@,
    }
}

/// The diagnostic of a refused migration.
pub fn migration_failure_message(s: &MigrationState, f: MigrationFailure, path: &str) -> (r: CliMessage)
    ensures is_plain_error(r, migration_failure_summary(*s, f, path@)),
{
    let word = if s.archive { "archive" } else { "vault" };
    let summary = match f {
        MigrationFailure::NeedsDestination => text::concat2(word,
            " migration requires --output <path>, or pass --replace to retain a backup and replace the source"),
        MigrationFailure::NoVault => text::owned("archive migration requires a current vault; run `lockbox vault init` first"),
        MigrationFailure::VaultTooOld { version } => {
            let v = text::decimal(version as u64);
            let c = text::decimal(s.vault_current as u64);
            let mut m = text::concat3("archive migration requires the vault to be migrated first; vault format version ",
                v.as_str(), " is older than the current version ");
            text::push_str(&mut m, c.as_str());
            text::push_str(&mut m, ". Run `lockbox migrate vault --replace` or migrate it with `--output <directory>`");
            m
        },
        MigrationFailure::VaultTooNew { version } => {
            let v = text::decimal(version as u64);
            let c = text::decimal(s.vault_current as u64);
            let mut m = text::concat3("archive migration cannot run with a newer vault format version ", v.as_str(),
                "; this build supports version ");
            text::push_str(&mut m, c.as_str());
            text::push_str(&mut m, ". Install a newer reVault release");
            m
        },
        MigrationFailure::DestinationExists => text::concat2("migration destination already exists: ", path),
        MigrationFailure::JournalMismatch => text::owned(
            "the saved migration does not match the current source; the source may have changed"),
        MigrationFailure::DestinationWithoutImport => text::concat2(
            "migration destination already exists without a completed import: ", path),
        MigrationFailure::KeyPredatesJournal => text::owned(
            "the saved migration state predates generated migration keys; remove the incomplete migration state and retry"),
        MigrationFailure::ValidationFailed => text::owned("migrated vault validation failed"),
        MigrationFailure::InvalidReplacementStage => text::owned("vault migration journal has an invalid replacement stage"),
        MigrationFailure::BackupExists => text::concat2("migration backup already exists: ", path),
        MigrationFailure::OutOfOrder => text::concat2(word, " migration received a step out of order"),
    };
    cli_error(summary.as_str())
}

/// The lines printed when a migration ends: `path` is the backup for a
/// replacement and the destination otherwise.
pub open spec fn migration_outcome_lines(s: MigrationState, o: MigrationOutcome, path: Seq<char>) -> Seq<Seq<char>> {
    let chain: Seq<Seq<char>> = if s.archive {
        seq!["A new signed commit chain was created for the migrated archive."@]
    } else {
        Seq::empty()
    };
    match o {
        MigrationOutcome::RecoveredReplacement => seq!["Completed the interrupted "@ + artifact_word(s.archive)
            + " replacement."@],
        MigrationOutcome::WrittenToOutput => seq![(if s.archive { "Archive"@ } else { "Vault"@ })
            + " migrated to "@ + path] + chain,
        MigrationOutcome::Replaced => seq![(if s.archive { "Archive"@ } else { "Vault"@ })
            + " migrated to format version "@ + text::dec(s.artifact_current as nat) + "."@,
            "Previous "@ + artifact_word(s.archive) + " retained at "@ + path] + chain,
    }
}

pub open spec fn line_views(v: Seq<String>) -> Seq<Seq<char>> {
    v.map_values(|s: String| s@)
}

/// The lines printed when a migration ends.
pub fn migration_outcome_text(s: &MigrationState, o: MigrationOutcome, path: &str) -> (r: Vec<String>)
    ensures line_views(r@) == migration_outcome_lines(*s, o, path@),
{
    let word = if s.archive { "archive" } else { "vault" };
    let title = if s.archive { "Archive" } else { "Vault" };
    let mut out: Vec<String> = Vec::new();
    match o {
        MigrationOutcome::RecoveredReplacement => {
            out.push(text::concat3("Completed the interrupted ", word, " replacement."));
            return out;
        },
        MigrationOutcome::WrittenToOutput => {
            out.push(text::concat3(title, " migrated to ", path));
        },
        MigrationOutcome::Replaced => {
            let v = text::decimal(s.artifact_current as u64);
            let mut first = text::concat3(title, " migrated to format version ", v.as_str());
            text::push_str(&mut first, ".");
            out.push(first);
            let mut second = text::concat3("Previous ", word, " retained at ");
            text::push_str(&mut second, path);
            out.push(second);
        },
    }
    if s.archive {
        out.push(text::owned("A new signed commit chain was created for the migrated archive."));
    }
    proof {
        assert(line_views(out@) =~= migration_outcome_lines(*s, o, path@));
    }
    out
}

/// A migration that resumes from a journal runs the remaining stages in
/// order and ends at its replacement or its completion: from a saved export
/// stage with an artifact key, the next actions are export, upgrade, import,
/// validate, and then the backup check or the end.
pub proof fn lemma_stages_run_in_order(s: MigrationState, version: u32, output_exists: bool)
    requires
        s.phase == MigrationPhase::Probing,
        !output_exists,
    ensures ({
        let (s1, a1) = migration_step(s, MigrationEvent::Probed { source_version: version, journal_existed: true,
            output_exists, journal_matches: true, stage: MigrationStage::Export, has_artifact_key: true });
        let (s2, a2) = migration_step(s1, MigrationEvent::StageDone);
        let (s3, a3) = migration_step(s2, MigrationEvent::StageDone);
        let (s4, a4) = migration_step(s3, MigrationEvent::StageDone);
        let (s5, a5) = migration_step(s4, MigrationEvent::StageDone);
        &&& a1 == MigrationAction::Export { native: version == s.artifact_current }
        &&& a2 == MigrationAction::Upgrade
        &&& a3 == MigrationAction::Import
        &&& a4 == MigrationAction::Validate
        &&& a5 == if s.replace { MigrationAction::CheckBackup } else {
            MigrationAction::Finish(MigrationOutcome::WrittenToOutput) }
    }),
{
}

/// The source is swapped only once the backup path was found free, and the
/// backup is looked for only when a replacement was asked for.
pub proof fn lemma_swap_needs_free_backup(s: MigrationState, e: MigrationEvent)
    ensures
        migration_step(s, e).1 == MigrationAction::Swap ==> s.phase == MigrationPhase::CheckingBackup
            && e == (MigrationEvent::BackupChecked { exists: false }),
        migration_step(s, e).1 == MigrationAction::CheckBackup ==> s.replace,
{
}

} // verus!
