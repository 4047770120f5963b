use revault_cli::migrate::MigrationStage;
use revault_cli::migration_run::{
    migration_begin, migration_failure_message, migration_next, migration_outcome_text, MigrationAction,
    MigrationEvent, MigrationFailure, MigrationOutcome, MigrationState,
};

fn step(s: &MigrationState, e: MigrationEvent) -> (MigrationState, MigrationAction) {
    migration_next(s, e)
}

fn probed(stage: MigrationStage, key: bool, output_exists: bool, journal_existed: bool, matches: bool) -> MigrationEvent {
    MigrationEvent::Probed {
        source_version: 1,
        journal_existed,
        output_exists,
        journal_matches: matches,
        stage,
        has_artifact_key: key,
    }
}

#[test]
fn a_destination_or_replace_is_required() {
    let s = migration_begin(false, false, false, 3, 2);
    let (s, a) = step(&s, MigrationEvent::Begin);
    assert_eq!(a, MigrationAction::Fail(MigrationFailure::NeedsDestination));
    assert_eq!(
        migration_failure_message(&s, MigrationFailure::NeedsDestination, "").summary,
        "vault migration requires --output <path>, or pass --replace to retain a backup and replace the source"
    );
}

#[test]
fn archive_migration_needs_the_current_vault() {
    let s = migration_begin(true, true, false, 3, 2);
    let (s, a) = step(&s, MigrationEvent::Begin);
    assert_eq!(a, MigrationAction::CheckVault);
    let (_, a) = step(&s, MigrationEvent::VaultChecked { present: false, version: 0 });
    assert_eq!(a, MigrationAction::Fail(MigrationFailure::NoVault));
    let (t, a) = step(&s, MigrationEvent::VaultChecked { present: true, version: 2 });
    assert_eq!(a, MigrationAction::Fail(MigrationFailure::VaultTooOld { version: 2 }));
    assert_eq!(
        migration_failure_message(&t, MigrationFailure::VaultTooOld { version: 2 }, "").summary,
        "archive migration requires the vault to be migrated first; vault format version 2 is older than the current version 3. Run `lockbox migrate vault --replace` or migrate it with `--output <directory>`"
    );
    let (_, a) = step(&s, MigrationEvent::VaultChecked { present: true, version: 4 });
    assert_eq!(a, MigrationAction::Fail(MigrationFailure::VaultTooNew { version: 4 }));
    let (_, a) = step(&s, MigrationEvent::VaultChecked { present: true, version: 3 });
    assert_eq!(a, MigrationAction::CheckSource);
}

#[test]
fn a_missing_source_tries_recovery() {
    let s = migration_begin(false, true, false, 3, 3);
    let (s, _) = step(&s, MigrationEvent::Begin);
    let (s, a) = step(&s, MigrationEvent::SourceChecked { exists: false });
    assert_eq!(a, MigrationAction::Recover);
    let (t, a) = step(&s, MigrationEvent::Recovered(true));
    assert_eq!(a, MigrationAction::Finish(MigrationOutcome::RecoveredReplacement));
    assert_eq!(
        migration_outcome_text(&t, MigrationOutcome::RecoveredReplacement, ""),
        vec!["Completed the interrupted vault replacement."]
    );
    let (_, a) = step(&s, MigrationEvent::Recovered(false));
    assert_eq!(a, MigrationAction::Probe);
}

#[test]
fn saved_journals_are_checked() {
    let s = migration_begin(false, false, true, 3, 3);
    let (s, _) = step(&s, MigrationEvent::Begin);
    let (s, _) = step(&s, MigrationEvent::SourceChecked { exists: true });
    let (_, a) = step(&s, probed(MigrationStage::Export, true, true, false, true));
    assert_eq!(a, MigrationAction::Fail(MigrationFailure::DestinationExists));
    let (_, a) = step(&s, probed(MigrationStage::Export, true, false, true, false));
    assert_eq!(a, MigrationAction::Fail(MigrationFailure::JournalMismatch));
    let (_, a) = step(&s, probed(MigrationStage::Export, true, true, true, true));
    assert_eq!(a, MigrationAction::Fail(MigrationFailure::DestinationWithoutImport));
    let (t, a) = step(&s, probed(MigrationStage::Upgrade, false, false, true, true));
    assert_eq!(a, MigrationAction::Fail(MigrationFailure::KeyPredatesJournal));
    assert_eq!(
        migration_failure_message(&t, MigrationFailure::KeyPredatesJournal, "").summary,
        "the saved migration state predates generated migration keys; remove the incomplete migration state and retry"
    );
    let (s2, a) = step(&s, probed(MigrationStage::Export, false, false, true, true));
    assert_eq!(a, MigrationAction::GenerateKey);
    let (_, a) = step(&s2, MigrationEvent::KeyGenerated);
    assert_eq!(a, MigrationAction::Export { native: false });
}

#[test]
fn a_replacing_migration_runs_every_stage_then_swaps() {
    let s = migration_begin(false, true, false, 1, 1);
    let (s, _) = step(&s, MigrationEvent::Begin);
    let (s, _) = step(&s, MigrationEvent::SourceChecked { exists: true });
    let (s, a) = step(&s, probed(MigrationStage::Export, true, false, true, true));
    assert_eq!(a, MigrationAction::Export { native: true });
    let (s, a) = step(&s, MigrationEvent::StageDone);
    assert_eq!(a, MigrationAction::Upgrade);
    let (s, a) = step(&s, MigrationEvent::StageDone);
    assert_eq!(a, MigrationAction::Import);
    let (s, a) = step(&s, MigrationEvent::StageDone);
    assert_eq!(a, MigrationAction::Validate);
    let (_, a) = step(&s, MigrationEvent::ValidationFailed);
    assert_eq!(a, MigrationAction::Fail(MigrationFailure::ValidationFailed));
    let (s, a) = step(&s, MigrationEvent::StageDone);
    assert_eq!(a, MigrationAction::CheckBackup);
    assert_eq!(s.stage, MigrationStage::Replace);
    let (_, a) = step(&s, MigrationEvent::BackupChecked { exists: true });
    assert_eq!(a, MigrationAction::Fail(MigrationFailure::BackupExists));
    let (s, a) = step(&s, MigrationEvent::BackupChecked { exists: false });
    assert_eq!(a, MigrationAction::Swap);
    let (s, a) = step(&s, MigrationEvent::Swapped);
    assert_eq!(a, MigrationAction::Finish(MigrationOutcome::Replaced));
    assert_eq!(
        migration_outcome_text(&s, MigrationOutcome::Replaced, "/v.v1.pre-migration"),
        vec!["Vault migrated to format version 1.", "Previous vault retained at /v.v1.pre-migration"]
    );
}

#[test]
fn an_archive_written_elsewhere_reports_the_new_chain() {
    let s = migration_begin(true, false, true, 3, 2);
    let (s, _) = step(&s, MigrationEvent::Begin);
    let (s, _) = step(&s, MigrationEvent::VaultChecked { present: true, version: 3 });
    let (s, _) = step(&s, MigrationEvent::SourceChecked { exists: true });
    let (mut s, _) = step(&s, probed(MigrationStage::Import, true, true, true, true));
    let mut last = MigrationAction::Import;
    for _ in 0..2 {
        let (t, a) = step(&s, MigrationEvent::StageDone);
        s = t;
        last = a;
    }
    assert_eq!(last, MigrationAction::Finish(MigrationOutcome::WrittenToOutput));
    assert_eq!(
        migration_outcome_text(&s, MigrationOutcome::WrittenToOutput, "out.lbox"),
        vec!["Archive migrated to out.lbox", "A new signed commit chain was created for the migrated archive."]
    );
}

#[test]
fn a_vault_replacement_needs_the_replace_stage() {
    let s = migration_begin(false, true, false, 1, 1);
    let (s, _) = step(&s, MigrationEvent::Begin);
    let (s, _) = step(&s, MigrationEvent::SourceChecked { exists: true });
    let (t, a) = step(&s, probed(MigrationStage::Complete, true, false, true, true));
    assert_eq!(a, MigrationAction::Fail(MigrationFailure::InvalidReplacementStage));
    assert_eq!(
        migration_failure_message(&t, MigrationFailure::InvalidReplacementStage, "").summary,
        "vault migration journal has an invalid replacement stage"
    );
}
