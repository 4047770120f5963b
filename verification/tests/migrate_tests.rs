use revault_cli::migrate::{
    capabilities_match, check_replacement_stage, deterministic_operation_id, exporter_binary_name,
    exporter_install_dir, exporter_release, hex_id, install_failure, migration_work_dir, next_stage,
    registered_exporter, reject_unowned_destination, require_destination, temporary_archive_destination,
    temporary_vault_destination, validate_resume, versioned_backup_path, ArtifactKind, JournalIdentity,
    MigrationStage,
};

#[test]
fn exporter_registry_and_capability_contract_are_exact() {
    let vault = exporter_release(ArtifactKind::Vault, 1).unwrap();
    assert_eq!(vault.package, "revault_migrate_vault_v1");
    assert_eq!(vault.binary, "revault-migrate-vault-v1");
    assert!(capabilities_match(
        br#"{"protocol":1,"artifact":"vault","native_version":1,"migration_schema":1}"#,
        vault
    ));
    assert!(!capabilities_match(
        br#"{"protocol":1,"artifact":"archive","native_version":1,"migration_schema":1}"#,
        vault
    ));

    let archive = exporter_release(ArtifactKind::Archive, 1).unwrap();
    assert_eq!(archive.package, "revault_migrate_archive_v1");
    assert_eq!(archive.binary, "revault-migrate-archive-v1");
    assert_eq!(archive.version, "0.0.2");
    assert!(capabilities_match(
        br#"{"protocol":2,"artifact":"archive","native_version":1,"migration_schema":1}"#,
        archive
    ));
    assert!(!capabilities_match(
        br#"{"protocol":1,"artifact":"archive","native_version":1,"migration_schema":1}"#,
        archive
    ));
}

#[test]
fn capabilities_that_are_not_json_never_match() {
    let vault = exporter_release(ArtifactKind::Vault, 1).unwrap();
    assert!(!capabilities_match(b"protocol 1", vault));
    assert!(!capabilities_match(br#"{"protocol":"1","artifact":"vault","native_version":1,"migration_schema":1}"#, vault));
    assert!(exporter_release(ArtifactKind::Vault, 2).is_none());
    assert!(exporter_release(ArtifactKind::Journal, 1).is_none());
}

#[test]
fn unregistered_exporters_are_named_in_the_refusal() {
    assert_eq!(
        registered_exporter(ArtifactKind::Journal, 1).unwrap_err().summary,
        "no crates.io exporter is registered for Journal format version 1"
    );
    assert_eq!(registered_exporter(ArtifactKind::Archive, 1).unwrap().protocol, 2);
}

#[test]
fn exporters_install_below_the_cache() {
    let archive = exporter_release(ArtifactKind::Archive, 1).unwrap();
    assert_eq!(exporter_install_dir("/home/a/.cache", &archive), "/home/a/.cache/revault_migrate_archive_v1-0.0.2");
    assert_eq!(exporter_binary_name(&archive, true), "revault-migrate-archive-v1.exe");
    assert_eq!(exporter_binary_name(&archive, false), "revault-migrate-archive-v1");
    assert_eq!(
        install_failure(&archive, "  \n").summary,
        "failed to install revault_migrate_archive_v1 0.0.2 from crates.io; install it manually and pass --exporter <path>"
    );
    assert!(install_failure(&archive, " no network\n").summary.ends_with("\nCargo reported:\nno network"));
}

#[test]
fn direct_migration_identity_is_stable_and_destination_specific() {
    let fingerprint = [9u8; 32];
    let first = deterministic_operation_id(ArtifactKind::Archive, "/tmp/source.lbox", Some("/tmp/output.lbox"), &fingerprint);
    assert_eq!(
        first,
        deterministic_operation_id(ArtifactKind::Archive, "/tmp/source.lbox", Some("/tmp/output.lbox"), &fingerprint)
    );
    assert_ne!(
        first,
        deterministic_operation_id(ArtifactKind::Archive, "/tmp/source.lbox", Some("/tmp/other.lbox"), &fingerprint)
    );
}

#[test]
fn migration_identity_is_the_prefix_of_a_sha256() {
    let id = deterministic_operation_id(ArtifactKind::Archive, "/tmp/source.lbox", Some("/tmp/output.lbox"), &[9u8; 32]);
    assert_eq!(hex_id(&id), "e32630167b7faf3d10d6187181f4dc1f");
    let id = deterministic_operation_id(ArtifactKind::Vault, "/home/a/.lockbox", None, &[1u8; 32]);
    assert_eq!(hex_id(&id), "dfcd61c98f7cca7406c908a65b3d4893");
}

fn journal(fingerprint: [u8; 32], stage: MigrationStage) -> JournalIdentity {
    JournalIdentity {
        artifact_kind: ArtifactKind::Archive,
        source_path: "source.lbox".to_string(),
        source_format_version: 1,
        source_fingerprint: fingerprint.to_vec(),
        current_stage: stage,
    }
}

#[test]
fn resume_rejects_a_changed_source() {
    let error = validate_resume(
        &journal([2; 32], MigrationStage::Export),
        ArtifactKind::Archive,
        "source.lbox",
        1,
        &[3; 32],
        "output.lbox",
        false,
    )
    .unwrap_err();
    assert!(error.summary.contains("source may have changed"));
}

#[test]
fn resume_refuses_an_unfinished_import_target() {
    let j = journal([2; 32], MigrationStage::Export);
    assert!(validate_resume(&j, ArtifactKind::Archive, "source.lbox", 1, &[2; 32], "out.lbox", false).is_ok());
    assert_eq!(
        validate_resume(&j, ArtifactKind::Archive, "source.lbox", 1, &[2; 32], "out.lbox", true).unwrap_err().summary,
        "migration destination already exists without a completed import: out.lbox"
    );
    let later = journal([2; 32], MigrationStage::Import);
    assert!(validate_resume(&later, ArtifactKind::Archive, "source.lbox", 1, &[2; 32], "out.lbox", true).is_ok());
    assert!(validate_resume(&later, ArtifactKind::Vault, "source.lbox", 1, &[2; 32], "out.lbox", false).is_err());
}

#[test]
fn stages_run_in_order_to_the_end() {
    let mut stage = MigrationStage::Export;
    for _ in 0..4 {
        stage = next_stage(stage, true);
    }
    assert_eq!(stage, MigrationStage::Replace);
    assert_eq!(next_stage(MigrationStage::Validate, false), MigrationStage::Complete);
    assert_eq!(next_stage(MigrationStage::Complete, true), MigrationStage::Complete);
    assert!(check_replacement_stage(MigrationStage::Replace, "vault").is_ok());
    assert_eq!(
        check_replacement_stage(MigrationStage::Complete, "archive").unwrap_err().summary,
        "archive migration journal has an invalid replacement stage"
    );
}

#[test]
fn destinations_are_required_or_owned() {
    assert_eq!(
        require_destination(false, None, "vault").unwrap_err().summary,
        "vault migration requires --output <path>, or pass --replace to retain a backup and replace the source"
    );
    assert!(require_destination(true, None, "vault").is_ok());
    assert!(require_destination(false, Some("out"), "vault").is_ok());
    assert_eq!(
        reject_unowned_destination(false, true, "/tmp/out.lbox").unwrap_err().summary,
        "migration destination already exists: /tmp/out.lbox"
    );
    assert!(reject_unowned_destination(true, true, "/tmp/out.lbox").is_ok());
}

#[test]
fn migration_paths_sit_beside_the_source() {
    let id = [0xabu8; 16];
    let hex = "ab".repeat(16);
    assert_eq!(migration_work_dir("/tmp/secrets.lbox", &id).unwrap(), format!("/tmp/.revault-migration-{hex}"));
    assert_eq!(migration_work_dir("/", &id).unwrap_err().summary, "migration source has no parent");
    assert_eq!(temporary_vault_destination("/home/a/vault", &id), format!("/home/a/.vault-migrated-{hex}"));
    assert_eq!(temporary_archive_destination("/tmp/s.lbox", &id), format!("/tmp/.archive-migrated-{hex}.lbox"));
    assert_eq!(versioned_backup_path("/tmp/secrets.lbox", 1), "/tmp/secrets.lbox.v1.pre-migration");
}
