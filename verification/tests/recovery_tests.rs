use revault_cli::recovery::{
    default_recovered_path, damaged_backup_candidate, header_status, next_damaged_backup_path, report_rows, slot_protection, RecoveryReport,
    SlotProtection,
};

#[test]
fn recovered_copies_sit_beside_the_lockbox() {
    assert_eq!(default_recovered_path("/tmp/secrets.lbox"), "/tmp/secrets.recovered.lbox");
    assert_eq!(default_recovered_path("secrets.lbox"), "secrets.recovered.lbox");
    assert_eq!(default_recovered_path("/"), "lockbox.recovered.lbox");
}

#[test]
fn damaged_backups_are_numbered() {
    assert_eq!(damaged_backup_candidate("/tmp/a.lbox", 0), "/tmp/a.lbox.damaged");
    assert_eq!(damaged_backup_candidate("/tmp/a.lbox", 2), "/tmp/a.lbox.damaged.2");
    assert_eq!(damaged_backup_candidate("/", 1), "lockbox.lbox.damaged.1");
}

#[test]
fn doctor_describes_headers_and_slots() {
    assert_eq!(header_status(true), "ok");
    assert_eq!(header_status(false), "corrupt; recovered key-directory metadata");
    assert_eq!(slot_protection(SlotProtection::Password), "pass phrase");
    assert_eq!(slot_protection(SlotProtection::Contact), "contact key");
    assert_eq!(slot_protection(SlotProtection::Other), "unknown");
}

#[test]
fn salvage_reports_list_counts_then_outputs() {
    let report = RecoveryReport {
        intact_file_count: 12,
        partial_files: 1,
        corrupt_records: 2,
        toc_recovered: true,
        variables_recovered: false,
        variable_count: 0,
        forms_recovered: true,
        form_definition_count: 3,
        form_record_count: 4,
    };
    let rows = report_rows(&report, Some("/tmp/a.recovered.lbox"), Some("/tmp/a.lbox.damaged"));
    assert_eq!(
        rows,
        vec![
            vec!["intact_file_count", "12"],
            vec!["partial_files", "1"],
            vec!["corrupt_records", "2"],
            vec!["toc_recovered", "true"],
            vec!["variables_recovered", "false"],
            vec!["variable_count", "0"],
            vec!["forms_recovered", "true"],
            vec!["form_definition_count", "3"],
            vec!["form_record_count", "4"],
            vec!["output", "/tmp/a.recovered.lbox"],
            vec!["damaged_original", "/tmp/a.lbox.damaged"],
        ]
    );
    assert_eq!(report_rows(&report, None, None).len(), 9);
}

#[test]
fn the_first_free_damaged_backup_name_is_used() {
    assert_eq!(next_damaged_backup_path("/tmp/a.lbox", &[]), ("/tmp/a.lbox.damaged".to_string(), 0));
    assert_eq!(next_damaged_backup_path("/tmp/a.lbox", &[true, true, false, true]), ("/tmp/a.lbox.damaged.2".to_string(), 2));
    assert_eq!(next_damaged_backup_path("/tmp/a.lbox", &[true]), ("/tmp/a.lbox.damaged.1".to_string(), 1));
}
