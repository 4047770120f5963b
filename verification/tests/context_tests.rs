use revault_cli::context::{
    confirm_generated_vault_pass_phrase_stored, ensure_lockbox_path_accessible, generated_vault_pass_phrase,
    pass_phrase_from_bytes, require_arg, PathStatus,
};
use revault_cli::messages::{validate_new_vault_pass_phrase, ApiError};

#[test]
fn lockbox_paths_must_be_readable_files() {
    assert!(ensure_lockbox_path_accessible("a.lbox", &PathStatus::File).is_ok());
    assert_eq!(
        ensure_lockbox_path_accessible("dir", &PathStatus::Directory).unwrap_err().summary,
        "lockbox path is a directory: dir"
    );
    assert_eq!(ensure_lockbox_path_accessible("x", &PathStatus::NotFound).unwrap_err().summary, "lockbox not found: x");
    assert_eq!(
        ensure_lockbox_path_accessible("x", &PathStatus::PermissionDenied).unwrap_err().summary,
        "permission denied reading lockbox: x"
    );
    assert_eq!(
        ensure_lockbox_path_accessible("x", &PathStatus::Failed("disk on fire".to_string())).unwrap_err().summary,
        "cannot access lockbox x: disk on fire"
    );
}

#[test]
fn missing_arguments_are_named() {
    let args = vec!["a".to_string()];
    assert_eq!(require_arg(&args, 0, "path").unwrap(), "a");
    match require_arg(&args, 1, "path") {
        Err(ApiError::InvalidInput(m)) => assert_eq!(m, "missing path"),
        other => panic!("unexpected {other:?}"),
    }
}

#[test]
fn passphrases_are_grouped_crockford_characters() {
    let bytes: Vec<u8> = (0..20).collect();
    assert_eq!(pass_phrase_from_bytes(&bytes), "0123-4567-89ab-cdef-ghjk");
    assert_eq!(pass_phrase_from_bytes(&[31, 32, 255]), "z0z");
    assert_eq!(pass_phrase_from_bytes(&[]), "");
}

#[test]
fn generated_passphrases_are_accepted_as_new_vault_passphrases() {
    let phrase = generated_vault_pass_phrase().unwrap();
    assert_eq!(phrase.chars().count(), 24);
    assert!(validate_new_vault_pass_phrase(&phrase).is_ok());
    assert!(phrase.chars().all(|c| c == '-' || "0123456789abcdefghjkmnpqrstvwxyz".contains(c)));
}

#[test]
fn storing_a_generated_passphrase_is_confirmed_by_yes() {
    assert!(confirm_generated_vault_pass_phrase_stored(" Yes\n"));
    assert!(confirm_generated_vault_pass_phrase_stored("y"));
    assert!(!confirm_generated_vault_pass_phrase_stored("yep"));
}
