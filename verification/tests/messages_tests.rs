use revault_cli::messages::{
    api_error_exit_code, cli_diagnostic, cli_error, closed_lockbox_error, exit_code, render_api_error, render_error,
    validate_new_vault_pass_phrase, ApiError, ArtifactKind, CliMessage, ExitCode, Failure, RED_BOLD,
    YELLOW_BOLD,
};

#[test]
fn structured_error_is_readable_without_colour() {
    let message = CliMessage {
        exit_code: ExitCode::LockboxClosed,
        summary: "Lockbox is closed".to_string(),
        details: vec![
            ("Lockbox".to_string(), "/tmp/secrets.lbox".to_string()),
            (
                "Auto-open".to_string(),
                "Your local vault uses format version 1; this reVault build uses version 2.".to_string(),
            ),
        ],
        next_step: Some("Migrate the vault, then retry:\n  lbx migrate vault --replace".to_string()),
    };
    assert_eq!(
        render_error(&Failure::Message(message), "", false),
        "Error:\n  Lockbox is closed\n\nLockbox:\n  /tmp/secrets.lbox\n\nAuto-open:\n  Your local vault uses format version 1; this reVault build uses version 2.\n\nNext step:\n  Migrate the vault, then retry:\n    lbx migrate vault --replace\n"
    );
}

#[test]
fn api_errors_have_labels_and_recovery_guidance() {
    let error = ApiError::UnsupportedFormatVersion { artifact: ArtifactKind::Vault, found: 1, supported: 2 };
    let rendered = render_api_error(&error, "Run `lockbox migrate vault --replace`.", false);
    assert!(rendered.contains("Error:\n  Unsupported vault format"));
    assert!(rendered.contains("Details:\n  Found version 1"));
    assert!(rendered.contains("Next step:\n  Run `lockbox migrate vault"));
}

#[test]
fn colour_is_only_added_when_requested() {
    let error = Failure::Api(ApiError::InvalidInput("bad value".to_string()));
    assert!(!render_error(&error, "", false).contains("\x1b["));
    assert!(render_error(&error, "", true).contains(RED_BOLD));
    assert!(render_error(&error, "", true).contains(YELLOW_BOLD));
}

#[test]
fn low_level_prefixes_are_replaced_with_plain_language() {
    let error = Failure::Api(ApiError::Io("open /tmp/secrets.lbox: permission denied".to_string()));
    let rendered = render_error(&error, "Check the file's permissions.", false);
    assert!(rendered.contains("Could not access a file or platform service"));
    assert!(!rendered.contains("io error:"));
    assert!(rendered.contains("Next step:"));
}

#[test]
fn errors_have_stable_exit_codes() {
    assert_eq!(exit_code(&Failure::Api(ApiError::InvalidKey)), 11);
    assert_eq!(exit_code(&Failure::Api(ApiError::NotFound("/missing".to_string()))), 12);
    assert_eq!(
        exit_code(&Failure::Api(ApiError::UnsupportedFormatVersion {
            artifact: ArtifactKind::Lockbox,
            found: 2,
            supported: 1,
        })),
        14
    );
    assert_eq!(exit_code(&Failure::Api(ApiError::CorruptRecord)), 15);
}

#[test]
fn plain_errors_exit_with_the_general_code() {
    assert_eq!(exit_code(&Failure::Message(cli_error("nope"))), 1);
    assert_eq!(exit_code(&Failure::Other("broken pipe".to_string())), 1);
    assert_eq!(api_error_exit_code(&ApiError::InvalidInput("x".to_string())), ExitCode::Usage);
    assert_eq!(ExitCode::Usage.as_i32(), 2);
}

#[test]
fn diagnostics_render_details_and_next_step() {
    let m = cli_diagnostic(
        ExitCode::NotFound,
        "Missing",
        vec![("Path".to_string(), "/a".to_string())],
        "Check the path.",
    );
    assert_eq!(m.exit_code(), ExitCode::NotFound);
    assert_eq!(
        render_error(&Failure::Message(m), "", false),
        "Error:\n  Missing\n\nPath:\n  /a\n\nNext step:\n  Check the path.\n"
    );
}

#[test]
fn new_vault_passphrases_need_fifteen_characters() {
    assert!(validate_new_vault_pass_phrase("fifteen chars!!").is_ok());
    match validate_new_vault_pass_phrase("short") {
        Err(ApiError::InvalidInput(m)) => assert_eq!(m, "Vault passphrase must be at least 15 characters"),
        other => panic!("unexpected {other:?}"),
    }
}

#[test]
fn closed_lockboxes_say_how_to_open_them() {
    let m = closed_lockbox_error("/a.lbox", None, "");
    assert_eq!(m.exit_code, ExitCode::LockboxClosed);
    assert_eq!(m.to_text(), "Lockbox is closed. Lockbox: /a.lbox. Open the lockbox first:\n  lbx open /a.lbox");
    let old = ApiError::UnsupportedFormatVersion { artifact: ArtifactKind::Lockbox, found: 1, supported: 2 };
    let m = closed_lockbox_error("/a.lbox", Some(&old), "ignored");
    assert_eq!(
        m.to_text(),
        "Lockbox is closed. Lockbox: /a.lbox. Auto-open: Your local vault uses Lockbox container format 1; this reVault build uses container format 2.. Migrate the vault, then retry:\n  lbx migrate vault --replace"
    );
    let newer = ApiError::UnsupportedFormatVersion { artifact: ArtifactKind::Lockbox, found: 3, supported: 2 };
    let m = closed_lockbox_error("/a.lbox", Some(&newer), "ignored");
    assert_eq!(m.next_step.as_deref(), Some("Install a newer reVault release, then retry."));
    let denied = ApiError::InvalidKey;
    let m = closed_lockbox_error("/a.lbox", Some(&denied), "wrong password");
    assert_eq!(
        m.to_text(),
        "Lockbox is closed. Lockbox: /a.lbox. Auto-open: wrong password. Open the lockbox explicitly:\n  lbx open /a.lbox"
    );
}
