use revault_cli::messages::ApiError;
use revault_cli::output::OutputFormat;
use revault_cli::session::{
    auto_open_status_rows, clear_default_if_matches, confirm_auto_open_disable, default_lockbox_file_text,
    default_lockbox_or_none, default_matches, reject_auto_open_format, reject_session_format,
};

fn refusal(r: Result<(), ApiError>) -> String {
    match r {
        Err(ApiError::InvalidInput(m)) => m,
        other => panic!("unexpected {other:?}"),
    }
}

#[test]
fn session_format_is_rejected_for_non_output_commands() {
    assert_eq!(refusal(reject_session_format(true, "close-all")), "--format is not supported by session close-all");
    assert!(reject_session_format(false, "close-all").is_ok());
    assert_eq!(
        refusal(reject_auto_open_format(Some(OutputFormat::Json), "disable")),
        "--format is only supported by session and session auto-open status, not auto-open disable"
    );
    assert!(reject_auto_open_format(None, "disable").is_ok());
}

#[test]
fn the_default_lockbox_round_trips_through_its_file() {
    let text = default_lockbox_file_text("/home/a/secrets.lbox");
    assert_eq!(text, "/home/a/secrets.lbox\n");
    assert_eq!(default_lockbox_or_none(Some(&text)).as_deref(), Some("/home/a/secrets.lbox"));
    assert_eq!(default_lockbox_or_none(None), None);
}

#[test]
fn defaults_match_by_text_or_canonical_path() {
    assert!(default_matches(Some("/a/x.lbox"), "/a/x.lbox", None));
    assert!(default_matches(Some("/a/x.lbox"), "x.lbox", Some("/a/x.lbox")));
    assert!(default_matches(Some("/a/x.lbox"), "x.lbox", Some("/a//x.lbox")));
    assert!(!default_matches(Some("/a/x.lbox"), "y.lbox", Some("/a/y.lbox")));
    assert!(!default_matches(None, "x.lbox", Some("/a/x.lbox")));
    assert!(clear_default_if_matches(Some("/a/x.lbox"), "/a/x.lbox", None));
}

#[test]
fn auto_open_is_disabled_only_on_yes() {
    assert!(confirm_auto_open_disable(true, ""));
    assert!(confirm_auto_open_disable(false, " yes\n"));
    assert!(!confirm_auto_open_disable(false, "y"));
}

#[test]
fn auto_open_status_lists_five_properties() {
    let rows = auto_open_status_rows(true, "user", false, "keyring", "vault-item");
    assert_eq!(rows.len(), 5);
    assert_eq!(rows[0], vec!["supported".to_string(), "yes".to_string()]);
    assert_eq!(rows[2], vec!["Vault passphrase stored".to_string(), "no".to_string()]);
    assert_eq!(rows[4], vec!["vault".to_string(), "vault-item".to_string()]);
}
