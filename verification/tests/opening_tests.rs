use revault_cli::messages::ApiError;
use revault_cli::opening::{
    close_refusal, close_report, identity_open_refusal, identity_trial_order, password_from_variable,
    select_password_source, strip_line_ends, PasswordSource,
};

fn owned(v: &[&str]) -> Vec<String> {
    v.iter().map(|s| s.to_string()).collect()
}

#[test]
fn default_identity_is_tried_first() {
    let ids = owned(&["alice", "default", "bob", "default"]);
    assert_eq!(identity_trial_order(&ids, "default"), owned(&["default", "alice", "bob", "default"]));
    assert_eq!(identity_trial_order(&owned(&["default", "x"]), "default"), owned(&["default", "x"]));
    assert_eq!(identity_trial_order(&owned(&["a", "b"]), "default"), owned(&["a", "b"]));
    assert!(identity_trial_order(&[], "default").is_empty());
}

#[test]
fn open_without_identity_or_password_slot_is_refused() {
    assert!(identity_open_refusal("a.lbox", true).is_none());
    let m = identity_open_refusal("a.lbox", false).unwrap();
    assert_eq!(m.summary, "none of the local vault identities can open a.lbox; the lockbox has no password access");
}

#[test]
fn close_all_is_refused_and_reports_name_the_lockbox() {
    match close_refusal("--all") {
        Err(ApiError::InvalidInput(m)) => assert_eq!(m, "close --all has been removed; use `lockbox session close-all`"),
        _ => panic!("expected a refusal"),
    }
    assert!(close_refusal("a.lbox").is_ok());
    assert_eq!(close_report("a.lbox", true), "Lockbox closed: a.lbox");
    assert_eq!(close_report("a.lbox", false), "Lockbox was already closed: a.lbox");
}

#[test]
fn one_password_source_at_most() {
    assert_eq!(select_password_source(None, None, false).ok(), Some(PasswordSource::Prompt));
    assert_eq!(select_password_source(Some("PW"), None, false).ok(), Some(PasswordSource::Variables("PW".to_string())));
    assert_eq!(select_password_source(None, Some("pw.txt"), false).ok(), Some(PasswordSource::File("pw.txt".to_string())));
    assert_eq!(select_password_source(None, None, true).ok(), Some(PasswordSource::Stdin));
    for (env, file, stdin) in [(Some("PW"), Some("f"), false), (Some("PW"), None, true), (None, Some("f"), true)] {
        match select_password_source(env, file, stdin) {
            Err(ApiError::InvalidInput(m)) => assert_eq!(m, "choose only one password source for lockbox open"),
            _ => panic!("expected a refusal"),
        }
    }
}

#[test]
fn password_variable_must_be_set() {
    assert_eq!(password_from_variable("PW", Some("s3cret")).ok(), Some("s3cret".to_string()));
    match password_from_variable("PW", None) {
        Err(ApiError::InvalidInput(m)) => assert_eq!(m, "variable is not set: PW"),
        _ => panic!("expected a refusal"),
    }
}

#[test]
fn trailing_line_ends_are_dropped_from_passwords() {
    assert_eq!(strip_line_ends(b"pass\r\n\n"), b"pass".to_vec());
    assert_eq!(strip_line_ends(b"pa\nss"), b"pa\nss".to_vec());
    assert_eq!(strip_line_ends(b"\n\r"), Vec::<u8>::new());
    assert_eq!(strip_line_ends(b""), Vec::<u8>::new());
}
