use revault_cli::args::{
    command_accepts_lockbox, command_accepts_lockbox_at_position, command_preflight, read_access, AccessSource, command_secret_activity, default_lockbox_for_add,
    default_lockbox_for_command, is_top_level_help, looks_like_lockbox_path, normalize_form_define_separator,
    optional_lockbox_positionals, parse_usize, read_worker_policy, reject_unknown_top_level_token,
    parse_unsigned, reject_variables_set_single_dash_secret, top_level_candidate, verbose_help, SecretActivityKind, WorkerPolicy,
};
use revault_cli::messages::cli_error;

fn strings(v: &[&str]) -> Vec<String> {
    v.iter().map(|s| s.to_string()).collect()
}

#[test]
fn lockbox_commands_and_paths_are_recognised() {
    assert!(command_accepts_lockbox("add"));
    assert!(command_accepts_lockbox("open-key"));
    assert!(!command_accepts_lockbox("session"));
    assert!(looks_like_lockbox_path("secrets.lbox"));
    assert!(looks_like_lockbox_path("/tmp/a.lbox"));
    assert!(!looks_like_lockbox_path("notes.txt"));
    assert!(command_accepts_lockbox_at_position("a.lbox", &strings(&["a.lbox", "cat"])));
    assert!(!command_accepts_lockbox_at_position("a.lbox", &strings(&["a.lbox", "session"])));
}

#[test]
fn form_define_drops_separators() {
    assert_eq!(
        normalize_form_define_separator(strings(&["form", "define", "a", "--", "b"])),
        strings(&["form", "define", "a", "b"])
    );
    assert_eq!(
        normalize_form_define_separator(strings(&["x.lbox", "form", "define", "--"])),
        strings(&["x.lbox", "form", "define"])
    );
    assert_eq!(normalize_form_define_separator(strings(&["form", "show", "--"])), strings(&["form", "show", "--"]));
}

#[test]
fn single_dash_secret_is_refused_for_variable_set() {
    assert_eq!(
        reject_variables_set_single_dash_secret(&strings(&["variable", "set", "X", "-secret"])).unwrap_err().summary,
        "unknown option: -secret. Use --secret."
    );
    assert!(reject_variables_set_single_dash_secret(&strings(&["variable", "get", "-secret"])).is_ok());
    assert!(reject_variables_set_single_dash_secret(&strings(&["a.lbox", "var", "set", "--secret"])).is_ok());
}

#[test]
fn top_level_tokens_skip_global_options() {
    let args = strings(&["--verbose", "--key", "k", "cat"]);
    assert_eq!(top_level_candidate(&args), Some((3, "cat")));
    assert_eq!(top_level_candidate(&strings(&["--key=k", "x"])), Some((1, "x")));
    assert_eq!(top_level_candidate(&strings(&["-x", "cat"])), None);
    assert!(is_top_level_help(&strings(&["--verbose", "-h"])));
    assert!(!is_top_level_help(&strings(&["cat"])));
}

#[test]
fn unknown_leading_tokens_are_refused_when_a_command_follows() {
    let names = strings(&["cat", "session"]);
    assert!(reject_unknown_top_level_token(&strings(&["frob", "cat"]), &names).is_ok());
    assert!(reject_unknown_top_level_token(&strings(&["frob", "session"]), &names).is_err());
    assert!(reject_unknown_top_level_token(&strings(&["frob", "x.lbox"]), &names).is_err());
    assert!(reject_unknown_top_level_token(&strings(&["a.lbox", "cat"]), &names).is_ok());
}

#[test]
fn commands_name_their_secret_activity() {
    assert_eq!(command_secret_activity("open"), Some(SecretActivityKind::Open));
    assert_eq!(command_secret_activity("close"), Some(SecretActivityKind::Close));
    assert_eq!(command_secret_activity("form"), Some(SecretActivityKind::Form));
    assert_eq!(command_secret_activity("session"), Some(SecretActivityKind::Vault));
    assert_eq!(command_secret_activity("help"), None);
}

#[test]
fn lockboxes_default_to_the_session() {
    assert_eq!(default_lockbox_for_command(Some("a.lbox"), Ok(None)).unwrap(), "a.lbox");
    assert_eq!(default_lockbox_for_add(None, Ok(Some("d.lbox".to_string()))).unwrap(), "d.lbox");
    assert_eq!(
        default_lockbox_for_command(None, Ok(None)).unwrap_err().summary,
        "missing lockbox; pass a .lbox path or set a session default lockbox"
    );
    assert!(default_lockbox_for_command(None, Err(cli_error("session default lockbox not found: d"))).is_err());
}

#[test]
fn positionals_get_the_lockbox_in_front() {
    assert_eq!(
        optional_lockbox_positionals(strings(&["x"]), 1, None, Ok(Some("d.lbox".to_string()))).unwrap(),
        strings(&["d.lbox", "x"])
    );
    assert_eq!(optional_lockbox_positionals(strings(&["x"]), 1, Some("c.lbox"), Ok(None)).unwrap(), strings(&["c.lbox", "x"]));
    assert_eq!(
        optional_lockbox_positionals(strings(&["a.lbox"]), 0, None, Ok(None)).unwrap_err().summary,
        "lockbox paths must precede lockbox-scoped commands; use `lockbox LOCKBOX COMMAND ...`"
    );
    assert_eq!(
        optional_lockbox_positionals(Vec::new(), 1, None, Ok(None)).unwrap_err().summary,
        "missing required argument"
    );
}

#[test]
fn jobs_are_auto_one_or_a_positive_count() {
    assert_eq!(read_worker_policy(None).unwrap(), WorkerPolicy::Auto);
    assert_eq!(read_worker_policy(Some("auto")).unwrap(), WorkerPolicy::Auto);
    assert_eq!(read_worker_policy(Some("1")).unwrap(), WorkerPolicy::Single);
    assert_eq!(read_worker_policy(Some("8")).unwrap(), WorkerPolicy::Threads(8));
    assert_eq!(read_worker_policy(Some("+4")).unwrap(), WorkerPolicy::Threads(4));
    assert!(read_worker_policy(Some("0")).is_err());
    assert!(read_worker_policy(Some("many")).is_err());
    assert_eq!(parse_usize("007"), Some(7));
    assert_eq!(parse_usize("99999999999999999999999"), None);
}

#[test]
fn verbose_help_puts_context_first() {
    assert_eq!(verbose_help(true, "normal", "context"), "context\n\nnormal");
    assert_eq!(verbose_help(false, "normal", "context"), "normal");
}

#[test]
fn unsigned_numbers_parse_within_their_type() {
    assert_eq!(parse_unsigned("255", 255), Some(255));
    assert_eq!(parse_unsigned("256", 255), None);
    assert_eq!(parse_unsigned("+0", 255), Some(0));
    assert_eq!(parse_unsigned("18446744073709551615", u64::MAX), Some(u64::MAX));
    assert_eq!(parse_unsigned("18446744073709551616", u64::MAX), None);
    assert_eq!(parse_unsigned("-1", u64::MAX), None);
    assert_eq!(parse_unsigned("", u64::MAX), None);
}

#[test]
fn preflight_refuses_a_lockbox_before_a_command_without_one() {
    let err = command_preflight("session", None, true).unwrap_err();
    assert_eq!(
        err.summary,
        "session is not a lockbox-scoped command; place the command immediately after `lockbox`"
    );
    assert_eq!(command_preflight("list", None, true).ok(), Some(Some(SecretActivityKind::Open)));
}

#[test]
fn preflight_marks_doctor_recovery_work() {
    assert_eq!(command_preflight("doctor", Some("recover"), false).ok(), Some(Some(SecretActivityKind::Recovery)));
    assert_eq!(command_preflight("doctor", Some("migrate"), true).ok(), Some(Some(SecretActivityKind::Recovery)));
    assert_eq!(command_preflight("doctor", Some("check"), false).ok(), Some(None));
    assert_eq!(command_preflight("session", Some("migrate"), false).ok(), Some(Some(SecretActivityKind::Vault)));
}

#[test]
fn access_prefers_the_key_option_then_the_environment() {
    assert_eq!(read_access(Some("k1"), Some("k2"), "list"), AccessSource::ContentKey("k1".to_string()));
    assert_eq!(read_access(None, Some("k2"), "create"), AccessSource::ContentKey("k2".to_string()));
    assert_eq!(read_access(None, None, "create"), AccessSource::PromptPassword);
    assert_eq!(read_access(None, None, "list"), AccessSource::CacheOnly);
}
