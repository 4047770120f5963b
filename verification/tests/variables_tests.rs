use revault_cli::messages::ApiError;
use revault_cli::variables::{
    check_secret_source, cmd_quote_value, effective_sensitivity, export_all_name, moved_path, posix_quote,
    powershell_quote, select_value_source, split_set_arguments, Sensitivity, ValueSource, VariableExportFormat,
};

#[test]
fn root_glob_preserves_variable_names() {
    assert_eq!(moved_path("/*", "/TMP", "/dev").unwrap(), "/dev/TMP");
    assert_eq!(moved_path("/*", "/MODE", "/dev").unwrap(), "/dev/MODE");
}

#[test]
fn nested_glob_preserves_paths_below_its_fixed_prefix() {
    assert_eq!(
        moved_path("/production/**", "/production/api/TOKEN", "/archive").unwrap(),
        "/archive/api/TOKEN"
    );
}

#[test]
fn shell_quoting_escapes_the_quote_characters() {
    assert_eq!(posix_quote("it's"), "'it'\\''s'");
    assert_eq!(powershell_quote("it's"), "'it''s'");
    assert_eq!(cmd_quote_value("say \"hi\""), "say \"\"hi\"\"");
}

#[test]
fn export_names_use_the_last_component() {
    assert_eq!(export_all_name("/prod/API_TOKEN").as_deref(), Some("prod_API_TOKEN"));
    assert_eq!(export_all_name("/"), None);
    assert_eq!(VariableExportFormat::Posix.format_assignment("A", "b"), "A='b'");
    assert!(VariableExportFormat::parse_value(Some("posix")).is_ok());
    assert!(VariableExportFormat::parse_value(Some("klingon")).is_err());
}

#[test]
fn updates_keep_the_variable_sensitivity() {
    assert_eq!(effective_sensitivity(None, false, true).unwrap(), Sensitivity::Normal);
    assert_eq!(effective_sensitivity(None, true, false).unwrap(), Sensitivity::Secret);
    assert_eq!(effective_sensitivity(Some(Sensitivity::Secret), false, false).unwrap(), Sensitivity::Secret);
    assert_eq!(effective_sensitivity(Some(Sensitivity::Normal), false, true).unwrap(), Sensitivity::Normal);
    match effective_sensitivity(Some(Sensitivity::Normal), true, false) {
        Err(ApiError::InvalidOperation(m)) => assert_eq!(m, "variable is not secret; delete and recreate it"),
        other => panic!("unexpected {other:?}"),
    }
    match effective_sensitivity(Some(Sensitivity::Secret), false, true) {
        Err(ApiError::InvalidInput(m)) => assert_eq!(m, "secret variables require an explicit value source"),
        other => panic!("unexpected {other:?}"),
    }
    match effective_sensitivity(None, true, true) {
        Err(ApiError::InvalidInput(m)) => assert_eq!(m, "secret variables cannot use positional values"),
        other => panic!("unexpected {other:?}"),
    }
}

fn invalid_input<T: std::fmt::Debug>(r: Result<T, ApiError>) -> String {
    match r {
        Err(ApiError::InvalidInput(m)) => m,
        other => panic!("unexpected {other:?}"),
    }
}

#[test]
fn set_arguments_take_a_name_and_one_value_source() {
    let args = |v: &[&str]| v.iter().map(|s| s.to_string()).collect::<Vec<String>>();
    assert_eq!(
        split_set_arguments(&args(&["DATABASE_URL=postgres://x"])).unwrap(),
        ("DATABASE_URL".to_string(), Some("postgres://x".to_string()))
    );
    assert_eq!(split_set_arguments(&args(&["A", "b=c"])).unwrap(), ("A".to_string(), Some("b=c".to_string())));
    assert_eq!(split_set_arguments(&args(&["API_TOKEN"])).unwrap(), ("API_TOKEN".to_string(), None));
    assert_eq!(invalid_input(split_set_arguments(&args(&["=x"]))), "missing variable name before '='");
    assert_eq!(invalid_input(split_set_arguments(&[])), "missing variable name");
    assert_eq!(
        invalid_input(split_set_arguments(&args(&["a", "b", "c"]))),
        "variable set accepts at most one positional value"
    );
    assert!(matches!(select_value_source(false, true, None, None, None, false), Ok(Some(ValueSource::Stdin))));
    assert!(matches!(select_value_source(false, false, None, None, None, true), Ok(None)));
    assert!(matches!(
        select_value_source(false, false, None, Some("f.txt"), None, false),
        Ok(Some(ValueSource::File(ref f))) if f == "f.txt"
    ));
    assert_eq!(
        invalid_input(select_value_source(true, true, None, None, None, false)),
        "variable set accepts exactly one value source"
    );
    assert_eq!(
        invalid_input(select_value_source(false, false, Some("x"), None, None, true)),
        "variable set requires exactly one value source"
    );
    assert_eq!(
        invalid_input(select_value_source(false, false, None, None, None, false)),
        "variable set requires exactly one value source"
    );
    assert_eq!(invalid_input(check_secret_source(&None)), "missing value source");
    assert_eq!(
        invalid_input(check_secret_source(&Some(ValueSource::Value("x".to_string())))),
        "--value is not accepted for secret variable values; use --stdin, --file, --interactive, or --from-env"
    );
    assert!(check_secret_source(&Some(ValueSource::FromEnv("TOKEN".to_string()))).is_ok());
}
