use revault_cli::forms::{
    default_form_alias, default_form_name, form_name_and_alias, form_path_matches, form_value_source, parse_field_assignment, parse_field_kind, parse_field_spec,
    trim_trailing_newline, FieldKind, FieldValueSource,
};
use revault_cli::messages::ApiError;

#[test]
fn form_aliases_are_lower_case_words() {
    assert_eq!(default_form_alias("  My Bank Login "), "my-bank-login");
    assert_eq!(default_form_alias("2FA codes"), "form-2fa-codes");
    assert_eq!(default_form_alias("!!!"), "form");
    assert_eq!(default_form_alias("_private--key"), "_private-key");
    assert_eq!(default_form_alias(&"a".repeat(200)).len(), 128);
}

#[test]
fn form_names_come_from_the_last_component() {
    assert_eq!(default_form_name("/banking/chase/"), "chase");
    assert_eq!(default_form_name("///"), "form");
    assert_eq!(default_form_name("login"), "login");
}

#[test]
fn answers_lose_their_line_end() {
    assert_eq!(trim_trailing_newline("abc\r\n".to_string()), "abc");
    assert_eq!(trim_trailing_newline("abc\n".to_string()), "abc");
    assert_eq!(trim_trailing_newline("abc\r".to_string()), "abc\r");
}

#[test]
fn form_paths_match_prefixes_and_globs() {
    assert!(form_path_matches("bank", "/bank/chase"));
    assert!(form_path_matches("/bank", "/bank"));
    assert!(!form_path_matches("/bank", "/banking"));
    assert!(form_path_matches("/bank/*", "/bank/chase"));
    assert!(!form_path_matches("/bank/?", "/bank/chase"));
}

#[test]
fn field_assignments_need_a_name() {
    assert_eq!(parse_field_assignment("user=alice=x").unwrap(), ("user".to_string(), "alice=x".to_string()));
    match parse_field_assignment("=x") {
        Err(ApiError::InvalidInput(m)) => assert_eq!(m, "form field id cannot be empty"),
        other => panic!("unexpected {other:?}"),
    }
    match parse_field_assignment("x") {
        Err(ApiError::InvalidInput(m)) => assert_eq!(m, "form field assignment must be FIELD=VALUE"),
        other => panic!("unexpected {other:?}"),
    }
}

#[test]
fn field_kinds_accept_password_for_secret() {
    assert_eq!(parse_field_kind("password").unwrap(), FieldKind::Secret);
    assert_eq!(parse_field_kind("month").unwrap(), FieldKind::Month);
    match parse_field_kind("colour") {
        Err(ApiError::InvalidInput(m)) => assert_eq!(m, "unsupported form field kind: colour"),
        other => panic!("unexpected {other:?}"),
    }
}

#[test]
fn field_specs_default_to_optional_text_named_by_id() {
    let f = parse_field_spec("user").unwrap();
    assert_eq!((f.id.as_str(), f.label.as_str(), f.kind, f.required), ("user", "user", FieldKind::Text, false));
    let f = parse_field_spec("pin:password:required:PIN code").unwrap();
    assert_eq!((f.id.as_str(), f.label.as_str(), f.kind, f.required), ("pin", "PIN code", FieldKind::Secret, true));
    let f = parse_field_spec("site:url::Home: page").unwrap();
    assert_eq!((f.id.as_str(), f.label.as_str(), f.kind, f.required), ("site", "Home: page", FieldKind::Url, false));
    let f = parse_field_spec("a:notes:optional:").unwrap();
    assert_eq!((f.label.as_str(), f.kind, f.required), ("a", FieldKind::Notes, false));
    match parse_field_spec("x:bogus:required") {
        Err(ApiError::InvalidInput(m)) => assert_eq!(m, "unsupported form field kind: bogus"),
        other => panic!("unexpected {other:?}"),
    }
}

fn well_formed_alias(a: &str) -> bool {
    let first = a.chars().next();
    (1..=128).contains(&a.len())
        && first.is_some_and(|c| c == '_' || c.is_ascii_lowercase())
        && !a.ends_with('-')
        && a.chars().all(|c| c.is_ascii_lowercase() || c.is_ascii_digit() || c == '_' || c == '-')
}

#[test]
fn derived_aliases_are_always_well_formed() {
    let long_digits = "9".repeat(300);
    let long_mixed = format!("{} x", "7-".repeat(100));
    for name in ["---", "é名", "9", " - _ -", "", "Ab-", "1-", long_digits.as_str(), long_mixed.as_str()] {
        let alias = default_form_alias(name);
        assert!(well_formed_alias(&alias), "{name:?} gave {alias:?}");
    }
    assert_eq!(default_form_alias("9"), "form-9");
    assert_eq!(default_form_alias("é名"), "form");
}

#[test]
fn form_names_and_aliases_default_from_each_other() {
    assert_eq!(form_name_and_alias(Some("bank"), None).unwrap(), ("bank".to_string(), "bank".to_string()));
    assert_eq!(
        form_name_and_alias(None, Some("My Bank")).unwrap(),
        ("My Bank".to_string(), "my-bank".to_string())
    );
    assert_eq!(form_name_and_alias(Some("b"), Some("Bank")).unwrap(), ("Bank".to_string(), "b".to_string()));
    match form_name_and_alias(None, None) {
        Err(ApiError::InvalidInput(m)) => assert_eq!(m, "form define requires an alias or --name"),
        other => panic!("unexpected {other:?}"),
    }
}

#[test]
fn form_set_takes_exactly_one_value_source() {
    assert!(matches!(form_value_source(true, false, None, None, None, None), Ok(FieldValueSource::Interactive)));
    assert!(matches!(
        form_value_source(false, false, None, None, None, Some("v")),
        Ok(FieldValueSource::Literal(ref v)) if v == "v"
    ));
    for r in [
        form_value_source(false, false, None, None, None, None),
        form_value_source(true, true, None, None, None, None),
        form_value_source(false, false, Some("a"), None, None, Some("b")),
    ] {
        match r {
            Err(ApiError::InvalidInput(m)) => assert_eq!(m, "form set accepts exactly one value source"),
            other => panic!("unexpected {other:?}"),
        }
    }
}

#[test]
fn a_derived_alias_is_its_own_alias() {
    for name in ["  My Bank Login ", "2FA codes", "a -- b", "--x--", "", "Ünïcode ok", "9"] {
        let alias = default_form_alias(name);
        assert!(!alias.contains("--"), "{alias}");
        assert_eq!(default_form_alias(&alias), alias);
    }
}
