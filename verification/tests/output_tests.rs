use revault_cli::messages::ApiError;
use revault_cli::output::{join_strings, json_string, print_json, print_records, print_table, print_tsv, OutputFormat};

fn rows() -> Vec<Vec<String>> {
    vec![
        vec!["alice".to_string(), "a@x".to_string()],
        vec!["bo".to_string(), "-".to_string()],
    ]
}

#[test]
fn tables_pad_columns_to_their_widest_value() {
    assert_eq!(
        print_table(&["name", "email"], &rows()),
        vec!["name   email".to_string(), "alice  a@x  ".to_string(), "bo     -    ".to_string()]
    );
}

#[test]
fn tsv_and_json_keep_each_row() {
    assert_eq!(print_tsv(&rows()), vec!["alice\ta@x".to_string(), "bo\t-".to_string()]);
    assert_eq!(
        print_json(&["name", "email"], &rows()).unwrap(),
        vec![
            "{\"name\":\"alice\",\"email\":\"a@x\"}".to_string(),
            "{\"name\":\"bo\",\"email\":\"-\"}".to_string(),
        ]
    );
    match print_json(&["name"], &rows()) {
        Err(ApiError::InvalidInput(m)) => assert_eq!(m, "output row/header width mismatch"),
        other => panic!("unexpected {other:?}"),
    }
}

#[test]
fn json_strings_are_escaped() {
    assert_eq!(json_string("a\"b\n"), "\"a\\\"b\\n\"");
    assert_eq!(join_strings(&["a".to_string(), "b".to_string()], ", "), "a, b");
}

#[test]
fn formats_are_parsed_with_a_table_default() {
    assert_eq!(OutputFormat::parse(None).unwrap(), OutputFormat::Table);
    assert_eq!(OutputFormat::parse(Some("json")).unwrap(), OutputFormat::Json);
    match OutputFormat::parse(Some("xml")) {
        Err(ApiError::InvalidInput(m)) => assert_eq!(m, "unsupported output format: xml; expected table, tsv, or json"),
        other => panic!("unexpected {other:?}"),
    }
    assert_eq!(print_records(&["n"], &[], OutputFormat::Tsv).unwrap(), vec!["empty".to_string()]);
}

#[test]
fn json_escapes_follow_the_literal_rules() {
    assert_eq!(json_string("\\"), "\"\\\\\"");
    assert_eq!(json_string("\u{8}\t\u{c}\r"), "\"\\b\\t\\f\\r\"");
    assert_eq!(json_string("\u{1}\u{1f}"), "\"\\u0001\\u001f\"");
    assert_eq!(json_string("é/\u{7f}"), "\"é/\u{7f}\"");
}
