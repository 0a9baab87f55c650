use dotenv_parser::parser::{parse_dotenv, parse_inner};

#[test]
fn parser_inner_renders_one_line_per_assignment() {
    let lines = parse_inner("A=1\nB=2");
    assert_eq!(
        lines,
        vec![
            "key: \"A\", value: \"1\"".to_string(),
            "key: \"B\", value: \"2\"".to_string(),
        ]
    );
}

#[test]
fn parser_inner_renders_nothing_for_empty_input() {
    assert_eq!(parse_inner(""), Vec::<String>::new());
}

#[test]
fn parser_should_parse_empty_value() {
    let result = parse_dotenv("EMPTY=");

    assert_eq!(result, Some("key: \"EMPTY\", value: \"\"".into()));
}

#[test]
fn parser_should_parse_unquoted() {
    let result = parse_dotenv("HELLO=hi");

    assert_eq!(result, Some("key: \"HELLO\", value: \"hi\"".into()));
}

#[test]
fn parser_should_parse_unquoted_ignore_after_space() {
    let result = parse_dotenv("HELLO=hi there");

    assert_eq!(result, Some("key: \"HELLO\", value: \"hi\"".into()));
}

#[test]
fn parser_should_parse_single_quote() {
    let result = parse_dotenv("HELLO='hi'");

    assert_eq!(result, Some("key: \"HELLO\", value: \"hi\"".into()));
}

#[test]
fn parser_should_parse_double_quote() {
    let result = parse_dotenv("HELLO=\"hi\"");

    assert_eq!(result, Some("key: \"HELLO\", value: \"hi\"".into()));
}

#[test]
fn parser_should_parse_triple_quote() {
    let result = parse_dotenv("HELLO=\"\"\"hi\"\"\"");

    assert_eq!(result, Some("key: \"HELLO\", value: \"hi\"".into()));
}

#[test]
fn parser_should_parse_triple_quote_multiline() {
    let result = parse_dotenv(
        r#"
HELLO="""hi
hello :)"""
"#,
    );

    assert_eq!(result, Some("key: \"HELLO\", value: \"hi\nhello :)\"".into()));
}

#[test]
fn parser_should_parse_multiple() {
    let result = parse_dotenv(
        r#"
FIRST=1
SECOND='2'
THIRD="3"
FOURTH="""4"""
"#,
    );

    assert_eq!(
        result,
        Some("key: \"FIRST\", value: \"1\"\nkey: \"SECOND\", value: \"2\"\nkey: \"THIRD\", value: \"3\"\nkey: \"FOURTH\", value: \"4\"".into())
    );
}

#[test]
fn parser_should_parse_indented() {
    let result = parse_dotenv("  HELLO='hi'");

    assert_eq!(result, Some("key: \"HELLO\", value: \"hi\"".into()));
}
