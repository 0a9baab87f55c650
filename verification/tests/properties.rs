use dotenv_parser::ast::{create_tree, Expression, Value};
use dotenv_parser::parser::parse_dotenv;
use dotenv_parser::tokens::{string_of, tokenize, Tokens};

fn first_value(input: &str) -> Option<String> {
    let ast = create_tree(tokenize(input.into()));
    ast.first().map(|e| {
        let Expression::SetExpression(se) = e;
        let Value::Literal(v) = &se.value;
        v.clone()
    })
}

#[test]
fn reparsing_an_emitted_value_gives_it_back() {
    let v = first_value("KEY=plain_value").unwrap();
    let line = format!("KEY={}", v);
    assert_eq!(first_value(&line), Some(v));
}

#[test]
fn space_run_collapses_into_one_token() {
    let tokens = tokenize("K   V".into());
    assert_eq!(tokens.len(), 3);
    assert_eq!(tokens[0].token, Tokens::Literal("K".into()));
    assert_eq!(tokens[1].token, Tokens::Space);
    assert_eq!(tokens[1].start, 1);
    assert_eq!(tokens[1].end, 3);
    assert_eq!(tokens[2].token, Tokens::Literal("V".into()));
}

#[test]
fn comment_text_never_reaches_the_output() {
    assert_eq!(
        parse_dotenv("HELLO=world #comment"),
        Some("key: \"HELLO\", value: \"world\"".into())
    );
    assert_eq!(
        parse_dotenv("HELLO=world#comment"),
        Some("key: \"HELLO\", value: \"world\"".into())
    );
    for t in tokenize("HELLO=world #comment".into()) {
        assert!(!t.token.to_string().contains("comment"));
    }
}

#[test]
fn comment_only_line_is_ignored() {
    assert_eq!(parse_dotenv("# just a comment"), Some("".into()));
    assert_eq!(
        parse_dotenv("# leading note\nHELLO=hi"),
        Some("key: \"HELLO\", value: \"hi\"".into())
    );
}

#[test]
fn quotes_are_transparent_around_the_same_value() {
    assert_eq!(first_value("K='v'"), Some("v".into()));
    assert_eq!(first_value("K=\"v\""), Some("v".into()));
    assert_eq!(first_value("K=\"\"\"v\"\"\""), Some("v".into()));
}

#[test]
fn quoted_values_keep_spaces_and_markers() {
    assert_eq!(first_value("K='a b # c'"), Some("a b # c".into()));
    assert_eq!(first_value("K=\"a = b\""), Some("a = b".into()));
    assert_eq!(first_value("K=\"\"\"a=b #c\"\"\""), Some("a=b #c".into()));
}

#[test]
fn escaped_equals_stays_in_the_value() {
    assert_eq!(
        parse_dotenv("KEY=a\\=b"),
        Some("key: \"KEY\", value: \"a=b\"".into())
    );
}

#[test]
fn escaped_space_stays_in_the_value() {
    assert_eq!(first_value("K=a\\ b"), Some("a b".into()));
}

#[test]
fn triple_quote_keeps_embedded_newline() {
    assert_eq!(first_value("HELLO=\"\"\"hi\nhello :)\"\"\""), Some("hi\nhello :)".into()));
}

#[test]
fn export_alone_parses_to_nothing() {
    assert_eq!(parse_dotenv("export"), Some("".into()));
    assert_eq!(parse_dotenv("export "), Some("".into()));
}

#[test]
fn empty_input_parses_to_nothing() {
    assert_eq!(tokenize("".into()).len(), 0);
    assert_eq!(parse_dotenv(""), Some("".into()));
}

#[test]
fn unterminated_quote_still_yields_a_value() {
    assert_eq!(first_value("K='abc"), Some("abc".into()));
    assert_eq!(first_value("K=\"abc"), Some("abc".into()));
}

#[test]
fn crlf_collapses_into_one_line_end() {
    let tokens = tokenize("A=1\r\nB=2".into());
    assert_eq!(tokens.len(), 7);
    assert_eq!(tokens[3].token, Tokens::LineEnd("\r\n".into()));
    assert_eq!(
        parse_dotenv("A=1\r\nB=2"),
        Some("key: \"A\", value: \"1\"\nkey: \"B\", value: \"2\"".into())
    );
}

#[test]
fn token_spans_cover_the_source() {
    let tokens = tokenize("HELLO=hi".into());
    assert_eq!(tokens.len(), 3);
    assert_eq!((tokens[0].start, tokens[0].end), (0, 5));
    assert_eq!((tokens[1].start, tokens[1].end), (5, 5));
    assert_eq!((tokens[2].start, tokens[2].end), (6, 8));
}

#[test]
fn value_separated_from_eq_by_space_is_empty() {
    assert_eq!(first_value("K= x"), Some("".into()));
    assert_eq!(first_value("K=\nNEXT=1"), Some("".into()));
}

#[test]
fn escaped_quote_stays_in_the_value() {
    assert_eq!(first_value("K=\\\"abc"), Some("\"abc".into()));
}

#[test]
fn escaped_backslash_collapses_to_one() {
    assert_eq!(first_value("K=a\\\\b"), Some("a\\b".into()));
}

#[test]
fn string_of_builds_the_buffered_text() {
    assert_eq!(string_of(&vec!['a', 'b', 'c']), "abc".to_string());
    assert_eq!(string_of(&vec![]), "".to_string());
}
