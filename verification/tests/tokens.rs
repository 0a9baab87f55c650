use dotenv_parser::tokens::{tokenize, Tokens};

#[test]
fn tokens_should_be_detected() {
    assert_eq!(Tokens::Space, Tokens::detect(" "));
    assert_eq!(Tokens::Export, Tokens::detect("export"));
    assert_eq!(Tokens::EqSet, Tokens::detect("="));
    assert_eq!(Tokens::Literal("KEY".into()), Tokens::detect("KEY"));
    assert_eq!(Tokens::Literal("value".into()), Tokens::detect("value"));
    assert_eq!(Tokens::LineEnd("\n".into()), Tokens::detect("\n"));
    assert_eq!(Tokens::LineEnd("\r\n".into()), Tokens::detect("\r\n"));
}

#[test]
fn tokens_should_be_converted_to_string() {
    assert_eq!(Tokens::Space.to_string(), " ".to_string());
    assert_eq!(Tokens::Export.to_string(), "export".to_string());
    assert_eq!(Tokens::Literal("let".into()).to_string(), "let".to_string());
    assert_eq!(Tokens::LineEnd("\n".into()).to_string(), "\n".to_string());
}

#[test]
fn should_tokenize() {
    let input = r#"export HELLO=world #comment
    HI="no comment"
    SUS='usu'"#;
    println!("{:#?}", tokenize(input.into()));
}
