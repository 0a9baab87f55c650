use dotenv_parser::ast::{create_tree, Expression, Value};
use dotenv_parser::tokens::tokenize;

#[test]
fn should_create_ast() {
    let input = r#"export HELLO=world #comment
    HI="no comment"
    SUS='usu'"#;
    let tokens = tokenize(input.into());
    let _ast = create_tree(tokens);
}

fn assignment(e: &Expression) -> (String, String, bool) {
    let Expression::SetExpression(se) = e;
    let Value::Literal(key) = &se.key;
    let Value::Literal(value) = &se.value;
    (key.clone(), value.clone(), se.export)
}

#[test]
fn ast_keeps_assignment_order() {
    let tokens = tokenize("FIRST=1\nSECOND=2\nTHIRD=3".into());
    let ast = create_tree(tokens);
    assert_eq!(ast.len(), 3);
    assert_eq!(assignment(&ast[0]), ("FIRST".into(), "1".into(), false));
    assert_eq!(assignment(&ast[1]), ("SECOND".into(), "2".into(), false));
    assert_eq!(assignment(&ast[2]), ("THIRD".into(), "3".into(), false));
}

#[test]
fn ast_export_flag_is_set() {
    let ast = create_tree(tokenize("export HELLO=world".into()));
    assert_eq!(ast.len(), 1);
    assert_eq!(assignment(&ast[0]), ("HELLO".into(), "world".into(), true));
}

#[test]
fn ast_export_flag_defaults_to_false() {
    let ast = create_tree(tokenize("HELLO=world".into()));
    assert_eq!(ast.len(), 1);
    assert_eq!(assignment(&ast[0]), ("HELLO".into(), "world".into(), false));
}

#[test]
fn ast_export_alone_yields_nothing() {
    let ast = create_tree(tokenize("export".into()));
    assert_eq!(ast.len(), 0);
}

#[test]
fn ast_missing_value_is_empty_string() {
    let ast = create_tree(tokenize("EMPTY=".into()));
    assert_eq!(ast.len(), 1);
    assert_eq!(assignment(&ast[0]), ("EMPTY".into(), "".into(), false));
}

#[test]
fn ast_bare_key_without_eq_yields_nothing() {
    let ast = create_tree(tokenize("JUSTAKEY".into()));
    assert_eq!(ast.len(), 0);
}

#[test]
fn ast_empty_input_yields_nothing() {
    let ast = create_tree(tokenize("".into()));
    assert_eq!(ast.len(), 0);
}
