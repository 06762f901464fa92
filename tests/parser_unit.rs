use tiny_lang_parser::{parse_program, ASTNode};

#[test]
fn test_parse_number() {
    let result = parse_program("42;").unwrap();
    assert_eq!(result, vec![ASTNode::Number(42)]);
}

#[test]
fn test_parse_identifier() {
    let result = parse_program("x;").unwrap();
    assert_eq!(result, vec![ASTNode::Identifier("x".to_string())]);
}

#[test]
fn test_parse_assignment() {
    let result = parse_program("x = 5;").unwrap();
    assert_eq!(
        result,
        vec![ASTNode::Assignment {
            name: "x".to_string(),
            value: Box::new(ASTNode::Number(5))
        }]
    );
}

#[test]
fn test_parse_addition() {
    let result = parse_program("1 + 2;").unwrap();
    assert_eq!(
        result,
        vec![ASTNode::Add(
            Box::new(ASTNode::Number(1)),
            Box::new(ASTNode::Number(2))
        )]
    );
}
