use tiny_lang_parser::{parse_program, ASTNode, EvalError, Interpreter, ParseError};

fn num(n: i64) -> Box<ASTNode> {
    Box::new(ASTNode::Number(n))
}

fn run(source: &str) -> (Result<(), EvalError>, Interpreter) {
    let ast = parse_program(source).unwrap();
    let mut interpreter = Interpreter::new();
    let result = interpreter.eval(&ast);
    (result, interpreter)
}

fn grammar_position(source: &str) -> usize {
    match parse_program(source) {
        Err(ParseError::GrammarViolation { position }) => position,
        other => panic!("expected a grammar violation, got {:?}", other),
    }
}

#[test]
fn subtraction_groups_to_the_left() {
    let ast = parse_program("8 - 3 - 2;").unwrap();
    assert_eq!(
        ast,
        vec![ASTNode::Sub(Box::new(ASTNode::Sub(num(8), num(3))), num(2))]
    );
    let (result, interpreter) = run("r = 8 - 3 - 2;");
    assert!(result.is_ok());
    assert_eq!(interpreter.variables.get("r"), Some(&3));
}

#[test]
fn division_groups_to_the_left() {
    let (result, interpreter) = run("r = 100 / 10 / 5;");
    assert!(result.is_ok());
    assert_eq!(interpreter.variables.get("r"), Some(&2));
}

#[test]
fn precedence_with_subtraction_and_division() {
    let ast = parse_program("a - b / c;").unwrap();
    let ident = |s: &str| Box::new(ASTNode::Identifier(s.to_string()));
    assert_eq!(
        ast,
        vec![ASTNode::Sub(ident("a"), Box::new(ASTNode::Div(ident("b"), ident("c"))))]
    );
}

#[test]
fn parentheses_override_precedence() {
    let ast = parse_program("(2 + 3) * 4;").unwrap();
    assert_eq!(
        ast,
        vec![ASTNode::Mul(Box::new(ASTNode::Add(num(2), num(3))), num(4))]
    );
    let (result, interpreter) = run("x = (2 + 3) * 4;");
    assert!(result.is_ok());
    assert_eq!(interpreter.variables.get("x"), Some(&20));
}

#[test]
fn parsing_twice_gives_equal_trees() {
    let source = "a = 10; b = (a + 2) * 3 - 4 / 2; b;";
    assert_eq!(parse_program(source).unwrap(), parse_program(source).unwrap());
}

#[test]
fn evaluating_twice_gives_equal_variables() {
    let ast = parse_program("a = 10; b = a * 2; a = b - 1;").unwrap();
    let mut first = Interpreter::new();
    let mut second = Interpreter::new();
    first.eval(&ast).unwrap();
    second.eval(&ast).unwrap();
    for name in ["a", "b"] {
        assert_eq!(first.variables.get(name), second.variables.get(name));
    }
    assert_eq!(first.variables.get("a"), Some(&19));
}

#[test]
fn undefined_variable_leaves_variables_empty() {
    let (result, interpreter) = run("y + 1;");
    match result {
        Err(EvalError::UndefinedVariable(name)) => assert_eq!(name, "y"),
        other => panic!("expected an undefined variable, got {:?}", other),
    }
    assert_eq!(interpreter.variables.get("y"), None);
}

#[test]
fn division_by_zero_binds_nothing() {
    let (result, interpreter) = run("result = 5 / 0;");
    assert!(matches!(result, Err(EvalError::DivisionByZero)));
    assert_eq!(interpreter.variables.get("result"), None);
}

#[test]
fn failure_stops_the_program() {
    let (result, interpreter) = run("a = 1; b = c; d = 2;");
    assert!(matches!(result, Err(EvalError::UndefinedVariable(_))));
    assert_eq!(interpreter.variables.get("a"), Some(&1));
    assert_eq!(interpreter.variables.get("b"), None);
    assert_eq!(interpreter.variables.get("d"), None);
}

#[test]
fn statements_accumulate_state() {
    let (result, interpreter) = run("x = 10; y = 5; z = x + y * 2;");
    assert!(result.is_ok());
    assert_eq!(interpreter.variables.get("x"), Some(&10));
    assert_eq!(interpreter.variables.get("y"), Some(&5));
    assert_eq!(interpreter.variables.get("z"), Some(&20));
}

#[test]
fn empty_program_changes_nothing() {
    let ast = parse_program("").unwrap();
    assert!(ast.is_empty());
    let (_, mut interpreter) = run("k = 7;");
    interpreter.eval(&ast).unwrap();
    assert_eq!(interpreter.variables.get("k"), Some(&7));
    assert!(parse_program(" \t\r\n ").unwrap().is_empty());
}

#[test]
fn assignment_chain_values() {
    let (result, interpreter) = run("a = 10; b = 2; c = (a + b) * 3 - 4 / 2;");
    assert!(result.is_ok());
    assert_eq!(interpreter.variables.get("c"), Some(&34));
}

#[test]
fn reassignment_replaces_the_value() {
    let (result, interpreter) = run("x = 1; x = x + 1; x = x * 10;");
    assert!(result.is_ok());
    assert_eq!(interpreter.variables.get("x"), Some(&20));
}

#[test]
fn expression_statement_binds_nothing() {
    let (result, interpreter) = run("5 * 5;");
    assert!(result.is_ok());
    assert_eq!(interpreter.variables.get("x"), None);
}

#[test]
fn division_truncates_toward_zero() {
    let (result, interpreter) = run("a = (0 - 7) / 2; b = 7 / (0 - 2); c = 7 / 2;");
    assert!(result.is_ok());
    assert_eq!(interpreter.variables.get("a"), Some(&-3));
    assert_eq!(interpreter.variables.get("b"), Some(&-3));
    assert_eq!(interpreter.variables.get("c"), Some(&3));
}

#[test]
fn overflow_is_a_runtime_error() {
    let (result, interpreter) = run("big = 9223372036854775807; x = big + 1;");
    match result {
        Err(EvalError::RuntimeError(message)) => assert_eq!(message, "integer overflow"),
        other => panic!("expected an overflow, got {:?}", other),
    }
    assert_eq!(interpreter.variables.get("big"), Some(&i64::MAX));
    assert_eq!(interpreter.variables.get("x"), None);

    let (result, _) = run("m = (0 - 9223372036854775807 - 1) / (0 - 1);");
    assert!(matches!(result, Err(EvalError::RuntimeError(_))));
    let (result, _) = run("m = 3037000500 * 3037000500;");
    assert!(matches!(result, Err(EvalError::RuntimeError(_))));
    let (result, _) = run("m = 0 - 9223372036854775807 - 2;");
    assert!(matches!(result, Err(EvalError::RuntimeError(_))));
}

#[test]
fn largest_literal_is_accepted() {
    assert_eq!(
        parse_program("9223372036854775807;").unwrap(),
        vec![ASTNode::Number(i64::MAX)]
    );
    assert_eq!(parse_program("007;").unwrap(), vec![ASTNode::Number(7)]);
}

#[test]
fn literal_too_large_is_invalid_number() {
    match parse_program("x = 9223372036854775808;") {
        Err(ParseError::InvalidNumber(text)) => assert_eq!(text, "9223372036854775808"),
        other => panic!("expected an invalid number, got {:?}", other),
    }
}

#[test]
fn grammar_violations_report_positions() {
    // unary minus is not part of the language
    assert_eq!(grammar_position("-5;"), 0);
    // missing expression after `=`
    assert_eq!(grammar_position("x = ;"), 4);
    // a character that starts no token
    assert_eq!(grammar_position("x $ 1;"), 2);
    // missing semicolon: the text ends too early
    assert_eq!(grammar_position("1 + 2"), 5);
    // unclosed parenthesis
    assert_eq!(grammar_position("(1 + 2;"), 6);
    // identifiers are lowercase
    assert_eq!(grammar_position("X = 1;"), 0);
    // two operands in a row
    assert_eq!(grammar_position("a b;"), 2);
    // a statement that is only a semicolon
    assert_eq!(grammar_position(";"), 0);
}

#[test]
fn whitespace_is_insignificant() {
    assert_eq!(
        parse_program("x=1+2;").unwrap(),
        parse_program("\n\tx =  1\r\n + 2 ;  ").unwrap()
    );
}

#[test]
fn trees_compare_by_structure() {
    let a = ASTNode::Assignment { name: "v".to_string(), value: Box::new(ASTNode::Div(num(1), num(2))) };
    let b = ASTNode::Assignment { name: "v".to_string(), value: Box::new(ASTNode::Div(num(1), num(2))) };
    let c = ASTNode::Assignment { name: "w".to_string(), value: Box::new(ASTNode::Div(num(1), num(2))) };
    let d = ASTNode::Assignment { name: "v".to_string(), value: Box::new(ASTNode::Mul(num(1), num(2))) };
    assert_eq!(a, b);
    assert_ne!(a, c);
    assert_ne!(a, d);
    assert_ne!(ASTNode::Number(1), ASTNode::Identifier("a".to_string()));
}

#[test]
fn nested_assignment_in_a_built_tree() {
    // the grammar cannot write this, but a tree built by hand can hold it
    let tree = ASTNode::Add(
        Box::new(ASTNode::Assignment { name: "y".to_string(), value: num(3) }),
        Box::new(ASTNode::Identifier("y".to_string())),
    );
    let mut interpreter = Interpreter::new();
    interpreter.eval(&[tree]).unwrap();
    assert_eq!(interpreter.variables.get("y"), Some(&3));
}

#[test]
fn grammar_violation_comes_before_invalid_number() {
    assert_eq!(grammar_position("9223372036854775808 1;"), 20);
    assert_eq!(grammar_position("x = 99999999999999999999 +;"), 26);
    match parse_program("x = 9223372036854775808; y = 99999999999999999999;") {
        Err(ParseError::InvalidNumber(text)) => assert_eq!(text, "9223372036854775808"),
        other => panic!("expected an invalid number, got {:?}", other),
    }
}

#[test]
fn cloned_tree_is_equal() {
    let tree = parse_program("a = (b + 1) * 2 - c / 3;").unwrap();
    let copy = tree[0].clone();
    assert_eq!(copy, tree[0]);
}

#[test]
fn default_interpreter_is_empty() {
    let interpreter = Interpreter::default();
    assert_eq!(interpreter.variables.len(), 0);
    assert!(interpreter.variables.entries().is_empty());
}

#[test]
fn entries_list_each_variable_once_in_first_assignment_order() {
    let (result, interpreter) = run("z = 1; a = 2; z = 3; m = z + a;");
    assert!(result.is_ok());
    assert_eq!(interpreter.variables.len(), 3);
    let entries: Vec<(String, i64)> = interpreter.variables.entries().clone();
    assert_eq!(
        entries,
        vec![("z".to_string(), 3), ("a".to_string(), 2), ("m".to_string(), 5)]
    );
}

#[test]
fn precedence_with_numeric_operands() {
    assert_eq!(
        parse_program("7 - 6 / 3;").unwrap(),
        vec![ASTNode::Sub(num(7), Box::new(ASTNode::Div(num(6), num(3))))]
    );
    assert_eq!(
        parse_program("10 + 20 * 30;").unwrap(),
        vec![ASTNode::Add(num(10), Box::new(ASTNode::Mul(num(20), num(30))))]
    );
}
