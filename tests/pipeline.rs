use calc_repl::env::Environment;
use calc_repl::interpreter::run_line;
use calc_repl::lexer::{tokenize, Lexer};
use calc_repl::node::{BinaryOperator, Node, UnaryOperator};
use calc_repl::parser::Parser;
use calc_repl::token::{Keyword, Token};

fn int_of(line: &str, env: &mut Environment) -> i32 {
    match run_line(line, env) {
        Ok(Node::Int(n)) => n,
        other => panic!("{:?} gave {:?}", line, other),
    }
}

fn error_of(line: &str, env: &mut Environment) -> String {
    match run_line(line, env) {
        Ok(Node::Error(m)) => m,
        other => panic!("{:?} gave {:?}", line, other),
    }
}

fn failure_of(line: &str, env: &mut Environment) -> String {
    match run_line(line, env) {
        Err(m) => m,
        other => panic!("{:?} gave {:?}", line, other),
    }
}

#[test]
fn literals_evaluate_to_themselves() {
    let mut env = Environment::new();
    assert_eq!(int_of("0", &mut env), 0);
    assert_eq!(int_of("42", &mut env), 42);
    assert_eq!(int_of("007", &mut env), 7);
    assert_eq!(int_of("2147483647", &mut env), 2147483647);
}

#[test]
fn literal_out_of_range_is_lexical_error() {
    let mut env = Environment::new();
    assert_eq!(
        failure_of("1 + 2147483648", &mut env),
        "Integer literal '2147483648' at column 5 is out of range"
    );
}

#[test]
fn divide_by_zero_is_error_value() {
    let mut env = Environment::new();
    assert_eq!(error_of("7/0", &mut env), "Cannot divide by zero");
    assert_eq!(error_of("0/0", &mut env), "Cannot divide by zero");
    assert_eq!(error_of("(1 + 2) / 0", &mut env), "Cannot divide by zero");
}

#[test]
fn binding_then_lookup_and_overwrite() {
    let mut env = Environment::new();
    assert_eq!(int_of("let x = 5", &mut env), 5);
    assert_eq!(int_of("x", &mut env), 5);
    assert_eq!(int_of("let x = 7", &mut env), 7);
    assert_eq!(int_of("x", &mut env), 7);
    assert_eq!(int_of("let y = x * 2", &mut env), 14);
    assert_eq!(int_of("x + y", &mut env), 21);
    assert_eq!(env.get(&"x".to_string()), Some(7));
}

#[test]
fn conditional_picks_branch() {
    let mut env = Environment::new();
    assert_eq!(int_of("if 0 then 1 else 2", &mut env), 2);
    assert_eq!(int_of("if 3 then 1 else 2", &mut env), 1);
    assert_eq!(int_of("if 1 > 2 then 10 else if 2 > 1 then 20 else 30", &mut env), 20);
}

#[test]
fn conditional_propagates_condition_error() {
    let mut env = Environment::new();
    assert_eq!(error_of("if 1/0 then 1 else 2", &mut env), "Cannot divide by zero");
}

#[test]
fn precedence_of_operators() {
    let mut env = Environment::new();
    assert_eq!(int_of("2 + 3 * 4", &mut env), 14);
    assert_eq!(int_of("(2 + 3) * 4", &mut env), 20);
    assert_eq!(int_of("1 + 2 > 2", &mut env), 1);
}

#[test]
fn left_associativity() {
    let mut env = Environment::new();
    assert_eq!(int_of("10 - 3 - 2", &mut env), 5);
    assert_eq!(int_of("100 / 10 / 5", &mut env), 2);
}

#[test]
fn unbound_identifier_names_it() {
    let mut env = Environment::new();
    let m = error_of("y", &mut env);
    assert_eq!(m, "Variable 'y' does not exist");
    assert!(m.contains('y'));
}

#[test]
fn incomplete_input_fails_to_parse() {
    let tokens = tokenize("1 +").unwrap();
    let mut parser = Parser::new(tokens);
    assert_eq!(parser.parse_all().unwrap_err(), "Unexpected end of input");
}

#[test]
fn trailing_tokens_fail_status() {
    let tokens = tokenize("1 1").unwrap();
    let mut parser = Parser::new(tokens);
    assert!(matches!(parser.parse_all(), Ok(Node::Int(1))));
    assert_eq!(parser.status().unwrap_err(), "Invalid syntax");
    let mut env = Environment::new();
    assert_eq!(failure_of("1 1", &mut env), "Invalid syntax");
}

#[test]
fn binding_with_trailing_token_is_rejected() {
    let mut env = Environment::new();
    assert_eq!(failure_of("let x = 5 6", &mut env), "Invalid syntax");
    assert_eq!(env.get(&"x".to_string()), None);
}

#[test]
fn values_evaluate_to_themselves() {
    let mut env = Environment::new();
    assert!(matches!(Node::Int(5).eval(&mut env), Node::Int(5)));
    match Node::Error("boom".to_string()).eval(&mut env) {
        Node::Error(m) => assert_eq!(m, "boom"),
        other => panic!("{:?}", other),
    }
    assert_eq!(env.get(&"boom".to_string()), None);
}

#[test]
fn comparisons_yield_zero_or_one() {
    let mut env = Environment::new();
    assert_eq!(int_of("3 > 2", &mut env), 1);
    assert_eq!(int_of("3 < 2", &mut env), 0);
    assert_eq!(int_of("2 < 2", &mut env), 0);
}

#[test]
fn negation_and_truncating_division() {
    let mut env = Environment::new();
    assert_eq!(int_of("-5", &mut env), -5);
    assert_eq!(int_of("--5", &mut env), 5);
    assert_eq!(int_of("-7 / 2", &mut env), -3);
    assert_eq!(int_of("-2147483647 - 1", &mut env), i32::MIN);
}

#[test]
fn overflow_is_error_value() {
    let mut env = Environment::new();
    assert_eq!(error_of("2147483647 + 1", &mut env), "Integer overflow");
    assert_eq!(error_of("65536 * 65536", &mut env), "Integer overflow");
    assert_eq!(error_of("-(-2147483647 - 1)", &mut env), "Integer overflow");
    assert_eq!(error_of("(-2147483647 - 1) / -1", &mut env), "Integer overflow");
}

#[test]
fn failed_binding_leaves_table_unchanged() {
    let mut env = Environment::new();
    assert_eq!(int_of("let z = 1", &mut env), 1);
    assert_eq!(error_of("let z = 1/0", &mut env), "Cannot divide by zero");
    assert_eq!(int_of("z", &mut env), 1);
    assert_eq!(error_of("let w = q", &mut env), "Variable 'q' does not exist");
    assert_eq!(error_of("w", &mut env), "Variable 'w' does not exist");
}

#[test]
fn unexpected_character_reports_column() {
    let mut env = Environment::new();
    assert_eq!(failure_of("1 $ 2", &mut env), "Unexpected character '$' at column 3");
    assert_eq!(failure_of("1 + 2 + 3 ?", &mut env), "Unexpected character '?' at column 11");
}

#[test]
fn tokenize_classifies_words() {
    let tokens = tokenize("let x1 = if then else (9)").unwrap();
    assert_eq!(tokens.len(), 9);
    assert!(matches!(tokens[0], Token::Keyword(Keyword::Let)));
    assert!(matches!(&tokens[1], Token::Identifier(s) if s == "x1"));
    assert!(matches!(tokens[2], Token::Operator('=')));
    assert!(matches!(tokens[3], Token::Keyword(Keyword::If)));
    assert!(matches!(tokens[4], Token::Keyword(Keyword::Then)));
    assert!(matches!(tokens[5], Token::Keyword(Keyword::Else)));
    assert!(matches!(tokens[6], Token::Paren('(')));
    assert!(matches!(tokens[7], Token::Int(9)));
    assert!(matches!(tokens[8], Token::Paren(')')));
}

#[test]
fn lexer_steps_through_line() {
    let mut lexer = Lexer::new("  ab1\t+ 3 ");
    assert!(matches!(lexer.next(), Some(Ok(Token::Identifier(s))) if s == "ab1"));
    assert!(matches!(lexer.next(), Some(Ok(Token::Operator('+')))));
    assert!(matches!(lexer.next(), Some(Ok(Token::Int(3)))));
    assert!(lexer.next().is_none());
    assert!(tokenize("   ").unwrap().is_empty());
}

#[test]
fn syntax_error_messages() {
    let mut env = Environment::new();
    assert_eq!(failure_of("", &mut env), "Unexpected end of input");
    assert_eq!(failure_of("let = 5", &mut env), "Expected an identifier after 'let' keyword");
    assert_eq!(failure_of("let x 5", &mut env), "Expected an equals sign in binding statement");
    assert_eq!(
        failure_of("if 1 then 2", &mut env),
        "Expected keyword 'else' after left expression in if statement"
    );
    assert_eq!(
        failure_of("if 1 else 2", &mut env),
        "Expected keyword 'then' after case expression in if statement"
    );
    assert_eq!(
        failure_of("(1 + 2", &mut env),
        "Expected closing bracket in parenthesized expression"
    );
    assert_eq!(failure_of("*", &mut env), "Failed to parse value");
    assert_eq!(failure_of("1 + then", &mut env), "Failed to parse value");
}

#[test]
fn parse_failure_restores_position() {
    let tokens = tokenize("(1 + 2").unwrap();
    let mut parser = Parser::new(tokens);
    assert!(parser.parse_all().is_err());
    assert!(parser.status().is_err());
}

#[test]
fn node_operations() {
    let three = Node::Int(3);
    let four = Node::Int(4);
    assert!(matches!(three.add(&four), Node::Int(7)));
    assert!(matches!(three.minus(&four), Node::Int(-1)));
    assert!(matches!(three.mult(&four), Node::Int(12)));
    assert!(matches!(Node::Int(9).div(&four), Node::Int(2)));
    assert!(matches!(three.gt(&four), Node::Int(0)));
    assert!(matches!(three.lt(&four), Node::Int(1)));
    assert!(matches!(three.negate(), Node::Int(-3)));
    assert!(matches!(three.div(&Node::Int(0)), Node::Error(m) if m == "Cannot divide by zero"));
}

#[test]
fn node_operations_on_non_integers() {
    let name = Node::Identifier("a".to_string());
    let err = Node::Error("left".to_string());
    let one = Node::Int(1);
    assert!(matches!(name.add(&one), Node::Error(m) if m == "Cannot add a non-integer value"));
    assert!(matches!(one.minus(&name), Node::Error(m) if m == "Cannot subtract a non-integer value"));
    assert!(matches!(name.mult(&one), Node::Error(m) if m == "Cannot multiply a non-integer value"));
    assert!(matches!(name.div(&one), Node::Error(m) if m == "Cannot divide a non-integer value"));
    assert!(matches!(name.gt(&one),
        Node::Error(m) if m == "Cannot perform an inequality on a non-integer value"));
    assert!(matches!(name.negate(), Node::Error(m) if m == "Cannot negate a non-integer value"));
    assert!(matches!(err.add(&name), Node::Error(m) if m == "left"));
    assert!(matches!(one.lt(&err), Node::Error(m) if m == "left"));
}

#[test]
fn node_kinds_and_errors() {
    assert_eq!(Node::Int(1).kind_name(), "Integer");
    assert_eq!(Node::Error("e".to_string()).kind_name(), "Error");
    assert!(Node::Error("e".to_string()).is_error());
    assert!(!Node::Int(1).is_error());
    let tree = Node::If(Box::new(Node::Int(1)), Box::new(Node::Int(2)), Box::new(Node::Int(3)));
    assert_eq!(tree.kind_name(), "If");
    let neg = Node::UnaryOp(UnaryOperator::Negate, Box::new(Node::Int(2)));
    assert_eq!(neg.kind_name(), "UnaryOp");
    let sum = Node::BinaryOp(Box::new(Node::Int(1)), BinaryOperator::Add, Box::new(Node::Int(2)));
    assert_eq!(sum.kind_name(), "BinaryOp");
    let mut env = Environment::new();
    assert!(matches!(sum.eval(&mut env), Node::Int(3)));
    assert!(matches!(neg.eval(&mut env), Node::Int(-2)));
}
