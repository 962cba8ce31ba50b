use xene::env::Env;
use xene::interpreter::{evaluate_condition, evaluate_expression, interpret, RuntimeError};
use xene::lexer::{tokenize, Token};
use xene::parser::{parse_assignment, parse_expression, parse_for, parse_if, parse_switch,
    parse_while, ASTNode};

const FUEL: u64 = 1_000_000;

fn run_program(source: &str, env: &mut Env, out: &mut Vec<i64>) {
    let mut tokens = tokenize(source);
    while !tokens.is_empty() {
        if let Some(ast) = parse_if(&mut tokens) {
            interpret(&ast, env, out, FUEL).unwrap();
        } else if let Some(ast) = parse_while(&mut tokens) {
            interpret(&ast, env, out, FUEL).unwrap();
        } else if let Some(ast) = parse_for(&mut tokens) {
            interpret(&ast, env, out, FUEL).unwrap();
        } else if let Some(ast) = parse_switch(&mut tokens) {
            interpret(&ast, env, out, FUEL).unwrap();
        } else if let Some(ast) = parse_assignment(&mut tokens) {
            interpret(&ast, env, out, FUEL).unwrap();
        } else if let Some(ast) = parse_expression(&mut tokens) {
            interpret(&ast, env, out, FUEL).unwrap();
        } else {
            break;
        }
    }
}

#[test]
fn test_tokenize_var_statement_exact() {
    let tokens = tokenize("var x = 10;");
    assert_eq!(
        tokens,
        vec![
            Token::Var,
            Token::Identifier("x".to_string()),
            Token::Equal,
            Token::Number(10),
            Token::Semicolon,
            Token::Eof,
        ]
    );
}

#[test]
fn test_tokenize_empty_input() {
    assert_eq!(tokenize(""), vec![Token::Eof]);
}

#[test]
fn test_tokenize_eof_always_last_and_unique() {
    for source in ["", "var x = 1;", "@@@", "a..b", ". . .", "while x > 5 { x = x - 1; }"] {
        let tokens = tokenize(source);
        assert_eq!(tokens.last(), Some(&Token::Eof));
        assert_eq!(tokens.iter().filter(|t| **t == Token::Eof).count(), 1);
    }
}

#[test]
fn test_tokenize_skips_unknown_characters() {
    let tokens = tokenize("@ # x !");
    assert_eq!(tokens, vec![Token::Identifier("x".to_string()), Token::Eof]);
}

#[test]
fn test_tokenize_single_dot_skipped() {
    let tokens = tokenize("1 . 2");
    assert_eq!(tokens, vec![Token::Number(1), Token::Number(2), Token::Eof]);
}

#[test]
fn test_tokenize_largest_literal() {
    let tokens = tokenize("var x = 9223372036854775807;");
    assert_eq!(tokens[3], Token::Number(i64::MAX));
}

#[test]
fn test_round_trip_var_assignment() {
    let mut env = Env::new();
    let mut out: Vec<i64> = Vec::new();
    run_program("var x = 10;", &mut env, &mut out);
    assert_eq!(env.get("x"), Some(10));
}

#[test]
fn test_reassignment_twice() {
    let mut env = Env::new();
    env.insert("x", 10);
    let mut out: Vec<i64> = Vec::new();
    run_program("x = x - 1;", &mut env, &mut out);
    assert_eq!(env.get("x"), Some(9));
    run_program("x = x - 1;", &mut env, &mut out);
    assert_eq!(env.get("x"), Some(8));
}

#[test]
fn test_if_else_output_exclusive() {
    let source = "if x > 5 { print(x); } else { print(0); }";

    let mut env = Env::new();
    env.insert("x", 4);
    let mut out: Vec<i64> = Vec::new();
    run_program(source, &mut env, &mut out);
    assert_eq!(out, vec![0]); // only the else branch printed

    let mut env = Env::new();
    env.insert("x", 6);
    let mut out: Vec<i64> = Vec::new();
    run_program(source, &mut env, &mut out);
    assert_eq!(out, vec![6]); // only the then branch printed
}

#[test]
fn test_while_terminates_at_bound() {
    let mut env = Env::new();
    env.insert("x", 10);
    let mut out: Vec<i64> = Vec::new();
    run_program("while x > 5 { x = x - 1; }", &mut env, &mut out);
    assert_eq!(env.get("x"), Some(5));
}

#[test]
fn test_while_zero_iterations() {
    let mut env = Env::new();
    env.insert("x", 5);
    let mut out: Vec<i64> = Vec::new();
    run_program("while x > 5 { x = x - 1; print(x); }", &mut env, &mut out);
    assert_eq!(env.get("x"), Some(5)); // the body never ran
    assert!(out.is_empty());
}

#[test]
fn test_for_sums_exclusive_range() {
    let mut env = Env::new();
    let mut out: Vec<i64> = Vec::new();
    run_program("var total = 0; for i in 1..4 { total = total + i; }", &mut env, &mut out);
    assert_eq!(env.get("total"), Some(6)); // 1 + 2 + 3; the end bound is exclusive
    assert_eq!(env.get("i"), None); // the iterator is unbound afterwards
}

#[test]
fn test_for_removes_preexisting_iterator_binding() {
    let mut env = Env::new();
    env.insert("i", 42);
    let mut out: Vec<i64> = Vec::new();
    run_program("for i in 0..2 { print(i); }", &mut env, &mut out);
    assert_eq!(out, vec![0, 1]);
    assert_eq!(env.get("i"), None);
}

#[test]
fn test_switch_first_match_wins() {
    // Two cases carry the value 2: only the first of them runs, and the
    // default is never reached.
    let source = "var x = 2; switch x { case 1: var r = 1; case 2: var r = 2; case 2: var r = 99; default: var r = 0; }";
    let mut env = Env::new();
    let mut out: Vec<i64> = Vec::new();
    run_program(source, &mut env, &mut out);
    assert_eq!(env.get("r"), Some(2));
}

#[test]
fn test_switch_default_when_no_case_matches() {
    let source = "var x = 7; switch x { case 1: var r = 1; case 2: var r = 2; default: var r = 0; }";
    let mut env = Env::new();
    let mut out: Vec<i64> = Vec::new();
    run_program(source, &mut env, &mut out);
    assert_eq!(env.get("r"), Some(0));
}

#[test]
fn test_division_truncates() {
    let mut env = Env::new();
    let mut out: Vec<i64> = Vec::new();
    run_program("var x = 10 / 3;", &mut env, &mut out);
    assert_eq!(env.get("x"), Some(3));
}

#[test]
fn test_division_truncates_toward_zero_when_negative() {
    let mut env = Env::new();
    let mut out: Vec<i64> = Vec::new();
    run_program("var a = 0 - 7; var q = a / 2;", &mut env, &mut out);
    assert_eq!(env.get("q"), Some(-3)); // not -4: machine division truncates
}

#[test]
fn test_division_by_zero_is_fatal() {
    let mut tokens = tokenize("var x = 10 / 0;");
    let ast = parse_assignment(&mut tokens).unwrap();
    let mut env = Env::new();
    let mut out: Vec<i64> = Vec::new();
    let r = interpret(&ast, &mut env, &mut out, FUEL);
    assert_eq!(r, Err(RuntimeError::DivisionByZero));
    assert_eq!(env.get("x"), None); // no silent 0 result was bound
}

#[test]
fn test_overflow_is_fatal() {
    let mut env = Env::new();
    let mut out: Vec<i64> = Vec::new();
    run_program("var x = 9223372036854775807;", &mut env, &mut out);
    let mut tokens = tokenize("x = x + 1;");
    let ast = parse_expression(&mut tokens).unwrap();
    let r = interpret(&ast, &mut env, &mut out, FUEL);
    assert_eq!(r, Err(RuntimeError::Overflow));
    assert_eq!(env.get("x"), Some(i64::MAX)); // the old binding is kept
}

#[test]
fn test_undefined_variable_is_fatal() {
    let env = Env::new();
    let node = ASTNode::Identifier("y".to_string());
    assert_eq!(evaluate_expression(&node, &env), Err(RuntimeError::UndefinedVariable));
}

#[test]
fn test_modulo_is_not_an_expression_operator() {
    let env = Env::new();
    let node = ASTNode::BinaryOp {
        left: Box::new(ASTNode::Number(10)),
        operator: Token::Modulo,
        right: Box::new(ASTNode::Number(3)),
    };
    assert_eq!(evaluate_expression(&node, &env), Err(RuntimeError::UnknownOperator));
}

#[test]
fn test_statement_node_in_expression_position_is_fatal() {
    let env = Env::new();
    let node = ASTNode::Print(Box::new(ASTNode::Number(1)));
    assert_eq!(evaluate_expression(&node, &env), Err(RuntimeError::UnsupportedNode));
}

#[test]
fn test_infinite_loop_exhausts_budget() {
    let mut tokens = tokenize("while 1 { x = 0; }");
    let ast = parse_while(&mut tokens).unwrap();
    let mut env = Env::new();
    let mut out: Vec<i64> = Vec::new();
    let r = interpret(&ast, &mut env, &mut out, 1000);
    assert_eq!(r, Err(RuntimeError::OutOfFuel));
}

#[test]
fn test_condition_comparisons() {
    let env = Env::new();
    let cmp = |l: i64, op: Token, r: i64| {
        evaluate_condition(
            &ASTNode::BinaryOp {
                left: Box::new(ASTNode::Number(l)),
                operator: op,
                right: Box::new(ASTNode::Number(r)),
            },
            &env,
        )
    };
    assert_eq!(cmp(3, Token::GreaterThan, 2), Ok(true));
    assert_eq!(cmp(2, Token::GreaterThan, 2), Ok(false));
    assert_eq!(cmp(1, Token::LessThan, 2), Ok(true));
    assert_eq!(cmp(3, Token::GreaterEqual, 3), Ok(true));
    assert_eq!(cmp(2, Token::LessEqual, 1), Ok(false));
    assert_eq!(cmp(1, Token::Plus, 1), Err(RuntimeError::UnknownOperator));
}

#[test]
fn test_parse_failure_leaves_tokens_untouched() {
    let mut tokens = tokenize("var = 5;");
    let before = tokens.clone();
    assert!(parse_assignment(&mut tokens).is_none());
    assert_eq!(tokens, before);

    let mut tokens = tokenize("if x > { print(x); }");
    let before = tokens.clone();
    assert!(parse_if(&mut tokens).is_none());
    assert_eq!(tokens, before);
}

#[test]
fn test_parse_consumes_exactly_the_form() {
    let mut tokens = tokenize("var x = 1; var y = 2;");
    assert!(parse_assignment(&mut tokens).is_some());
    // Exactly `var x = 1;` is gone; the next statement is still there.
    assert_eq!(tokens[0], Token::Var);
    assert_eq!(tokens[1], Token::Identifier("y".to_string()));
}

#[test]
fn test_print_requires_parens_and_semicolon() {
    let mut tokens = tokenize("print(x)");
    assert!(parse_expression(&mut tokens).is_none());
    let mut tokens = tokenize("print x;");
    assert!(parse_expression(&mut tokens).is_none());
}

#[test]
fn test_parenthesized_condition() {
    let mut env = Env::new();
    env.insert("x", 10);
    let mut out: Vec<i64> = Vec::new();
    run_program("if (x > 5) { print(x); }", &mut env, &mut out);
    assert_eq!(out, vec![10]);
}

#[test]
fn test_negative_values_via_subtraction() {
    let mut env = Env::new();
    let mut out: Vec<i64> = Vec::new();
    run_program("var x = 0 - 5; print(x);", &mut env, &mut out);
    assert_eq!(out, vec![-5]);
}

#[test]
fn test_env_insert_overwrite_remove() {
    let mut env = Env::new();
    assert_eq!(env.get("a"), None);
    env.insert("a", 1);
    env.insert("b", 2);
    assert_eq!(env.get("a"), Some(1));
    env.insert("a", 3);
    assert_eq!(env.get("a"), Some(3));
    assert_eq!(env.get("b"), Some(2));
    env.remove("a");
    assert_eq!(env.get("a"), None);
    assert_eq!(env.get("b"), Some(2));
}

#[test]
fn test_block_tolerates_missing_semicolons() {
    let mut env = Env::new();
    env.insert("x", 1);
    let mut out: Vec<i64> = Vec::new();
    run_program("if x > 0 { x = x + 1 x = x + 1 }", &mut env, &mut out);
    assert_eq!(env.get("x"), Some(3));
}
