use shork::errors::{ErrorType, ShorkError};
use shork::eval::{ExprEvaluator, Value};
use shork::lexer::Lexer;
use shork::parser::ExprParser;
use shork::tokens::{Token, TokenType};
use shork::tree::{Node, AST};

fn eval_source(source: &str) -> Result<Value, ShorkError> {
    let mut l = Lexer::new(source.to_string());
    l.scan_tokens()?;
    let mut p = ExprParser::new(l.get_tokens().clone(), 0, source.to_string());
    p.parse();
    let mut interpreter = ExprEvaluator::new(source.to_string());
    interpreter.evaluate(p.tree())
}

#[test]
fn two_minus_two_is_zero() {
    assert_eq!(eval_source("2-2").unwrap(), Value::Int(0));
}

#[test]
fn float_expression_compares_equal() {
    let r = eval_source("(7.0/8.0-5.0%(6.4*3.0))-7.0 == -11.125").unwrap();
    assert_eq!(r, Value::Bool(true));
}

#[test]
fn mixed_types_parse_but_fail_to_evaluate() {
    let source = "(2 + 2 == 2 * 2 | 1) + false << !!true - 6 * \"Hello\" / 'a'";
    let mut l = Lexer::new(source.to_string());
    l.scan_tokens().unwrap();
    let mut p = ExprParser::new(l.get_tokens().clone(), 0, source.to_string());
    p.parse();
    // the parser built one tree
    assert!(p.tree().node_count() > 0);
    assert_eq!(p.tree().root().len(), 1);
    // the evaluator rejects the addition of a boolean
    let mut interpreter = ExprEvaluator::new(source.to_string());
    let r = interpreter.evaluate(p.tree());
    assert!(r.is_err());
    assert!(matches!(r.unwrap_err().e_type, ErrorType::TypeError));
}

#[test]
fn string_concatenation() {
    assert_eq!(
        eval_source("\"hi\" + \"there\"").unwrap(),
        Value::Str("hithere".to_string())
    );
}

#[test]
fn negating_booleans() {
    assert_eq!(eval_source("!true").unwrap(), Value::Bool(false));
    assert_eq!(eval_source("!(true)").unwrap(), Value::Bool(false));
}

#[test]
fn empty_source_evaluates_to_an_error() {
    // the token stream is a lone end-of-file, the tree is empty, and the
    // evaluator reports that there is nothing to evaluate
    let mut l = Lexer::new("".to_string());
    l.scan_tokens().unwrap();
    assert_eq!(l.get_tokens().len(), 1);
    let mut p = ExprParser::new(l.get_tokens().clone(), 0, "".to_string());
    p.parse();
    assert_eq!(p.tree().node_count(), 0);
    let r = eval_source("");
    assert!(r.is_err());
    assert!(matches!(r.unwrap_err().e_type, ErrorType::InterpreterError));
}

#[test]
fn whitespace_source_evaluates_like_empty() {
    let r = eval_source("  \t\n // nothing here");
    assert!(r.is_err());
    assert!(matches!(r.unwrap_err().e_type, ErrorType::InterpreterError));
}

#[test]
fn decimal_literals_evaluate_to_their_value() {
    assert_eq!(eval_source("42").unwrap(), Value::Int(42));
    assert_eq!(eval_source("0").unwrap(), Value::Int(0));
    assert_eq!(eval_source("-7").unwrap(), Value::Int(-7));
}

#[test]
fn largest_and_smallest_integers_are_exact() {
    assert_eq!(
        eval_source("9223372036854775807").unwrap(),
        Value::Int(i64::MAX)
    );
    assert_eq!(
        eval_source("-9223372036854775808").unwrap(),
        Value::Int(i64::MIN)
    );
}

#[test]
fn integer_overflow_wraps() {
    // one past the largest literal wraps around to the smallest value
    assert_eq!(
        eval_source("9223372036854775808").unwrap(),
        Value::Int(i64::MIN)
    );
    assert_eq!(
        eval_source("9223372036854775807 + 1").unwrap(),
        Value::Int(i64::MIN)
    );
    assert_eq!(
        eval_source("-9223372036854775808 - 1").unwrap(),
        Value::Int(i64::MAX)
    );
}

#[test]
fn division_by_zero_is_reported() {
    let r = eval_source("1 / 0");
    assert!(r.is_err());
    let e = r.unwrap_err();
    assert!(matches!(e.e_type, ErrorType::TypeError));
    assert_eq!(e.message, "Division by zero");
    let r2 = eval_source("1 % 0");
    assert!(r2.is_err());
}

#[test]
fn integer_arithmetic() {
    assert_eq!(eval_source("2 + 3 * 4").unwrap(), Value::Int(14));
    assert_eq!(eval_source("(2 + 3) * 4").unwrap(), Value::Int(20));
    assert_eq!(eval_source("7 / 2").unwrap(), Value::Int(3));
    assert_eq!(eval_source("7 % 2").unwrap(), Value::Int(1));
    assert_eq!(eval_source("-7 % 2").unwrap(), Value::Int(-1));
    assert_eq!(eval_source("1 << 4").unwrap(), Value::Int(16));
    assert_eq!(eval_source("-16 >> 2").unwrap(), Value::Int(-4));
    assert_eq!(eval_source("12 & 10").unwrap(), Value::Int(8));
    assert_eq!(eval_source("12 | 10").unwrap(), Value::Int(14));
}

#[test]
fn float_arithmetic_matches_hardware_floats() {
    assert_eq!(eval_source("1.5").unwrap(), Value::Float(1.5f64.to_bits()));
    assert_eq!(
        eval_source("1.5 + 2.25").unwrap(),
        Value::Float((1.5f64 + 2.25f64).to_bits())
    );
    assert_eq!(
        eval_source("2.5 - 1.0").unwrap(),
        Value::Float(1.5f64.to_bits())
    );
    assert_eq!(
        eval_source("2.5 * 2.0").unwrap(),
        Value::Float(5.0f64.to_bits())
    );
    assert_eq!(
        eval_source("7.0 / 8.0").unwrap(),
        Value::Float(0.875f64.to_bits())
    );
    assert_eq!(
        eval_source("7.5 % 2.0").unwrap(),
        Value::Float((7.5f64 % 2.0f64).to_bits())
    );
    assert_eq!(
        eval_source("-1.5").unwrap(),
        Value::Float((-1.5f64).to_bits())
    );
}

#[test]
fn comparisons() {
    assert_eq!(eval_source("1 < 2").unwrap(), Value::Bool(true));
    assert_eq!(eval_source("2 <= 2").unwrap(), Value::Bool(true));
    assert_eq!(eval_source("1 > 2").unwrap(), Value::Bool(false));
    assert_eq!(eval_source("1.0 < 2.0").unwrap(), Value::Bool(true));
    assert_eq!(eval_source("\"a\" < \"b\"").unwrap(), Value::Bool(true));
    assert_eq!(eval_source("\"abc\" < \"abd\"").unwrap(), Value::Bool(true));
    assert_eq!(eval_source("false < true").unwrap(), Value::Bool(true));
}

#[test]
fn comparing_a_nan_is_an_error() {
    let r = eval_source("(0.0 / 0.0) < 1.0");
    assert!(r.is_err());
    assert!(matches!(r.unwrap_err().e_type, ErrorType::TypeError));
}

#[test]
fn equality_across_tags_is_false() {
    assert_eq!(eval_source("1 == \"1\"").unwrap(), Value::Bool(false));
    assert_eq!(eval_source("1 != \"1\"").unwrap(), Value::Bool(true));
    assert_eq!(eval_source("1 == 1").unwrap(), Value::Bool(true));
    assert_eq!(eval_source("1.5 == 1.5").unwrap(), Value::Bool(true));
    assert_eq!(eval_source("\"a\" == \"a\"").unwrap(), Value::Bool(true));
}

#[test]
fn char_literals_evaluate_to_one_character_strings() {
    assert_eq!(eval_source("'a' + \"bc\"").unwrap(), Value::Str("abc".to_string()));
}

#[test]
fn logical_operators_on_booleans() {
    assert_eq!(eval_source("true & false").unwrap(), Value::Bool(false));
    assert_eq!(eval_source("true | false").unwrap(), Value::Bool(true));
}

#[test]
fn unary_minus_chains() {
    assert_eq!(eval_source("--2").unwrap(), Value::Int(2));
    assert_eq!(eval_source("-2").unwrap(), Value::Int(-2));
    assert_eq!(eval_source("!!true").unwrap(), Value::Bool(true));
}

#[test]
fn evaluation_is_deterministic() {
    let source = "(7.0/8.0-5.0%(6.4*3.0))-7.0";
    let a = eval_source(source).unwrap();
    let b = eval_source(source).unwrap();
    assert_eq!(a, b);
}

#[test]
fn soft_checks_name_what_was_found() {
    let source = "1 + }";
    let mut l = Lexer::new(source.to_string());
    l.scan_tokens().unwrap();
    let mut p = ExprParser::new(l.get_tokens().clone(), 0, source.to_string());
    p.parse();
    assert_eq!(p.get_errors().len(), 1);
    let e = &p.get_errors()[0];
    assert!(matches!(e.e_type, ErrorType::ParserError));
    assert_eq!(e.message, "Expected number, found RightCurlyParen");
    assert_eq!(e.pos_in_line, 5);

    let source2 = "!5";
    let mut l2 = Lexer::new(source2.to_string());
    l2.scan_tokens().unwrap();
    let mut p2 = ExprParser::new(l2.get_tokens().clone(), 0, source2.to_string());
    p2.parse();
    assert_eq!(p2.get_errors().len(), 1);
    assert_eq!(
        p2.get_errors()[0].message,
        "Expected a boolean, '!' or '(', found IntegerType"
    );
}

#[test]
fn unexpected_node_kinds_are_named() {
    let mut tree = AST::new();
    tree.add(Node::new(1, Token::new(TokenType::Identifier, 0, 3, b"abc".to_vec()), None, vec![]));
    let mut interpreter = ExprEvaluator::new("abc".to_string());
    let r = interpreter.evaluate(&tree);
    assert!(r.is_err());
    let e = r.unwrap_err();
    assert!(matches!(e.e_type, ErrorType::InterpreterError));
    assert_eq!(e.message, "Unexpected symbol Identifier! Did you mean something else?");
}

#[test]
fn missing_right_paren_is_reported_but_parsing_goes_on() {
    let source = "(1 + 2";
    let mut l = Lexer::new(source.to_string());
    l.scan_tokens().unwrap();
    let mut p = ExprParser::new(l.get_tokens().clone(), 0, source.to_string());
    p.parse();
    assert!(p.get_errors().len() >= 1);
    assert_eq!(p.get_errors()[0].message, "Expected ')'");
    assert!(matches!(p.get_errors()[0].e_type, ErrorType::ParserError));
    // the tree was still built and evaluates
    let mut interpreter = ExprEvaluator::new(source.to_string());
    assert_eq!(interpreter.evaluate(p.tree()).unwrap(), Value::Int(3));
}

#[test]
fn unsupported_operations_name_both_types() {
    let r = eval_source("1 + true");
    assert!(r.is_err());
    let e = r.unwrap_err();
    assert!(matches!(e.e_type, ErrorType::TypeError));
    assert_eq!(e.message, "Unsupported Operation '+' on integer and boolean");
    let r2 = eval_source("-\"hi\"");
    assert!(r2.is_err());
    assert_eq!(
        r2.unwrap_err().message,
        "Unsupported Unary '-' on string"
    );
}

#[test]
fn regexes_are_not_comparable() {
    let r = eval_source("#a# < #b#");
    assert!(r.is_err());
    assert!(matches!(r.unwrap_err().e_type, ErrorType::TypeError));
}
