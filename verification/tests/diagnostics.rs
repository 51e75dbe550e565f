use shork::errors::{format_error, kind_name, rendered, ErrorType, ShorkError};
use shork::eval::{compare_values, values_equal, Value};
use shork::report::{Reporter, StderrReporter};
use shork::tokens::{Token, TokenType};

#[test]
fn generate_error_finds_line_and_column() {
    let source = "first\nsecond line\nthird".to_string();
    let e = ShorkError::generate_error(
        ErrorType::SyntaxError,
        8,
        source,
        "boom".to_string(),
    );
    assert_eq!(e.line, 1);
    assert_eq!(e.pos_in_line, 3);
    assert_eq!(e.line_content, "second line");
    assert_eq!(e.message, "boom");
}

#[test]
fn generate_error_at_the_start() {
    let e = ShorkError::generate_error(
        ErrorType::SyntaxError,
        0,
        "\"unterminated".to_string(),
        "Unterminated string detected".to_string(),
    );
    assert_eq!(e.line, 0);
    assert_eq!(e.pos_in_line, 1);
    assert_eq!(e.line_content, "\"unterminated");
}

#[test]
fn generate_error_trims_leading_whitespace() {
    let e = ShorkError::generate_error(
        ErrorType::ParserError,
        7,
        "   hello".to_string(),
        "m".to_string(),
    );
    assert_eq!(e.line_content, "hello");
}

#[test]
fn generate_error_past_the_end_keeps_counting_columns() {
    let e = ShorkError::generate_error(ErrorType::ParserError, 6, "abc".to_string(), "m".to_string());
    assert_eq!(e.line, 0);
    assert_eq!(e.pos_in_line, 7);
}

#[test]
fn kind_names() {
    assert_eq!(kind_name(ErrorType::InterpreterError), "Interpreter Error");
    assert_eq!(kind_name(ErrorType::LexicalError), "Lexical Error");
    assert_eq!(kind_name(ErrorType::ParserError), "Parser Error");
    assert_eq!(kind_name(ErrorType::ReadingError), "Reading Error");
    assert_eq!(kind_name(ErrorType::SyntaxError), "Syntax Error");
    assert_eq!(kind_name(ErrorType::TypeError), "Type Error");
    assert_eq!(kind_name(ErrorType::Warning), "Warning");
}

#[test]
fn rendered_diagnostic_is_bit_exact() {
    let e = ShorkError {
        e_type: ErrorType::SyntaxError,
        line: 0,
        line_content: "\"unterminated".to_string(),
        pos_in_line: 1,
        message: "Unterminated string detected".to_string(),
    };
    let s = format_error(&e);
    let expected = "\nSyntax Error at line 0:\n    0 | \"unterminated\n        ^----- Here\nUnterminated string detected\n        ";
    assert_eq!(s, expected);
}

#[test]
fn rendered_pads_for_wide_line_numbers() {
    let e = ShorkError {
        e_type: ErrorType::TypeError,
        line: 12,
        line_content: "x".to_string(),
        pos_in_line: 3,
        message: "m".to_string(),
    };
    // 3 spaces for the column, one more for the second digit of 12
    let s = rendered(&e, "Type Error");
    let expected = "\nType Error at line 12:\n    12 | x\n           ^----- Here\nm\n        ";
    assert_eq!(s, expected);
}

#[test]
fn reporter_queues_errors_in_order() {
    let mut r = StderrReporter::new();
    assert_eq!(r.get_errors().len(), 0);
    let e1 = ShorkError::generate_error(ErrorType::Warning, 0, "a".to_string(), "one".to_string());
    let e2 = ShorkError::generate_error(ErrorType::TypeError, 0, "a".to_string(), "two".to_string());
    r.add_error(e1);
    r.add_error(e2);
    let q = r.get_errors();
    assert_eq!(q.len(), 2);
    assert_eq!(q[0].message, "one");
    assert_eq!(q[1].message, "two");
}

#[test]
fn token_int_payload_round_trips() {
    for n in [0i64, 1, -1, 42, i64::MAX, i64::MIN] {
        let t = Token::new(TokenType::IntegerType, 0, 0, n.to_le_bytes().to_vec());
        assert_eq!(t.content_int(), n);
    }
}

#[test]
fn value_helpers() {
    assert!(values_equal(&Value::Int(3), &Value::Int(3)));
    assert!(!values_equal(&Value::Int(3), &Value::Bool(true)));
    assert!(!values_equal(
        &Value::Float(f64::NAN.to_bits()),
        &Value::Float(f64::NAN.to_bits())
    ));
    assert!(values_equal(
        &Value::Float(0.0f64.to_bits()),
        &Value::Float((-0.0f64).to_bits())
    ));
    assert_eq!(
        compare_values(&Value::Str("a".to_string()), &Value::Str("b".to_string())),
        Some(-1)
    );
    assert_eq!(
        compare_values(&Value::Float(f64::NAN.to_bits()), &Value::Float(1.0f64.to_bits())),
        None
    );
}
