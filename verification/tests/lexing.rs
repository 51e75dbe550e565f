use shork::lexer::Lexer;
use shork::tokens::TokenType;

fn scan_types(source: &str) -> Vec<TokenType> {
    let mut l = Lexer::new(source.to_string());
    let res = l.scan_tokens();
    assert!(res.is_ok());
    l.get_tokens().iter().map(|t| *t.token_type()).collect()
}

#[test]
fn lexing_keywords() {
    let source = "integer float char string boolean regex T reef get from as define and or for while do in if else return structure implement private";
    let mut l = Lexer::new(source.to_string());
    let res = l.scan_tokens();
    if res.is_err() {
        assert_eq!(1, 2)
    }

    let mut v = Vec::new();
    for t in l.get_tokens() {
        v.push(*t.token_type())
    }
    assert_eq!(
        v,
        vec![
            TokenType::Integer,
            TokenType::Float,
            TokenType::Char,
            TokenType::String,
            TokenType::Boolean,
            TokenType::Regex,
            TokenType::T,
            TokenType::Reef,
            TokenType::Get,
            TokenType::From,
            TokenType::As,
            TokenType::Define,
            TokenType::And,
            TokenType::Or,
            TokenType::For,
            TokenType::While,
            TokenType::Do,
            TokenType::In,
            TokenType::If,
            TokenType::Else,
            TokenType::Return,
            TokenType::Structure,
            TokenType::Implement,
            TokenType::Private,
            TokenType::Eof
        ]
    )
}

#[test]
fn lexing_vars() {
    let source = "test = \"Hello\" test2 = 44 test_3 = 12.2 Test4 = false test5uwu = #iamregex#";
    let mut l = Lexer::new(source.to_string());
    let res = l.scan_tokens();
    if res.is_err() {
        assert_eq!(1, 2)
    }

    let mut v = Vec::new();
    for t in l.get_tokens() {
        v.push(*t.token_type())
    }
    assert_eq!(
        v,
        vec![
            TokenType::Identifier,
            TokenType::Equal,
            TokenType::StringType,
            TokenType::Identifier,
            TokenType::Equal,
            TokenType::IntegerType,
            TokenType::Identifier,
            TokenType::Equal,
            TokenType::FloatType,
            TokenType::Identifier,
            TokenType::Equal,
            TokenType::BooleanType,
            TokenType::Identifier,
            TokenType::Equal,
            TokenType::RegexType,
            TokenType::Eof
        ]
    )
}

#[test]
fn lexing_newlines() {
    let source = r#"reef asdf
        iamgroot
        seemstowork()
        nonewline{
            newline]
        "#;
    let mut l = Lexer::new(source.to_string());
    let res = l.scan_tokens();
    if res.is_err() {
        assert_eq!(1, 2)
    }

    let mut v = Vec::new();
    for t in l.get_tokens() {
        v.push(*t.token_type())
    }
    assert_eq!(
        v,
        vec![
            TokenType::Reef,
            TokenType::Identifier,
            TokenType::NewLine,
            TokenType::Identifier,
            TokenType::NewLine,
            TokenType::Identifier,
            TokenType::LeftParen,
            TokenType::RightParen,
            TokenType::NewLine,
            TokenType::Identifier,
            TokenType::LeftCurlyParen,
            TokenType::Identifier,
            TokenType::RightSquareParen,
            TokenType::NewLine,
            TokenType::Eof
        ]
    )
}

#[test]
fn empty_source_gives_only_eof() {
    let types = scan_types("");
    assert_eq!(types, vec![TokenType::Eof]);
}

#[test]
fn blank_and_comment_source_gives_only_eof() {
    assert_eq!(scan_types("   \t \r \n  "), vec![TokenType::Eof]);
    assert_eq!(scan_types("// just a comment"), vec![TokenType::Eof]);
    assert_eq!(scan_types("  // a comment \n"), vec![TokenType::Eof]);
}

#[test]
fn unterminated_string_points_at_opening_quote() {
    let mut l = Lexer::new("\"unterminated".to_string());
    let res = l.scan_tokens();
    assert!(res.is_err());
    let e = res.unwrap_err();
    assert!(matches!(e.e_type, shork::errors::ErrorType::SyntaxError));
    assert_eq!(e.pos_in_line, 1);
    assert_eq!(e.line, 0);
    assert_eq!(l.get_errors().len(), 1);
}

#[test]
fn unterminated_regex_is_a_syntax_error() {
    let mut l = Lexer::new("#unterminated".to_string());
    let res = l.scan_tokens();
    assert!(res.is_err());
    assert!(matches!(
        res.unwrap_err().e_type,
        shork::errors::ErrorType::SyntaxError
    ));
}

#[test]
fn char_literal_with_too_many_symbols() {
    let mut l = Lexer::new("'ab'".to_string());
    let res = l.scan_tokens();
    assert!(res.is_err());
    assert!(matches!(
        res.unwrap_err().e_type,
        shork::errors::ErrorType::TypeError
    ));
}

#[test]
fn unterminated_char_literal_is_a_reading_error() {
    let mut l = Lexer::new("'a".to_string());
    let res = l.scan_tokens();
    assert!(res.is_err());
    assert!(matches!(
        res.unwrap_err().e_type,
        shork::errors::ErrorType::ReadingError
    ));
}

#[test]
fn unexpected_symbol_is_reported_and_scanning_goes_on() {
    let mut l = Lexer::new("2 @ 3".to_string());
    let res = l.scan_tokens();
    assert!(res.is_ok());
    assert_eq!(l.get_errors().len(), 1);
    let e = &l.get_errors()[0];
    assert!(matches!(e.e_type, shork::errors::ErrorType::LexicalError));
    assert_eq!(e.message, "Unexpected Symbol '@'.");
    let types: Vec<TokenType> = l.get_tokens().iter().map(|t| *t.token_type()).collect();
    assert_eq!(
        types,
        vec![TokenType::IntegerType, TokenType::IntegerType, TokenType::Eof]
    );
}

#[test]
fn integer_literal_payload_is_decoded() {
    let mut l = Lexer::new("44".to_string());
    l.scan_tokens().unwrap();
    let t = &l.get_tokens()[0];
    assert_eq!(*t.token_type(), TokenType::IntegerType);
    assert_eq!(t.position(), 0);
    assert_eq!(t.len(), 2);
    assert_eq!(t.raw(), &44i64.to_le_bytes().to_vec());
    assert_eq!(t.content_int(), 44);
}

#[test]
fn float_literal_payload_is_the_bit_pattern() {
    let mut l = Lexer::new("12.2".to_string());
    l.scan_tokens().unwrap();
    let t = &l.get_tokens()[0];
    assert_eq!(*t.token_type(), TokenType::FloatType);
    assert_eq!(t.raw(), &12.2f64.to_bits().to_le_bytes().to_vec());
    assert_eq!(t.content_float_bits(), 12.2f64.to_bits());
}

#[test]
fn string_payload_is_the_interior() {
    let mut l = Lexer::new("\"Hello\"".to_string());
    l.scan_tokens().unwrap();
    let t = &l.get_tokens()[0];
    assert_eq!(*t.token_type(), TokenType::StringType);
    assert_eq!(t.len(), 7);
    assert_eq!(t.raw(), &b"Hello".to_vec());
    assert_eq!(t.content_string(), Some("Hello".to_string()));
}

#[test]
fn char_payload_is_the_symbol() {
    let mut l = Lexer::new("'a'".to_string());
    l.scan_tokens().unwrap();
    let t = &l.get_tokens()[0];
    assert_eq!(*t.token_type(), TokenType::CharType);
    assert_eq!(t.len(), 3);
    assert_eq!(t.raw(), &b"a".to_vec());
    assert_eq!(t.content_char(), Some('a'));
}

#[test]
fn boolean_literals_carry_one_byte() {
    let mut l = Lexer::new("true false".to_string());
    l.scan_tokens().unwrap();
    let ts = l.get_tokens();
    assert_eq!(*ts[0].token_type(), TokenType::BooleanType);
    assert_eq!(ts[0].raw(), &vec![1u8]);
    assert!(ts[0].content_bool());
    assert_eq!(*ts[1].token_type(), TokenType::BooleanType);
    assert_eq!(ts[1].raw(), &vec![0u8]);
    assert!(!ts[1].content_bool());
}

#[test]
fn punctuation_lexemes_round_trip() {
    let lexemes = [
        ("(", TokenType::LeftParen),
        (")", TokenType::RightParen),
        ("+", TokenType::Plus),
        ("-", TokenType::Minus),
        ("*", TokenType::Asterisk),
        ("/", TokenType::Slash),
        ("%", TokenType::Percent),
        ("==", TokenType::EqualEqual),
        ("!=", TokenType::ExclamationEqual),
        ("<=", TokenType::LesserEqual),
        (">>", TokenType::GreaterGreater),
        ("<<", TokenType::LesserLesser),
        ("::", TokenType::ColonColon),
        ("^", TokenType::Roof),
        ("&", TokenType::AndSym),
        ("|", TokenType::Pipe),
    ];
    for (text, expected) in lexemes {
        let types = scan_types(text);
        assert_eq!(types, vec![expected, TokenType::Eof], "lexeme {:?}", text);
    }
}

#[test]
fn keyword_lexemes_round_trip() {
    for kw in [
        "integer", "float", "char", "string", "boolean", "regex", "T", "reef", "get", "from",
        "as", "define", "and", "or", "for", "while", "do", "in", "if", "else", "return",
        "structure", "implement", "private",
    ] {
        let mut l = Lexer::new(kw.to_string());
        l.scan_tokens().unwrap();
        let ts = l.get_tokens();
        assert_eq!(ts.len(), 2);
        assert_ne!(*ts[0].token_type(), TokenType::Identifier, "keyword {:?}", kw);
        assert_eq!(ts[0].raw(), &kw.as_bytes().to_vec());
        assert_eq!(ts[0].position(), 0);
        assert_eq!(ts[0].len(), kw.len());
    }
}
