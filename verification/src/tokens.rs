//! Tokens: the kinds the lexer emits, and the payload codecs that carry
//! decoded literal values as bytes.

use vstd::prelude::*;
use vstd::bytes::{spec_u64_from_le_bytes, spec_u64_to_le_bytes, u64_from_le_bytes};
use vstd::slice::slice_subrange;
use vstd::string::StrSliceExecFns;
use vstd::utf8::{decode_utf8, valid_utf8};
use crate::strutil::utf8_to_string;

verus! {

/// All different token types that can be found
#[derive(Debug, Clone, Copy, PartialEq, Eq, Structural)]
pub enum TokenType {
    // single character stuff
    LeftParen,
    RightParen,
    LeftCurlyParen,
    RightCurlyParen,
    LeftSquareParen,
    RightSquareParen,
    Comma,
    Dot,
    Plus,
    Minus,
    Asterisk,
    Pipe,
    AndSym,
    Roof,
    NewLine,
    // one or more characters
    Exclamation,
    ExclamationEqual,
    Equal,
    EqualEqual,
    Greater,
    GreaterEqual,
    GreaterGreater,
    Lesser,
    LesserEqual,
    LesserLesser,
    Slash,
    Colon,
    ColonColon,
    Percent,
    // Type literals and type keywords
    Identifier,
    Integer,
    IntegerType,
    Float,
    FloatType,
    Char,
    CharType,
    String,
    StringType,
    Boolean,
    BooleanType,
    Regex,
    RegexType,
    T,
    // general keywords
    Reef,
    Get,
    From,
    As,
    Define,
    And,
    Or,
    For,
    While,
    Do,
    In,
    If,
    Else,
    Return,
    Structure,
    Implement,
    Private,
    Eof,
}


/// The name of a token kind, as it reads in a diagnostic.
pub open spec fn token_kind_name(t: TokenType) -> Seq<char> {
    match t {
        TokenType::LeftParen => "LeftParen"@,
        TokenType::RightParen => "RightParen"@,
        TokenType::LeftCurlyParen => "LeftCurlyParen"@,
        TokenType::RightCurlyParen => "RightCurlyParen"@,
        TokenType::LeftSquareParen => "LeftSquareParen"@,
        TokenType::RightSquareParen => "RightSquareParen"@,
        TokenType::Comma => "Comma"@,
        TokenType::Dot => "Dot"@,
        TokenType::Plus => "Plus"@,
        TokenType::Minus => "Minus"@,
        TokenType::Asterisk => "Asterisk"@,
        TokenType::Pipe => "Pipe"@,
        TokenType::AndSym => "AndSym"@,
        TokenType::Roof => "Roof"@,
        TokenType::NewLine => "NewLine"@,
        TokenType::Exclamation => "Exclamation"@,
        TokenType::ExclamationEqual => "ExclamationEqual"@,
        TokenType::Equal => "Equal"@,
        TokenType::EqualEqual => "EqualEqual"@,
        TokenType::Greater => "Greater"@,
        TokenType::GreaterEqual => "GreaterEqual"@,
        TokenType::GreaterGreater => "GreaterGreater"@,
        TokenType::Lesser => "Lesser"@,
        TokenType::LesserEqual => "LesserEqual"@,
        TokenType::LesserLesser => "LesserLesser"@,
        TokenType::Slash => "Slash"@,
        TokenType::Colon => "Colon"@,
        TokenType::ColonColon => "ColonColon"@,
        TokenType::Percent => "Percent"@,
        TokenType::Identifier => "Identifier"@,
        TokenType::Integer => "Integer"@,
        TokenType::IntegerType => "IntegerType"@,
        TokenType::Float => "Float"@,
        TokenType::FloatType => "FloatType"@,
        TokenType::Char => "Char"@,
        TokenType::CharType => "CharType"@,
        TokenType::String => "String"@,
        TokenType::StringType => "StringType"@,
        TokenType::Boolean => "Boolean"@,
        TokenType::BooleanType => "BooleanType"@,
        TokenType::Regex => "Regex"@,
        TokenType::RegexType => "RegexType"@,
        TokenType::T => "T"@,
        TokenType::Reef => "Reef"@,
        TokenType::Get => "Get"@,
        TokenType::From => "From"@,
        TokenType::As => "As"@,
        TokenType::Define => "Define"@,
        TokenType::And => "And"@,
        TokenType::Or => "Or"@,
        TokenType::For => "For"@,
        TokenType::While => "While"@,
        TokenType::Do => "Do"@,
        TokenType::In => "In"@,
        TokenType::If => "If"@,
        TokenType::Else => "Else"@,
        TokenType::Return => "Return"@,
        TokenType::Structure => "Structure"@,
        TokenType::Implement => "Implement"@,
        TokenType::Private => "Private"@,
        TokenType::Eof => "Eof"@,
    }
}

/// The name of a token kind, as it reads in a diagnostic.
pub fn token_kind_str(t: TokenType) -> (r: &'static str)
    ensures
        r@ == token_kind_name(t),
{
    match t {
        TokenType::LeftParen => "LeftParen",
        TokenType::RightParen => "RightParen",
        TokenType::LeftCurlyParen => "LeftCurlyParen",
        TokenType::RightCurlyParen => "RightCurlyParen",
        TokenType::LeftSquareParen => "LeftSquareParen",
        TokenType::RightSquareParen => "RightSquareParen",
        TokenType::Comma => "Comma",
        TokenType::Dot => "Dot",
        TokenType::Plus => "Plus",
        TokenType::Minus => "Minus",
        TokenType::Asterisk => "Asterisk",
        TokenType::Pipe => "Pipe",
        TokenType::AndSym => "AndSym",
        TokenType::Roof => "Roof",
        TokenType::NewLine => "NewLine",
        TokenType::Exclamation => "Exclamation",
        TokenType::ExclamationEqual => "ExclamationEqual",
        TokenType::Equal => "Equal",
        TokenType::EqualEqual => "EqualEqual",
        TokenType::Greater => "Greater",
        TokenType::GreaterEqual => "GreaterEqual",
        TokenType::GreaterGreater => "GreaterGreater",
        TokenType::Lesser => "Lesser",
        TokenType::LesserEqual => "LesserEqual",
        TokenType::LesserLesser => "LesserLesser",
        TokenType::Slash => "Slash",
        TokenType::Colon => "Colon",
        TokenType::ColonColon => "ColonColon",
        TokenType::Percent => "Percent",
        TokenType::Identifier => "Identifier",
        TokenType::Integer => "Integer",
        TokenType::IntegerType => "IntegerType",
        TokenType::Float => "Float",
        TokenType::FloatType => "FloatType",
        TokenType::Char => "Char",
        TokenType::CharType => "CharType",
        TokenType::String => "String",
        TokenType::StringType => "StringType",
        TokenType::Boolean => "Boolean",
        TokenType::BooleanType => "BooleanType",
        TokenType::Regex => "Regex",
        TokenType::RegexType => "RegexType",
        TokenType::T => "T",
        TokenType::Reef => "Reef",
        TokenType::Get => "Get",
        TokenType::From => "From",
        TokenType::As => "As",
        TokenType::Define => "Define",
        TokenType::And => "And",
        TokenType::Or => "Or",
        TokenType::For => "For",
        TokenType::While => "While",
        TokenType::Do => "Do",
        TokenType::In => "In",
        TokenType::If => "If",
        TokenType::Else => "Else",
        TokenType::Return => "Return",
        TokenType::Structure => "Structure",
        TokenType::Implement => "Implement",
        TokenType::Private => "Private",
        TokenType::Eof => "Eof",
    }
}

/// The mathematical model of a token: its kind, its position and
/// length in the source (counted in characters), and its payload bytes.
pub struct TokenModel {
    pub t_type: TokenType,
    pub position: int,
    pub length: int,
    pub raw: Seq<u8>,
}

/// A token in a shork program
#[derive(Debug, PartialEq)]
pub struct Token {
    t_type: TokenType,
    position: usize,
    length: usize,
    raw: Vec<u8>,
}

impl View for Token {
    type V = TokenModel;

    closed spec fn view(&self) -> TokenModel {
        TokenModel {
            t_type: self.t_type,
            position: self.position as int,
            length: self.length as int,
            raw: self.raw@,
        }
    }
}

/// The signed 64-bit value whose two's complement bit pattern is the
/// unsigned 64-bit value `u`.
pub open spec fn twos_complement_of(u: u64) -> int {
    if u >= 0x8000_0000_0000_0000 {
        u - 0x1_0000_0000_0000_0000
    } else {
        u as int
    }
}

/// The unsigned 64-bit value whose two's complement reading is the
/// signed 64-bit value `n`.
pub open spec fn twos_complement_bits(n: i64) -> u64 {
    if n < 0 {
        (n + 0x1_0000_0000_0000_0000) as u64
    } else {
        n as u64
    }
}

/// The value of a little-endian 8-byte payload, read as a
/// two's complement signed 64-bit integer.
pub open spec fn i64_from_le_payload(raw: Seq<u8>) -> int {
    twos_complement_of(spec_u64_from_le_bytes(raw.subrange(0, 8)))
}

/// The little-endian 8-byte payload that carries a signed 64-bit integer.
pub open spec fn i64_to_le_payload(n: i64) -> Seq<u8> {
    spec_u64_to_le_bytes(twos_complement_bits(n))
}

pub proof fn lemma_i64_payload_roundtrip(n: i64)
    ensures
        i64_to_le_payload(n).len() == 8,
        i64_from_le_payload(i64_to_le_payload(n)) == n as int,
{
    vstd::bytes::lemma_auto_spec_u64_to_from_le_bytes();
    assert(i64_to_le_payload(n).subrange(0, 8) =~= i64_to_le_payload(n));
}

/// Reads an unsigned 64-bit bit pattern as a two's complement signed value.
pub fn i64_of_bits(u: u64) -> (n: i64)
    ensures
        n as int == twos_complement_of(u),
{
    if u >= 0x8000_0000_0000_0000 {
        let m = (u64::MAX - u) as i64;
        -m - 1
    } else {
        u as i64
    }
}

/// Produces the two's complement bit pattern of a signed 64-bit value.
pub fn bits_of_i64(n: i64) -> (u: u64)
    ensures
        u == twos_complement_bits(n),
{
    if n < 0 {
        let m = (-(n + 1)) as u64;
        u64::MAX - m
    } else {
        n as u64
    }
}

impl Clone for Token {
    fn clone(&self) -> (r: Token)
        ensures
            r@ == self@,
    {
        let r = Token {
            t_type: self.t_type,
            position: self.position,
            length: self.length,
            raw: self.raw.clone(),
        };
        proof {
            assert(r.raw@ =~= self.raw@);
            assert(r@ =~= self@);
        }
        r
    }
}

impl Token {
    /// create a new token
    pub fn new(t_type: TokenType, position: usize, length: usize, raw: Vec<u8>) -> (t: Token)
        ensures
            t@ == (TokenModel {
                t_type,
                position: position as int,
                length: length as int,
                raw: raw@,
            }),
    {
        Token { t_type, position, length, raw }
    }

    /// get the token type
    pub fn token_type(&self) -> (t: &TokenType)
        ensures
            *t == self@.t_type,
    {
        &self.t_type
    }

    /// get the tokens position
    pub fn position(&self) -> (p: usize)
        ensures
            p as int == self@.position,
    {
        self.position
    }

    /// get the tokens length
    pub fn len(&self) -> (l: usize)
        ensures
            l as int == self@.length,
    {
        self.length
    }

    /// get the raw contents
    pub fn raw(&self) -> (r: &Vec<u8>)
        ensures
            r@ == self@.raw,
    {
        &self.raw
    }

    /// get the contents as an int: the first 8 payload bytes read as a
    /// little-endian two's complement signed 64-bit integer
    pub fn content_int(&self) -> (n: i64)
        requires
            self@.raw.len() >= 8,
        ensures
            n as int == i64_from_le_payload(self@.raw),
    {
        let first8: &[u8] = slice_subrange(self.raw.as_slice(), 0, 8);
        let u = u64_from_le_bytes(first8);
        i64_of_bits(u)
    }

    /// get the contents as the bit pattern of a 64-bit float: the first 8
    /// payload bytes read as a little-endian unsigned 64-bit integer
    pub fn content_float_bits(&self) -> (u: u64)
        requires
            self@.raw.len() >= 8,
        ensures
            u == spec_u64_from_le_bytes(self@.raw.subrange(0, 8)),
    {
        let first8: &[u8] = slice_subrange(self.raw.as_slice(), 0, 8);
        u64_from_le_bytes(first8)
    }

    /// get the contents as a string: the UTF-8 decoding of the payload
    /// bytes, or nothing when they are not valid UTF-8
    pub fn content_string(&self) -> (r: Option<String>)
        ensures
            r is Some <==> valid_utf8(self@.raw),
            r matches Some(s) ==> s@ == decode_utf8(self@.raw),
    {
        utf8_to_string(&self.raw)
    }

    /// get the contents as a char: the first character of the decoded
    /// payload, or nothing when the payload is not valid UTF-8 or empty
    pub fn content_char(&self) -> (r: Option<char>)
        ensures
            ({
                let chars = decode_utf8(self@.raw);
                match r {
                    Some(c) => valid_utf8(self@.raw) && chars.len() > 0 && c == chars[0],
                    None => !valid_utf8(self@.raw) || chars.len() == 0,
                }
            }),
    {
        match self.content_string() {
            Some(s) => {
                if s.as_str().unicode_len() > 0 {
                    Some(s.as_str().get_char(0))
                } else {
                    None
                }
            },
            None => None,
        }
    }

    /// get the contents as a bool
    pub fn content_bool(&self) -> (b: bool)
        requires
            self@.raw.len() >= 1,
        ensures
            b == (self@.raw[0] == 1),
    {
        self.raw[0] == 1
    }
}

} // verus!
