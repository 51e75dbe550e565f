//! The lexer: characters in, tokens and diagnostics out, specified by a
//! step function over the source and proved faithful to it.

use vstd::prelude::*;
use vstd::string::StrSliceExecFns;
use vstd::bytes::{spec_u64_to_le_bytes, u64_to_le_bytes};
use vstd::utf8::encode_utf8;
use vstd::wrapping::i64_specs;
use crate::errors::{ErrModel, ErrorType, ShorkError, errs_match, matches_err};
use crate::floats::{f64_bits_of_decimal, is_digit_char, is_float_lexeme, parse_f64_bits};
use crate::strutil::{chars_to_string, push_str_chars, str_eq, string_chars};
use crate::tokens::{Token, TokenModel, TokenType, bits_of_i64, i64_to_le_payload};

verus! {

/// Whether a character is an ASCII letter.
pub open spec fn is_letter_char(c: char) -> bool {
    (65 <= c as u32 <= 90) || (97 <= c as u32 <= 122)
}

/// Whether a character continues an identifier.
pub open spec fn is_ident_char(c: char) -> bool {
    is_letter_char(c) || is_digit_char(c) || c == '_'
}

/// The index of the first occurrence of `target` at or after `i`, or the
/// length of the source when there is none.
pub open spec fn seek_char(src: Seq<char>, i: int, target: char) -> int
    decreases src.len() - i,
{
    if i < 0 {
        seek_char(src, 0, target)
    } else if i >= src.len() {
        src.len() as int
    } else if src[i] == target {
        i
    } else {
        seek_char(src, i + 1, target)
    }
}

/// The index just past the run of decimal digits that starts at `i`.
pub open spec fn digit_run_end(src: Seq<char>, i: int) -> int
    decreases src.len() - i,
{
    if i < 0 {
        digit_run_end(src, 0)
    } else if i >= src.len() {
        src.len() as int
    } else if !is_digit_char(src[i]) {
        i
    } else {
        digit_run_end(src, i + 1)
    }
}

/// The index just past the run of identifier characters that starts at `i`.
pub open spec fn ident_run_end(src: Seq<char>, i: int) -> int
    decreases src.len() - i,
{
    if i < 0 {
        ident_run_end(src, 0)
    } else if i >= src.len() {
        src.len() as int
    } else if !is_ident_char(src[i]) {
        i
    } else {
        ident_run_end(src, i + 1)
    }
}

/// The numeric value of a digit character.
pub open spec fn digit_val(c: char) -> int {
    c as u32 - 48
}

/// The signed 64-bit value of a run of decimal digits, accumulated with
/// wrapping arithmetic: overflow wraps around.
pub open spec fn decode_digits_wrapping(s: Seq<char>) -> i64
    decreases s.len(),
{
    if s.len() == 0 {
        0i64
    } else {
        i64_specs::wrapping_add(
            i64_specs::wrapping_mul(decode_digits_wrapping(s.drop_last()), 10),
            digit_val(s.last()) as i64,
        )
    }
}

/// One step of the lexer: possibly a token, possibly a diagnostic, the
/// position where scanning goes on, and whether scanning stops here.
pub struct StepModel {
    pub token: Option<TokenModel>,
    pub next: int,
    pub err: Option<ErrModel>,
    pub halt: bool,
}

/// A token whose payload is the source text it was read from.
pub open spec fn lexeme_token(src: Seq<char>, t: TokenType, start: int, end: int) -> TokenModel {
    TokenModel {
        t_type: t,
        position: start,
        length: end - start,
        raw: encode_utf8(src.subrange(start, end)),
    }
}

pub open spec fn step_tok(t: TokenModel, next: int) -> StepModel {
    StepModel { token: Some(t), next, err: None, halt: false }
}

pub open spec fn step_none(next: int) -> StepModel {
    StepModel { token: None, next, err: None, halt: false }
}

pub open spec fn step_halt(e: ErrModel, next: int) -> StepModel {
    StepModel { token: None, next, err: Some(e), halt: true }
}

pub open spec fn step_soft(e: ErrModel, next: int) -> StepModel {
    StepModel { token: None, next, err: Some(e), halt: false }
}

/// A one- or two-character operator: the second character decides.
pub open spec fn two_char_step(src: Seq<char>, start: int, second: char, two_t: TokenType, one_t: TokenType) -> StepModel {
    if start + 1 < src.len() && src[start + 1] == second {
        step_tok(lexeme_token(src, two_t, start, start + 2), start + 2)
    } else {
        step_tok(lexeme_token(src, one_t, start, start + 1), start + 1)
    }
}

/// A string- or regex-like literal: everything up to the closing delimiter
/// is the payload; a missing delimiter is a syntax error at the opening one.
pub open spec fn delimited_step(src: Seq<char>, start: int, delim: char, t: TokenType, msg: Seq<char>) -> StepModel {
    let e = seek_char(src, start + 1, delim);
    if e >= src.len() {
        step_halt(
            ErrModel { e_type: ErrorType::SyntaxError, position: start, message: msg },
            start + 1,
        )
    } else {
        step_tok(
            TokenModel {
                t_type: t,
                position: start,
                length: e + 1 - start,
                raw: encode_utf8(src.subrange(start + 1, e)),
            },
            e + 1,
        )
    }
}

/// A character literal: exactly one symbol between single quotes.
pub open spec fn char_step(src: Seq<char>, start: int) -> StepModel {
    if start + 1 >= src.len() {
        step_halt(
            ErrModel {
                e_type: ErrorType::ReadingError,
                position: start + 1,
                message: "Couldn't read character at position"@,
            },
            start + 1,
        )
    } else if start + 2 < src.len() && src[start + 2] == '\'' {
        step_tok(
            TokenModel {
                t_type: TokenType::CharType,
                position: start,
                length: 3,
                raw: encode_utf8(src.subrange(start + 1, start + 2)),
            },
            start + 3,
        )
    } else if start + 2 >= src.len() {
        step_halt(
            ErrModel {
                e_type: ErrorType::ReadingError,
                position: start + 2,
                message: "Couldn't read character at position"@,
            },
            start + 2,
        )
    } else {
        step_halt(
            ErrModel {
                e_type: ErrorType::TypeError,
                position: start + 2,
                message: "To many symbols detected. A character type variable can only contain one symbol"@,
            },
            start + 2,
        )
    }
}

/// A newline is a token only when the character one before it could end a
/// statement: a letter, a digit, `]`, `)`, `_` or `#`.
pub open spec fn newline_step(src: Seq<char>, start: int) -> StepModel {
    let behind = if start + 1 >= 2 {
        src[start - 1]
    } else {
        '\0'
    };
    if is_letter_char(behind) || is_digit_char(behind) || behind == ']' || behind == ')' || behind
        == '_' || behind == '#' {
        step_tok(lexeme_token(src, TokenType::NewLine, start, start + 1), start + 1)
    } else {
        step_none(start + 1)
    }
}

/// A number: a run of digits and, when a point with another digit follows,
/// a fractional part. The payload carries the decoded value: eight
/// little-endian bytes of the wrapped signed integer, or of the float's
/// bit pattern.
pub open spec fn number_step(src: Seq<char>, start: int) -> StepModel {
    let d_end = digit_run_end(src, start + 1);
    if d_end < src.len() && src[d_end] == '.' && d_end + 1 < src.len() && is_digit_char(
        src[d_end + 1],
    ) {
        let f_end = digit_run_end(src, d_end + 1);
        step_tok(
            TokenModel {
                t_type: TokenType::FloatType,
                position: start,
                length: f_end - start,
                raw: spec_u64_to_le_bytes(f64_bits_of_decimal(src.subrange(start, f_end))),
            },
            f_end,
        )
    } else {
        step_tok(
            TokenModel {
                t_type: TokenType::IntegerType,
                position: start,
                length: d_end - start,
                raw: i64_to_le_payload(decode_digits_wrapping(src.subrange(start, d_end))),
            },
            d_end,
        )
    }
}

/// The keyword that a lexeme spells, or `Identifier`.
pub open spec fn keyword_type(text: Seq<char>) -> TokenType {
    if text == "integer"@ {
        TokenType::Integer
    } else if text == "float"@ {
        TokenType::Float
    } else if text == "char"@ {
        TokenType::Char
    } else if text == "string"@ {
        TokenType::String
    } else if text == "boolean"@ {
        TokenType::Boolean
    } else if text == "regex"@ {
        TokenType::Regex
    } else if text == "T"@ {
        TokenType::T
    } else if text == "reef"@ {
        TokenType::Reef
    } else if text == "get"@ {
        TokenType::Get
    } else if text == "from"@ {
        TokenType::From
    } else if text == "as"@ {
        TokenType::As
    } else if text == "define"@ {
        TokenType::Define
    } else if text == "and"@ {
        TokenType::And
    } else if text == "or"@ {
        TokenType::Or
    } else if text == "for"@ {
        TokenType::For
    } else if text == "while"@ {
        TokenType::While
    } else if text == "do"@ {
        TokenType::Do
    } else if text == "in"@ {
        TokenType::In
    } else if text == "if"@ {
        TokenType::If
    } else if text == "else"@ {
        TokenType::Else
    } else if text == "return"@ {
        TokenType::Return
    } else if text == "structure"@ {
        TokenType::Structure
    } else if text == "implement"@ {
        TokenType::Implement
    } else if text == "private"@ {
        TokenType::Private
    } else {
        TokenType::Identifier
    }
}

/// An identifier, keyword or boolean literal. Booleans carry a one-byte
/// payload, 1 for true and 0 for false; everything else carries its text.
pub open spec fn ident_step(src: Seq<char>, start: int) -> StepModel {
    let e = ident_run_end(src, start + 1);
    let text = src.subrange(start, e);
    if text == "true"@ {
        step_tok(
            TokenModel {
                t_type: TokenType::BooleanType,
                position: start,
                length: e - start,
                raw: seq![1u8],
            },
            e,
        )
    } else if text == "false"@ {
        step_tok(
            TokenModel {
                t_type: TokenType::BooleanType,
                position: start,
                length: e - start,
                raw: seq![0u8],
            },
            e,
        )
    } else {
        step_tok(lexeme_token(src, keyword_type(text), start, e), e)
    }
}

/// What the lexer does at one source position.
pub open spec fn next_token(src: Seq<char>, start: int) -> StepModel
    recommends
        0 <= start < src.len(),
{
    let c = src[start];
    let cur = start + 1;
    if c == '(' {
        step_tok(lexeme_token(src, TokenType::LeftParen, start, cur), cur)
    } else if c == ')' {
        step_tok(lexeme_token(src, TokenType::RightParen, start, cur), cur)
    } else if c == '{' {
        step_tok(lexeme_token(src, TokenType::LeftCurlyParen, start, cur), cur)
    } else if c == '}' {
        step_tok(lexeme_token(src, TokenType::RightCurlyParen, start, cur), cur)
    } else if c == '[' {
        step_tok(lexeme_token(src, TokenType::LeftSquareParen, start, cur), cur)
    } else if c == ']' {
        step_tok(lexeme_token(src, TokenType::RightSquareParen, start, cur), cur)
    } else if c == ',' {
        step_tok(lexeme_token(src, TokenType::Comma, start, cur), cur)
    } else if c == '.' {
        step_tok(lexeme_token(src, TokenType::Dot, start, cur), cur)
    } else if c == '+' {
        step_tok(lexeme_token(src, TokenType::Plus, start, cur), cur)
    } else if c == '-' {
        step_tok(lexeme_token(src, TokenType::Minus, start, cur), cur)
    } else if c == '*' {
        step_tok(lexeme_token(src, TokenType::Asterisk, start, cur), cur)
    } else if c == '|' {
        step_tok(lexeme_token(src, TokenType::Pipe, start, cur), cur)
    } else if c == '&' {
        step_tok(lexeme_token(src, TokenType::AndSym, start, cur), cur)
    } else if c == '^' {
        step_tok(lexeme_token(src, TokenType::Roof, start, cur), cur)
    } else if c == '%' {
        step_tok(lexeme_token(src, TokenType::Percent, start, cur), cur)
    } else if c == '!' {
        two_char_step(src, start, '=', TokenType::ExclamationEqual, TokenType::Exclamation)
    } else if c == '=' {
        two_char_step(src, start, '=', TokenType::EqualEqual, TokenType::Equal)
    } else if c == ':' {
        two_char_step(src, start, ':', TokenType::ColonColon, TokenType::Colon)
    } else if c == '>' {
        if cur < src.len() && src[cur] == '=' {
            step_tok(lexeme_token(src, TokenType::GreaterEqual, start, cur + 1), cur + 1)
        } else if cur < src.len() && src[cur] == '>' {
            step_tok(lexeme_token(src, TokenType::GreaterGreater, start, cur + 1), cur + 1)
        } else {
            step_tok(lexeme_token(src, TokenType::Greater, start, cur), cur)
        }
    } else if c == '<' {
        if cur < src.len() && src[cur] == '=' {
            step_tok(lexeme_token(src, TokenType::LesserEqual, start, cur + 1), cur + 1)
        } else if cur < src.len() && src[cur] == '<' {
            step_tok(lexeme_token(src, TokenType::LesserLesser, start, cur + 1), cur + 1)
        } else {
            step_tok(lexeme_token(src, TokenType::Lesser, start, cur), cur)
        }
    } else if c == '/' {
        if cur < src.len() && src[cur] == '/' {
            // a comment: consume it through the end of the line
            step_none(seek_char(src, cur, '\n'))
        } else {
            step_tok(lexeme_token(src, TokenType::Slash, start, cur), cur)
        }
    } else if c == '"' {
        delimited_step(src, start, '"', TokenType::StringType, "Unterminated string detected"@)
    } else if c == '#' {
        delimited_step(src, start, '#', TokenType::RegexType, "Unterminated regex detected"@)
    } else if c == '\'' {
        char_step(src, start)
    } else if c == '\n' {
        newline_step(src, start)
    } else if c == ' ' || c == '\r' || c == '\t' {
        step_none(cur)
    } else if is_digit_char(c) {
        number_step(src, start)
    } else if is_letter_char(c) || c == '_' {
        ident_step(src, start)
    } else {
        step_soft(
            ErrModel {
                e_type: ErrorType::LexicalError,
                position: cur,
                message: "Unexpected Symbol '"@ + seq![c] + "'."@,
            },
            cur,
        )
    }
}

/// Every step moves the cursor forward and never past the end.
pub proof fn lemma_next_token_bounds(src: Seq<char>, start: int)
    requires
        0 <= start < src.len(),
    ensures
        start < next_token(src, start).next <= src.len(),
{
    lemma_seek_bounds(src, start + 1, '\n');
    lemma_seek_bounds(src, start + 1, '"');
    lemma_seek_bounds(src, start + 1, '#');
    lemma_digit_run_bounds(src, start + 1);
    let d_end = digit_run_end(src, start + 1);
    if d_end + 1 <= src.len() {
        lemma_digit_run_bounds(src, d_end + 1);
    }
    lemma_ident_run_bounds(src, start + 1);
}

pub proof fn lemma_seek_bounds(src: Seq<char>, i: int, target: char)
    requires
        0 <= i <= src.len(),
    ensures
        i <= seek_char(src, i, target) <= src.len(),
    decreases src.len() - i,
{
    if i < src.len() && src[i] != target {
        lemma_seek_bounds(src, i + 1, target);
    }
}

pub proof fn lemma_digit_run_bounds(src: Seq<char>, i: int)
    requires
        0 <= i <= src.len(),
    ensures
        i <= digit_run_end(src, i) <= src.len(),
    decreases src.len() - i,
{
    if i < src.len() && is_digit_char(src[i]) {
        lemma_digit_run_bounds(src, i + 1);
    }
}

pub proof fn lemma_ident_run_bounds(src: Seq<char>, i: int)
    requires
        0 <= i <= src.len(),
    ensures
        i <= ident_run_end(src, i) <= src.len(),
    decreases src.len() - i,
{
    if i < src.len() && is_ident_char(src[i]) {
        lemma_ident_run_bounds(src, i + 1);
    }
}

/// The outcome of scanning a whole source: the tokens before the end-of-file
/// token, the diagnostics, and the hard error that stopped the lexer, if any.
pub struct ScanModel {
    pub tokens: Seq<TokenModel>,
    pub errs: Seq<ErrModel>,
    pub halted: Option<ErrModel>,
}

pub open spec fn opt_token_seq(t: Option<TokenModel>) -> Seq<TokenModel> {
    match t {
        Some(tm) => seq![tm],
        None => Seq::empty(),
    }
}

pub open spec fn opt_err_seq(e: Option<ErrModel>) -> Seq<ErrModel> {
    match e {
        Some(em) => seq![em],
        None => Seq::empty(),
    }
}

/// The lexer's walk over the source from a position: one step, then the rest.
pub open spec fn scan_from(src: Seq<char>, current: int) -> ScanModel
    decreases src.len() - current,
{
    if current < 0 || current >= src.len() {
        ScanModel { tokens: Seq::empty(), errs: Seq::empty(), halted: None }
    } else {
        let step = next_token(src, current);
        if step.halt {
            ScanModel { tokens: Seq::empty(), errs: opt_err_seq(step.err), halted: step.err }
        } else {
            let next = if current < step.next <= src.len() {
                step.next
            } else {
                current + 1
            };
            let rest = scan_from(src, next);
            ScanModel {
                tokens: opt_token_seq(step.token) + rest.tokens,
                errs: opt_err_seq(step.err) + rest.errs,
                halted: rest.halted,
            }
        }
    }
}

/// Scanning at a position is one step and then the rest.
pub proof fn lemma_scan_step(src: Seq<char>, current: int)
    requires
        0 <= current < src.len(),
    ensures
        ({
            let step = next_token(src, current);
            let scan = scan_from(src, current);
            if step.halt {
                &&& scan.tokens == Seq::<TokenModel>::empty()
                &&& scan.errs == opt_err_seq(step.err)
                &&& scan.halted == step.err
            } else {
                let rest = scan_from(src, step.next);
                &&& scan.tokens == opt_token_seq(step.token) + rest.tokens
                &&& scan.errs == opt_err_seq(step.err) + rest.errs
                &&& scan.halted == rest.halted
            }
        }),
{
    lemma_next_token_bounds(src, current);
}

/// The end-of-file token that closes every token stream.
pub open spec fn eof_token(src: Seq<char>) -> TokenModel {
    TokenModel { t_type: TokenType::Eof, position: src.len() as int + 1, length: 0, raw: Seq::empty() }
}

/// The views of a stream of tokens.
pub open spec fn token_views(ts: Seq<Token>) -> Seq<TokenModel> {
    ts.map_values(|t: Token| t@)
}

/// Every emitted token points at its lexeme: the characters from its
/// position, as many as its length, lie in the source; a token that keeps
/// its text carries exactly the lexeme's bytes, and a literal carries its
/// decoded value, recoverable from the lexeme.
pub open spec fn token_matches_source(t: TokenModel, src: Seq<char>) -> bool {
    &&& 0 <= t.position
    &&& 0 <= t.length
    &&& t.position + t.length <= src.len()
    &&& ({
        let lexeme = src.subrange(t.position, t.position + t.length);
        if t.t_type == TokenType::IntegerType {
            t.raw == i64_to_le_payload(decode_digits_wrapping(lexeme))
        } else if t.t_type == TokenType::FloatType {
            t.raw == spec_u64_to_le_bytes(f64_bits_of_decimal(lexeme))
        } else if t.t_type == TokenType::BooleanType {
            (lexeme == "true"@ && t.raw == seq![1u8]) || (lexeme == "false"@ && t.raw == seq![0u8])
        } else if t.t_type == TokenType::StringType || t.t_type == TokenType::RegexType {
            t.raw == encode_utf8(lexeme.subrange(1, lexeme.len() - 1)) && t.length >= 2
        } else if t.t_type == TokenType::CharType {
            t.raw == encode_utf8(lexeme.subrange(1, 2)) && t.length == 3
        } else {
            t.raw == encode_utf8(lexeme)
        }
    })
}

/// One step of the lexer emits a token faithful to its lexeme.
pub proof fn lemma_next_token_faithful(src: Seq<char>, start: int)
    requires
        0 <= start < src.len(),
    ensures
        next_token(src, start).token matches Some(t) ==> token_matches_source(t, src),
{
    let step = next_token(src, start);
    let c = src[start];
    lemma_seek_bounds(src, start + 1, '"');
    lemma_seek_bounds(src, start + 1, '#');
    lemma_digit_run_bounds(src, start + 1);
    let d_end = digit_run_end(src, start + 1);
    if d_end + 1 <= src.len() {
        lemma_digit_run_bounds(src, d_end + 1);
    }
    lemma_ident_run_bounds(src, start + 1);
    if c == '"' || c == '#' {
        let delim = if c == '"' {
            '"'
        } else {
            '#'
        };
        let e = seek_char(src, start + 1, delim);
        if e < src.len() {
            let lexeme = src.subrange(start, e + 1);
            assert(lexeme.subrange(1, lexeme.len() - 1) =~= src.subrange(start + 1, e));
        }
    }
    if c == '\'' {
        if start + 2 < src.len() && src[start + 2] == '\'' {
            let lexeme = src.subrange(start, start + 3);
            assert(lexeme.subrange(1, 2) =~= src.subrange(start + 1, start + 2));
        }
    }
}

/// For every token that the lexer emits while scanning from a position,
/// the token is faithful to its lexeme in the source.
pub proof fn lemma_scan_faithful(src: Seq<char>, current: int)
    ensures
        forall|i: int|
            0 <= i < scan_from(src, current).tokens.len() ==> token_matches_source(
                #[trigger] scan_from(src, current).tokens[i],
                src,
            ),
    decreases src.len() - current,
{
    if 0 <= current < src.len() {
        let step = next_token(src, current);
        lemma_next_token_bounds(src, current);
        lemma_scan_step(src, current);
        lemma_next_token_faithful(src, current);
        if !step.halt {
            lemma_scan_faithful(src, step.next);
            let scan = scan_from(src, current);
            let rest = scan_from(src, step.next);
            assert forall|i: int| 0 <= i < scan.tokens.len() implies token_matches_source(
                #[trigger] scan.tokens[i],
                src,
            ) by {
                if i >= opt_token_seq(step.token).len() {
                    assert(scan.tokens[i] == rest.tokens[i - opt_token_seq(step.token).len()]);
                }
            }
        }
    }
}

/// Whether a character is blank: a space, a tab, a carriage return or a
/// newline.
pub open spec fn is_blank_char(c: char) -> bool {
    c == ' ' || c == '\t' || c == '\r' || c == '\n'
}

/// A source of nothing but blanks scans to nothing: no tokens, no
/// diagnostics, no halt — only the end-of-file token closes the stream.
pub proof fn lemma_blank_source_scans_empty(src: Seq<char>, current: int)
    requires
        forall|i: int| 0 <= i < src.len() ==> is_blank_char(#[trigger] src[i]),
    ensures
        scan_from(src, current).tokens == Seq::<TokenModel>::empty(),
        scan_from(src, current).errs == Seq::<ErrModel>::empty(),
        scan_from(src, current).halted is None,
    decreases src.len() - current,
{
    if 0 <= current < src.len() {
        let step = next_token(src, current);
        lemma_next_token_bounds(src, current);
        lemma_scan_step(src, current);
        assert(is_blank_char(src[current]));
        if src[current] == '\n' && current >= 1 {
            assert(is_blank_char(src[current - 1]));
        }
        lemma_blank_source_scans_empty(src, step.next);
    }
}

/// The decimal digits of a natural number decode back to it: reading the
/// rendering of any value in signed 64-bit range gives that value back.
proof fn lemma_digit_char_val(d: int)
    requires
        0 <= d < 10,
    ensures
        digit_val(crate::strutil::digit_char(d)) == d,
{
    assert('0' as u32 == 48);
    assert('1' as u32 == 49);
    assert('2' as u32 == 50);
    assert('3' as u32 == 51);
    assert('4' as u32 == 52);
    assert('5' as u32 == 53);
    assert('6' as u32 == 54);
    assert('7' as u32 == 55);
    assert('8' as u32 == 56);
    assert('9' as u32 == 57);
}

pub proof fn lemma_decimal_roundtrip(n: i64)
    requires
        n >= 0,
    ensures
        decode_digits_wrapping(crate::strutil::dec_chars_of(n as int)) == n,
    decreases n,
{
    let s = crate::strutil::dec_chars_of(n as int);
    if n < 10 {
        lemma_digit_char_val(n as int);
        assert(s =~= seq![crate::strutil::digit_char(n as int)]);
        assert(s.drop_last() =~= Seq::<char>::empty());
        assert(decode_digits_wrapping(s.drop_last()) == 0i64);
        assert(digit_val(s.last()) == n as int);
        assert(i64_specs::wrapping_mul(0i64, 10) == 0i64);
        assert(decode_digits_wrapping(s) == i64_specs::wrapping_add(
            0i64,
            digit_val(s.last()) as i64,
        ));
        assert(i64_specs::wrapping_add(0i64, digit_val(s.last()) as i64) == n);
    } else {
        let m: i64 = (n as int / 10) as i64;
        lemma_decimal_roundtrip(m);
        assert(s.drop_last() =~= crate::strutil::dec_chars_of(n as int / 10));
        lemma_digit_char_val(n as int % 10);
        assert(s.last() == crate::strutil::digit_char(n as int % 10));
        assert(digit_val(s.last()) == n as int % 10);
        assert(0 <= m <= 0xccc_cccc_cccc_cccc) by {
            assert(n as int / 10 <= i64::MAX / 10);
        }
        assert(i64_specs::wrapping_mul(m, 10) == m * 10) by {
            assert(m * 10 <= 0xccc_cccc_cccc_cccc * 10) by (nonlinear_arith)
                requires 0 <= m <= 0xccc_cccc_cccc_cccc;
            assert(m * 10 >= 0) by (nonlinear_arith)
                requires m >= 0;
        }
        vstd::arithmetic::div_mod::lemma_fundamental_div_mod(n as int, 10);
        assert(m * 10 + n % 10 == n as int);
        let mul = i64_specs::wrapping_mul(m, 10);
        let d: i64 = digit_val(s.last()) as i64;
        assert(d == n % 10);
        assert(mul as int == m * 10);
        assert(decode_digits_wrapping(s) == i64_specs::wrapping_add(mul, d));
        assert(i64_specs::wrapping_add(mul, d) == n);
    }
}

/// A run of identifier characters ending the source runs to its end.
proof fn lemma_ident_run_all(src: Seq<char>, i: int)
    requires
        0 <= i <= src.len(),
        forall|j: int| i <= j < src.len() ==> is_ident_char(#[trigger] src[j]),
    ensures
        ident_run_end(src, i) == src.len(),
    decreases src.len() - i,
{
    if i < src.len() {
        lemma_ident_run_all(src, i + 1);
    }
}

/// Lexing a rendered identifier or keyword gives back a token of the same
/// kind: a source that is exactly one identifier-shaped word scans to one
/// token, labelled as the keyword table says, followed by nothing.
#[verifier::rlimit(100)]
#[verifier::spinoff_prover]
pub proof fn lemma_word_roundtrip(src: Seq<char>)
    requires
        src.len() > 0,
        is_letter_char(src[0]) || src[0] == '_',
        forall|j: int| 0 <= j < src.len() ==> is_ident_char(#[trigger] src[j]),
    ensures
        ({
            let scan = scan_from(src, 0);
            &&& scan.halted is None
            &&& scan.errs == Seq::<ErrModel>::empty()
            &&& scan.tokens.len() == 1
            &&& scan.tokens[0].t_type == (if src == "true"@ || src == "false"@ {
                TokenType::BooleanType
            } else {
                keyword_type(src)
            })
            &&& scan.tokens[0].position == 0
            &&& scan.tokens[0].length == src.len()
        }),
{
    let c = src[0];
    assert(is_ident_char(c));
    assert(!is_digit_char(c) ==> is_letter_char(c) || c == '_');
    lemma_ident_run_all(src, 1);
    let step = next_token(src, 0);
    lemma_next_token_bounds(src, 0);
    lemma_scan_step(src, 0);
    assert(src.subrange(0, src.len() as int) =~= src);
    assert(step.next == src.len());
    assert(scan_from(src, step.next).tokens == Seq::<TokenModel>::empty());
    assert(scan_from(src, 0).tokens =~= opt_token_seq(step.token));
    assert(scan_from(src, 0).errs =~= opt_err_seq(step.err));
}


proof fn lemma_seek_none(src: Seq<char>, i: int, target: char)
    requires
        0 <= i <= src.len(),
        forall|j: int| i <= j < src.len() ==> src[j] != target,
    ensures
        seek_char(src, i, target) == src.len(),
    decreases src.len() - i,
{
    if i < src.len() {
        lemma_seek_none(src, i + 1, target);
    }
}

/// A source that opens a string and never closes it halts the lexer with a
/// syntax error that points at the opening quote.
pub proof fn lemma_unterminated_string_halts(src: Seq<char>)
    requires
        src.len() > 0,
        src[0] == '"',
        forall|j: int| 1 <= j < src.len() ==> src[j] != '"',
    ensures
        scan_from(src, 0).halted == Some(
            ErrModel {
                e_type: ErrorType::SyntaxError,
                position: 0,
                message: "Unterminated string detected"@,
            },
        ),
{
    lemma_seek_none(src, 1, '"');
}

proof fn lemma_digit_run_all(src: Seq<char>, i: int)
    requires
        0 <= i <= src.len(),
        forall|j: int| i <= j < src.len() ==> is_digit_char(#[trigger] src[j]),
    ensures
        digit_run_end(src, i) == src.len(),
    decreases src.len() - i,
{
    if i < src.len() {
        lemma_digit_run_all(src, i + 1);
    }
}

/// Lexing a run of digits gives one integer token: its payload carries the
/// wrapped decoding of the digits, and nothing else is emitted.
#[verifier::rlimit(100)]
#[verifier::spinoff_prover]
pub proof fn lemma_digits_roundtrip(src: Seq<char>)
    requires
        src.len() > 0,
        forall|j: int| 0 <= j < src.len() ==> is_digit_char(#[trigger] src[j]),
    ensures
        ({
            let scan = scan_from(src, 0);
            &&& scan.halted is None
            &&& scan.errs == Seq::<ErrModel>::empty()
            &&& scan.tokens.len() == 1
            &&& scan.tokens[0].t_type == TokenType::IntegerType
            &&& scan.tokens[0].position == 0
            &&& scan.tokens[0].length == src.len()
            &&& scan.tokens[0].raw == i64_to_le_payload(decode_digits_wrapping(src))
        }),
{
    let c = src[0];
    assert(is_digit_char(c));
    lemma_digit_run_all(src, 1);
    let step = next_token(src, 0);
    lemma_next_token_bounds(src, 0);
    lemma_scan_step(src, 0);
    assert(src.subrange(0, src.len() as int) =~= src);
    assert(step.next == src.len());
    assert(scan_from(src, step.next).tokens == Seq::<TokenModel>::empty());
    assert(scan_from(src, 0).tokens =~= opt_token_seq(step.token));
    assert(scan_from(src, 0).errs =~= opt_err_seq(step.err));
}

pub(crate) proof fn lemma_dec_chars_are_digits(n: int)
    requires
        0 <= n,
    ensures
        forall|j: int|
            0 <= j < crate::strutil::dec_chars_of(n).len() ==> is_digit_char(
                #[trigger] crate::strutil::dec_chars_of(n)[j],
            ),
    decreases n,
{
    let s = crate::strutil::dec_chars_of(n);
    lemma_digit_char_val(n % 10);
    if n < 10 {
        lemma_digit_char_val(n);
        assert(s =~= seq![crate::strutil::digit_char(n)]);
        assert(digit_val(s[0]) == n);
    } else {
        lemma_dec_chars_are_digits(n / 10);
        let prev = crate::strutil::dec_chars_of(n / 10);
        assert forall|j: int| 0 <= j < s.len() implies is_digit_char(#[trigger] s[j]) by {
            if j < prev.len() {
                assert(s[j] == prev[j]);
            } else {
                assert(s[j] == crate::strutil::digit_char(n % 10));
                assert(digit_val(s[j]) == n % 10);
            }
        }
    }
}

/// Lexing the decimal rendering of any nonnegative signed 64-bit value
/// gives one integer token whose payload reads back as exactly that value.
pub proof fn lemma_decimal_literal_token(n: i64)
    requires
        n >= 0,
    ensures
        ({
            let src = crate::strutil::dec_chars_of(n as int);
            let scan = scan_from(src, 0);
            &&& scan.halted is None
            &&& scan.tokens.len() == 1
            &&& scan.tokens[0].t_type == TokenType::IntegerType
            &&& crate::tokens::i64_from_le_payload(scan.tokens[0].raw) == n as int
        }),
{
    let src = crate::strutil::dec_chars_of(n as int);
    crate::strutil::lemma_dec_len_pos(n as int);
    lemma_dec_chars_are_digits(n as int);
    lemma_digits_roundtrip(src);
    lemma_decimal_roundtrip(n);
    crate::tokens::lemma_i64_payload_roundtrip(n);
}

/// The token kind that a lone character lexes to, where one character is a
/// whole lexeme on its own.
pub open spec fn single_char_kind(c: char) -> Option<TokenType> {
    if c == '(' {
        Some(TokenType::LeftParen)
    } else if c == ')' {
        Some(TokenType::RightParen)
    } else if c == '{' {
        Some(TokenType::LeftCurlyParen)
    } else if c == '}' {
        Some(TokenType::RightCurlyParen)
    } else if c == '[' {
        Some(TokenType::LeftSquareParen)
    } else if c == ']' {
        Some(TokenType::RightSquareParen)
    } else if c == ',' {
        Some(TokenType::Comma)
    } else if c == '.' {
        Some(TokenType::Dot)
    } else if c == '+' {
        Some(TokenType::Plus)
    } else if c == '-' {
        Some(TokenType::Minus)
    } else if c == '*' {
        Some(TokenType::Asterisk)
    } else if c == '|' {
        Some(TokenType::Pipe)
    } else if c == '&' {
        Some(TokenType::AndSym)
    } else if c == '^' {
        Some(TokenType::Roof)
    } else if c == '%' {
        Some(TokenType::Percent)
    } else if c == '!' {
        Some(TokenType::Exclamation)
    } else if c == '=' {
        Some(TokenType::Equal)
    } else if c == ':' {
        Some(TokenType::Colon)
    } else if c == '>' {
        Some(TokenType::Greater)
    } else if c == '<' {
        Some(TokenType::Lesser)
    } else if c == '/' {
        Some(TokenType::Slash)
    } else {
        None
    }
}

/// Lexing the rendered lexeme of a punctuation token gives back a token of
/// the same kind: a one-character source of punctuation scans to exactly
/// one token of that kind.
pub proof fn lemma_punctuation_roundtrip(c: char)
    requires
        single_char_kind(c) is Some,
    ensures
        ({
            let src = seq![c];
            let scan = scan_from(src, 0);
            &&& scan.halted is None
            &&& scan.errs == Seq::<ErrModel>::empty()
            &&& scan.tokens.len() == 1
            &&& scan.tokens[0].t_type == single_char_kind(c)->0
            &&& scan.tokens[0].position == 0
            &&& scan.tokens[0].length == 1
        }),
{
    let src = seq![c];
    let step = next_token(src, 0);
    lemma_next_token_bounds(src, 0);
    lemma_scan_step(src, 0);
    assert(step.next == 1);
    assert(scan_from(src, 1).tokens == Seq::<TokenModel>::empty());
    assert(scan_from(src, 0).tokens =~= opt_token_seq(step.token));
    assert(scan_from(src, 0).errs =~= opt_err_seq(step.err));
}

/// The token kind that a pair of characters lexes to, where the pair is a
/// whole two-character operator.
pub open spec fn double_char_kind(c1: char, c2: char) -> Option<TokenType> {
    if c1 == '!' && c2 == '=' {
        Some(TokenType::ExclamationEqual)
    } else if c1 == '=' && c2 == '=' {
        Some(TokenType::EqualEqual)
    } else if c1 == ':' && c2 == ':' {
        Some(TokenType::ColonColon)
    } else if c1 == '>' && c2 == '=' {
        Some(TokenType::GreaterEqual)
    } else if c1 == '>' && c2 == '>' {
        Some(TokenType::GreaterGreater)
    } else if c1 == '<' && c2 == '=' {
        Some(TokenType::LesserEqual)
    } else if c1 == '<' && c2 == '<' {
        Some(TokenType::LesserLesser)
    } else {
        None
    }
}

/// Lexing the rendered lexeme of a two-character operator gives back a
/// token of the same kind, and nothing else.
pub proof fn lemma_double_punctuation_roundtrip(c1: char, c2: char)
    requires
        double_char_kind(c1, c2) is Some,
    ensures
        ({
            let src = seq![c1, c2];
            let scan = scan_from(src, 0);
            &&& scan.halted is None
            &&& scan.errs == Seq::<ErrModel>::empty()
            &&& scan.tokens.len() == 1
            &&& scan.tokens[0].t_type == double_char_kind(c1, c2)->0
            &&& scan.tokens[0].position == 0
            &&& scan.tokens[0].length == 2
        }),
{
    let src = seq![c1, c2];
    let step = next_token(src, 0);
    lemma_next_token_bounds(src, 0);
    lemma_scan_step(src, 0);
    assert(step.next == 2);
    assert(scan_from(src, 2).tokens == Seq::<TokenModel>::empty());
    assert(scan_from(src, 0).tokens =~= opt_token_seq(step.token));
    assert(scan_from(src, 0).errs =~= opt_err_seq(step.err));
}

/// The lexer that will generate tokens from a source string
pub struct Lexer {
    source: String,
    chars: Vec<char>,
    tokens: Vec<Token>,
    current: usize,
    errors: Vec<ShorkError>,
}

impl Lexer {
    /// The source, as the sequence of its characters.
    pub closed spec fn src(&self) -> Seq<char> {
        self.source@
    }

    pub closed spec fn wf(&self) -> bool {
        &&& self.chars@ == self.source@
        &&& self.current <= self.source@.len()
    }

    /// Where the next scan starts.
    pub closed spec fn cursor(&self) -> int {
        self.current as int
    }

    pub closed spec fn tokens_model(&self) -> Seq<TokenModel> {
        token_views(self.tokens@)
    }

    pub closed spec fn errors_model(&self) -> Seq<ShorkError> {
        self.errors@
    }

    /// create a new Lexer with a source string
    pub fn new(source: String) -> (l: Lexer)
        ensures
            l.wf(),
            l.src() == source@,
            l.cursor() == 0,
            l.tokens_model() == Seq::<TokenModel>::empty(),
            l.errors_model() == Seq::<ShorkError>::empty(),
    {
        let chars = string_chars(source.as_str());
        Lexer { source, chars, tokens: Vec::new(), current: 0, errors: Vec::new() }
    }

    /// get the tokens (call after scan_tokens)
    pub fn get_tokens(&self) -> (r: &Vec<Token>)
        ensures
            token_views(r@) == self.tokens_model(),
    {
        &self.tokens
    }

    /// get the diagnostics that scanning produced
    pub fn get_errors(&self) -> (r: &Vec<ShorkError>)
        ensures
            r@ == self.errors_model(),
    {
        &self.errors
    }

    /// scan for all tokens in the source and populate the tokens vector
    ///
    /// Scanning follows `scan_from`: it emits the tokens of the source,
    /// records a diagnostic for every lexical problem, stops at the first
    /// hard error and returns it, and otherwise closes the stream with an
    /// end-of-file token.
    #[verifier::rlimit(100)]
    #[verifier::spinoff_prover]
    pub fn scan_tokens(&mut self) -> (r: Result<(), ShorkError>)
        requires
            old(self).wf(),
            old(self).cursor() == 0,
            old(self).tokens_model() == Seq::<TokenModel>::empty(),
            old(self).errors_model() == Seq::<ShorkError>::empty(),
            old(self).src().len() < usize::MAX,
        ensures
            final(self).wf(),
            final(self).src() == old(self).src(),
            ({
                let scan = scan_from(old(self).src(), 0);
                &&& (r is Ok <==> scan.halted is None)
                &&& errs_match(final(self).errors_model(), scan.errs, old(self).src())
                &&& (r is Ok ==> final(self).tokens_model() == scan.tokens.push(
                    eof_token(old(self).src()),
                ))
                &&& (r matches Err(e) ==> scan.halted matches Some(m) && matches_err(
                    e,
                    m,
                    old(self).src(),
                ) && final(self).tokens_model() == scan.tokens)
            }),
    {
        let ghost src = self.src();
        let n = self.chars.len();
        while self.current < n
            invariant
                self.wf(),
                self.src() == src,
                src == old(self).src(),
                n == src.len(),
                ({
                    let whole = scan_from(src, 0);
                    let rest = scan_from(src, self.current as int);
                    let k = self.errors@.len() as int;
                    &&& whole.tokens == self.tokens_model() + rest.tokens
                    &&& whole.errs.len() >= k
                    &&& errs_match(self.errors@, whole.errs.take(k), src)
                    &&& whole.errs.skip(k) == rest.errs
                    &&& whole.halted == rest.halted
                }),
            decreases n - self.current,
        {
            let ghost cur0 = self.current as int;
            let ghost k = self.errors@.len() as int;
            let ghost whole = scan_from(src, 0);
            let ghost rest = scan_from(src, cur0);
            let ghost step = next_token(src, cur0);
            proof {
                lemma_next_token_bounds(src, cur0);
                lemma_scan_step(src, cur0);
            }
            let ghost tokens0 = self.tokens_model();
            let ghost errors0 = self.errors@;
            let step_res = self.get_current_token();
            match step_res {
                Ok(opt) => {
                    match opt {
                        Some(t) => {
                            self.tokens.push(t);
                            proof {
                                assert(self.tokens_model() =~= tokens0 + opt_token_seq(step.token));
                            }
                        },
                        None => {
                            proof {
                                assert(self.tokens_model() =~= tokens0 + opt_token_seq(step.token));
                            }
                        },
                    }
                    proof {
                        let rest2 = scan_from(src, step.next);
                        assert(whole.tokens =~= self.tokens_model() + rest2.tokens);
                        match step.err {
                            Some(m) => {
                                assert(rest.errs[0] == m);
                                assert(whole.errs.skip(k)[0] == whole.errs[k]);
                                assert(whole.errs.len() >= k + 1);
                                assert forall|i: int| 0 <= i < k + 1 implies matches_err(
                                    #[trigger] self.errors@[i],
                                    whole.errs.take(k + 1)[i],
                                    src,
                                ) by {
                                    if i < k {
                                        assert(self.errors@[i] == self.errors@.take(k)[i]);
                                        assert(self.errors@.take(k) == errors0);
                                        assert(whole.errs.take(k + 1)[i] == whole.errs.take(k)[i]);
                                        assert(matches_err(errors0[i], whole.errs.take(k)[i], src));
                                    } else {
                                        assert(self.errors@[i] == self.errors@.last());
                                        assert(whole.errs.take(k + 1)[i] == whole.errs[k]);
                                    }
                                }
                                assert(errs_match(self.errors@, whole.errs.take(k + 1), src));
                                assert(whole.errs.skip(k + 1) =~= rest.errs.skip(1));
                                assert(rest.errs.skip(1) =~= rest2.errs);
                            },
                            None => {
                                assert(rest.errs =~= rest2.errs);
                            },
                        }
                    }
                },
                Err(e) => {
                    proof {
                        assert(step.halt);
                        assert(rest.errs == opt_err_seq(step.err));
                        assert(rest.tokens == Seq::<TokenModel>::empty());
                        assert(whole.tokens =~= self.tokens_model());
                        assert(whole.errs.skip(k)[0] == whole.errs[k]);
                        assert(whole.errs.len() == k + 1);
                        assert(self.errors@ == errors0.push(e));
                        assert forall|i: int| 0 <= i < k + 1 implies matches_err(
                            #[trigger] self.errors@[i],
                            whole.errs.take(k + 1)[i],
                            src,
                        ) by {
                            if i < k {
                                assert(self.errors@[i] == errors0[i]);
                                assert(whole.errs.take(k + 1)[i] == whole.errs.take(k)[i]);
                                assert(matches_err(errors0[i], whole.errs.take(k)[i], src));
                            } else {
                                assert(self.errors@[i] == e);
                                assert(whole.errs.take(k + 1)[i] == whole.errs[k]);
                            }
                        }
                        assert(errs_match(self.errors@, whole.errs.take(k + 1), src));
                        assert(whole.errs.take(k + 1) =~= whole.errs);
                    }
                    return Err(e);
                },
            }
        }
        proof {
            let whole = scan_from(src, 0);
            let k = self.errors@.len() as int;
            assert(scan_from(src, self.current as int).errs == Seq::<ErrModel>::empty());
            assert(whole.errs.skip(k).len() == 0);
            assert(whole.errs.take(k) =~= whole.errs);
            assert(whole.tokens =~= self.tokens_model());
        }
        let eof = Token::new(TokenType::Eof, self.current + 1, 0, Vec::new());
        let ghost tokens0 = self.tokens_model();
        self.tokens.push(eof);
        proof {
            assert(eof@.raw =~= eof_token(src).raw);
            assert(self.tokens_model() =~= tokens0.push(eof_token(src)));
        }
        Ok(())
    }

    /// check if the character at the head matches the prediction
    fn does_match(&self, ch_c: char) -> (r: bool)
        requires
            self.wf(),
        ensures
            r == (self.current < self.src().len() && self.src()[self.current as int] == ch_c),
    {
        if self.current >= self.chars.len() {
            return false;
        }
        self.chars[self.current] == ch_c
    }

    /// a token labelled with the source text from `start` to the head
    fn make_lexeme_token(&self, t: TokenType, start: usize) -> (tok: Token)
        requires
            self.wf(),
            start <= self.current,
        ensures
            tok@ == lexeme_token(self.src(), t, start as int, self.current as int),
    {
        let s = self.source.as_str().substring_char(start, self.current);
        let raw = s.as_bytes_vec();
        Token::new(t, start, self.current - start, raw)
    }

    /// the index of the first occurrence of `target` at or after `from`,
    /// or the end of the source
    fn seek_to(&self, from: usize, target: char) -> (e: usize)
        requires
            self.wf(),
            from <= self.src().len(),
        ensures
            e as int == seek_char(self.src(), from as int, target),
            from <= e <= self.src().len(),
            e < self.src().len() ==> self.src()[e as int] == target,
    {
        let n = self.chars.len();
        let mut j: usize = from;
        while j < n
            invariant
                from <= j <= n,
                self.wf(),
                n == self.src().len(),
                seek_char(self.src(), from as int, target) == seek_char(self.src(), j as int, target),
            decreases n - j,
        {
            if self.chars[j] == target {
                return j;
            }
            j = j + 1;
        }
        n
    }

    /// the index just past the run of digits that starts at `from`
    fn digit_run(&self, from: usize) -> (e: usize)
        requires
            self.wf(),
            from <= self.src().len(),
        ensures
            e as int == digit_run_end(self.src(), from as int),
            from <= e <= self.src().len(),
            forall|i: int| from <= i < e ==> is_digit_char(#[trigger] self.src()[i]),
    {
        let n = self.chars.len();
        let mut j: usize = from;
        while j < n
            invariant
                from <= j <= n,
                self.wf(),
                n == self.src().len(),
                digit_run_end(self.src(), from as int) == digit_run_end(self.src(), j as int),
                forall|i: int| from <= i < j ==> is_digit_char(#[trigger] self.src()[i]),
            decreases n - j,
        {
            let c = self.chars[j];
            let u = c as u32;
            if !(48 <= u && u <= 57) {
                return j;
            }
            j = j + 1;
        }
        n
    }

    /// the index just past the run of identifier characters starting at `from`
    fn ident_run(&self, from: usize) -> (e: usize)
        requires
            self.wf(),
            from <= self.src().len(),
        ensures
            e as int == ident_run_end(self.src(), from as int),
            from <= e <= self.src().len(),
    {
        let n = self.chars.len();
        let mut j: usize = from;
        while j < n
            invariant
                from <= j <= n,
                self.wf(),
                n == self.src().len(),
                ident_run_end(self.src(), from as int) == ident_run_end(self.src(), j as int),
            decreases n - j,
        {
            let c = self.chars[j];
            let u = c as u32;
            let ident = (65 <= u && u <= 90) || (97 <= u && u <= 122) || (48 <= u && u <= 57) || c
                == '_';
            if !ident {
                return j;
            }
            j = j + 1;
        }
        n
    }

    /// the wrapped signed 64-bit value of the digits from `from` to `to`
    fn decode_digits(&self, from: usize, to: usize) -> (v: i64)
        requires
            self.wf(),
            from <= to <= self.src().len(),
            forall|i: int| from <= i < to ==> is_digit_char(#[trigger] self.src()[i]),
        ensures
            v == decode_digits_wrapping(self.src().subrange(from as int, to as int)),
    {
        let mut acc: i64 = 0;
        let mut j: usize = from;
        proof {
            assert(self.src().subrange(from as int, from as int) =~= Seq::<char>::empty());
        }
        while j < to
            invariant
                from <= j <= to <= self.src().len(),
                self.wf(),
                forall|i: int| from <= i < to ==> is_digit_char(#[trigger] self.src()[i]),
                acc == decode_digits_wrapping(self.src().subrange(from as int, j as int)),
            decreases to - j,
        {
            let c = self.chars[j];
            let u = c as u32;
            proof {
                assert(is_digit_char(self.src()[j as int]));
            }
            let d = (u - 48) as i64;
            acc = acc.wrapping_mul(10).wrapping_add(d);
            j = j + 1;
            proof {
                let sub = self.src().subrange(from as int, j as int);
                assert(sub.drop_last() =~= self.src().subrange(from as int, j as int - 1));
                assert(sub.last() == self.src()[j as int - 1]);
            }
        }
        proof {
            assert(self.src().subrange(from as int, j as int) =~= self.src().subrange(
                from as int,
                to as int,
            ));
        }
        acc
    }

    /// record a diagnostic and hand it back
    fn report(&mut self, e_type: ErrorType, position: usize, message: String) -> (e: ShorkError)
        requires
            old(self).wf(),
        ensures
            final(self).wf(),
            final(self).src() == old(self).src(),
            final(self).tokens == old(self).tokens,
            final(self).current == old(self).current,
            matches_err(
                e,
                ErrModel { e_type, position: position as int, message: message@ },
                old(self).src(),
            ),
            final(self).errors@ == old(self).errors@.push(e),
    {
        let err = ShorkError::generate_error(e_type, position, self.source.clone(), message);
        let e2 = err.clone();
        self.errors.push(err);
        e2
    }

    /// get the current token
    fn get_current_token(&mut self) -> (r: Result<Option<Token>, ShorkError>)
        requires
            old(self).wf(),
            old(self).current < old(self).src().len(),
        ensures
            final(self).wf(),
            final(self).src() == old(self).src(),
            final(self).tokens == old(self).tokens,
            ({
                let step = next_token(old(self).src(), old(self).current as int);
                match r {
                    Ok(opt) => {
                        &&& !step.halt
                        &&& final(self).current as int == step.next
                        &&& (match opt {
                            Some(t) => step.token == Some(t@),
                            None => step.token is None,
                        })
                        &&& (match step.err {
                            Some(m) => final(self).errors@.len() == old(self).errors@.len() + 1
                                && final(self).errors@.take(old(self).errors@.len() as int) == old(
                                self,
                            ).errors@ && matches_err(
                                final(self).errors@.last(),
                                m,
                                old(self).src(),
                            ),
                            None => final(self).errors@ == old(self).errors@,
                        })
                    },
                    Err(e) => {
                        &&& step.halt
                        &&& step.err matches Some(m) && matches_err(e, m, old(self).src())
                        &&& final(self).errors@ == old(self).errors@.push(e)
                    },
                }
            }),
    {
        let ghost src = self.src();
        let start = self.current;
        let n = self.chars.len();
        let c = self.chars[start];
        self.current = start + 1;

        if c == '(' {
            Ok(Some(self.make_lexeme_token(TokenType::LeftParen, start)))
        } else if c == ')' {
            Ok(Some(self.make_lexeme_token(TokenType::RightParen, start)))
        } else if c == '{' {
            Ok(Some(self.make_lexeme_token(TokenType::LeftCurlyParen, start)))
        } else if c == '}' {
            Ok(Some(self.make_lexeme_token(TokenType::RightCurlyParen, start)))
        } else if c == '[' {
            Ok(Some(self.make_lexeme_token(TokenType::LeftSquareParen, start)))
        } else if c == ']' {
            Ok(Some(self.make_lexeme_token(TokenType::RightSquareParen, start)))
        } else if c == ',' {
            Ok(Some(self.make_lexeme_token(TokenType::Comma, start)))
        } else if c == '.' {
            Ok(Some(self.make_lexeme_token(TokenType::Dot, start)))
        } else if c == '+' {
            Ok(Some(self.make_lexeme_token(TokenType::Plus, start)))
        } else if c == '-' {
            Ok(Some(self.make_lexeme_token(TokenType::Minus, start)))
        } else if c == '*' {
            Ok(Some(self.make_lexeme_token(TokenType::Asterisk, start)))
        } else if c == '|' {
            Ok(Some(self.make_lexeme_token(TokenType::Pipe, start)))
        } else if c == '&' {
            Ok(Some(self.make_lexeme_token(TokenType::AndSym, start)))
        } else if c == '^' {
            Ok(Some(self.make_lexeme_token(TokenType::Roof, start)))
        } else if c == '%' {
            Ok(Some(self.make_lexeme_token(TokenType::Percent, start)))
        } else if c == '!' {
            if self.does_match('=') {
                self.current = self.current + 1;
                Ok(Some(self.make_lexeme_token(TokenType::ExclamationEqual, start)))
            } else {
                Ok(Some(self.make_lexeme_token(TokenType::Exclamation, start)))
            }
        } else if c == '=' {
            if self.does_match('=') {
                self.current = self.current + 1;
                Ok(Some(self.make_lexeme_token(TokenType::EqualEqual, start)))
            } else {
                Ok(Some(self.make_lexeme_token(TokenType::Equal, start)))
            }
        } else if c == ':' {
            if self.does_match(':') {
                self.current = self.current + 1;
                Ok(Some(self.make_lexeme_token(TokenType::ColonColon, start)))
            } else {
                Ok(Some(self.make_lexeme_token(TokenType::Colon, start)))
            }
        } else if c == '>' {
            if self.does_match('=') {
                self.current = self.current + 1;
                Ok(Some(self.make_lexeme_token(TokenType::GreaterEqual, start)))
            } else if self.does_match('>') {
                self.current = self.current + 1;
                Ok(Some(self.make_lexeme_token(TokenType::GreaterGreater, start)))
            } else {
                Ok(Some(self.make_lexeme_token(TokenType::Greater, start)))
            }
        } else if c == '<' {
            if self.does_match('=') {
                self.current = self.current + 1;
                Ok(Some(self.make_lexeme_token(TokenType::LesserEqual, start)))
            } else if self.does_match('<') {
                self.current = self.current + 1;
                Ok(Some(self.make_lexeme_token(TokenType::LesserLesser, start)))
            } else {
                Ok(Some(self.make_lexeme_token(TokenType::Lesser, start)))
            }
        } else if c == '/' {
            if self.does_match('/') {
                // it's a comment, consume it
                let e = self.seek_to(self.current, '\n');
                self.current = e;
                Ok(None)
            } else {
                Ok(Some(self.make_lexeme_token(TokenType::Slash, start)))
            }
        } else if c == '"' {
            self.delimited(start, '"', TokenType::StringType)
        } else if c == '#' {
            self.delimited(start, '#', TokenType::RegexType)
        } else if c == '\'' {
            self.char_literal(start)
        } else if c == '\n' {
            // since a new line can indicate the end of a statement,
            // we have to define when it is important
            let behind = if self.current >= 2 {
                self.chars[self.current - 2]
            } else {
                '\0'
            };
            let u = behind as u32;
            let important = (65 <= u && u <= 90) || (97 <= u && u <= 122) || (48 <= u && u <= 57)
                || behind == ']' || behind == ')' || behind == '_' || behind == '#';
            if important {
                Ok(Some(self.make_lexeme_token(TokenType::NewLine, start)))
            } else {
                Ok(None)
            }
        } else if c == ' ' || c == '\r' || c == '\t' {
            Ok(None)
        } else {
            let u = c as u32;
            if 48 <= u && u <= 57 {
                Ok(Some(self.number(start)))
            } else if (65 <= u && u <= 90) || (97 <= u && u <= 122) || c == '_' {
                Ok(Some(self.identifier(start)))
            } else {
                let mut msg_chars: Vec<char> = Vec::new();
                push_str_chars(&mut msg_chars, "Unexpected Symbol '");
                msg_chars.push(c);
                push_str_chars(&mut msg_chars, "'.");
                let msg = chars_to_string(&msg_chars);
                proof {
                    assert(msg@ =~= "Unexpected Symbol '"@ + seq![c] + "'."@);
                }
                let position = self.current;
                self.report(ErrorType::LexicalError, position, msg);
                Ok(None)
            }
        }
    }

    /// a string- or regex-like literal; the head stands right after the
    /// opening delimiter
    fn delimited(&mut self, start: usize, delim: char, t: TokenType) -> (r: Result<
        Option<Token>,
        ShorkError,
    >)
        requires
            old(self).wf(),
            old(self).current == start + 1,
            start < old(self).src().len(),
            delim == '"' || delim == '#',
        ensures
            final(self).wf(),
            final(self).src() == old(self).src(),
            final(self).tokens == old(self).tokens,
            ({
                let step = delimited_step(
                    old(self).src(),
                    start as int,
                    delim,
                    t,
                    if delim == '"' {
                        "Unterminated string detected"@
                    } else {
                        "Unterminated regex detected"@
                    },
                );
                match r {
                    Ok(opt) => {
                        &&& !step.halt
                        &&& final(self).current as int == step.next
                        &&& (match opt {
                            Some(tok) => step.token == Some(tok@),
                            None => step.token is None,
                        })
                        &&& final(self).errors@ == old(self).errors@
                    },
                    Err(e) => {
                        &&& step.halt
                        &&& step.err matches Some(m) && matches_err(e, m, old(self).src())
                        &&& final(self).errors@ == old(self).errors@.push(e)
                    },
                }
            }),
    {
        let n = self.chars.len();
        let e = self.seek_to(self.current, delim);
        if e >= n {
            let msg = if delim == '"' {
                String::from_str("Unterminated string detected")
            } else {
                String::from_str("Unterminated regex detected")
            };
            let err = self.report(ErrorType::SyntaxError, start, msg);
            Err(err)
        } else {
            self.current = e + 1;
            let s = self.source.as_str().substring_char(start + 1, e);
            let raw = s.as_bytes_vec();
            let tok = Token::new(t, start, self.current - start, raw);
            Ok(Some(tok))
        }
    }

    /// a character literal; the head stands right after the opening quote
    fn char_literal(&mut self, start: usize) -> (r: Result<Option<Token>, ShorkError>)
        requires
            old(self).wf(),
            old(self).current == start + 1,
            start < old(self).src().len(),
        ensures
            final(self).wf(),
            final(self).src() == old(self).src(),
            final(self).tokens == old(self).tokens,
            ({
                let step = char_step(old(self).src(), start as int);
                match r {
                    Ok(opt) => {
                        &&& !step.halt
                        &&& final(self).current as int == step.next
                        &&& (match opt {
                            Some(tok) => step.token == Some(tok@),
                            None => step.token is None,
                        })
                        &&& final(self).errors@ == old(self).errors@
                    },
                    Err(e) => {
                        &&& step.halt
                        &&& step.err matches Some(m) && matches_err(e, m, old(self).src())
                        &&& final(self).errors@ == old(self).errors@.push(e)
                    },
                }
            }),
    {
        let n = self.chars.len();
        if self.current >= n {
            let msg = String::from_str("Couldn't read character at position");
            let position = self.current;
            let err = self.report(ErrorType::ReadingError, position, msg);
            return Err(err);
        }
        self.current = self.current + 1;
        if self.current < n && self.chars[self.current] == '\'' {
            self.current = self.current + 1;
            let s = self.source.as_str().substring_char(start + 1, start + 2);
            let raw = s.as_bytes_vec();
            let tok = Token::new(TokenType::CharType, start, 3, raw);
            Ok(Some(tok))
        } else if self.current >= n {
            let msg = String::from_str("Couldn't read character at position");
            let position = self.current;
            let err = self.report(ErrorType::ReadingError, position, msg);
            Err(err)
        } else {
            let msg = String::from_str(
                "To many symbols detected. A character type variable can only contain one symbol",
            );
            let position = self.current;
            let err = self.report(ErrorType::TypeError, position, msg);
            Err(err)
        }
    }

    /// a number; the head stands right after its first digit
    fn number(&mut self, start: usize) -> (tok: Token)
        requires
            old(self).wf(),
            old(self).current == start + 1,
            start < old(self).src().len(),
            is_digit_char(old(self).src()[start as int]),
        ensures
            final(self).wf(),
            final(self).src() == old(self).src(),
            final(self).tokens == old(self).tokens,
            final(self).errors == old(self).errors,
            ({
                let step = number_step(old(self).src(), start as int);
                &&& final(self).current as int == step.next
                &&& step.token == Some(tok@)
            }),
    {
        let ghost src = self.src();
        let n = self.chars.len();
        let d_end = self.digit_run(self.current);
        let is_float = d_end < n && self.chars[d_end] == '.' && d_end + 1 < n && {
            let u = self.chars[d_end + 1] as u32;
            48 <= u && u <= 57
        };
        if is_float {
            let f_end = self.digit_run(d_end + 1);
            self.current = f_end;
            let s = self.source.as_str().substring_char(start, f_end);
            proof {
                lemma_digit_run_bounds(src, d_end as int + 2);
                assert(digit_run_end(src, d_end as int + 1) == digit_run_end(src, d_end as int + 2));
                let sub = src.subrange(start as int, f_end as int);
                let k = d_end - start;
                assert(sub[k as int] == '.');
                assert forall|i: int| 0 <= i < k implies is_digit_char(#[trigger] sub[i]) by {
                    assert(sub[i] == src[start as int + i]);
                }
                assert forall|i: int| k < i < sub.len() implies is_digit_char(
                    #[trigger] sub[i],
                ) by {
                    assert(sub[i] == src[start as int + i]);
                }
                assert(0 < k < sub.len() - 1);
                assert(is_float_lexeme(sub));
            }
            let bits = parse_f64_bits(s);
            let raw = u64_to_le_bytes(bits);
            Token::new(TokenType::FloatType, start, f_end - start, raw)
        } else {
            self.current = d_end;
            proof {
                assert(is_digit_char(src[start as int]));
                assert forall|i: int| start <= i < d_end implies is_digit_char(
                    #[trigger] src[i],
                ) by {}
            }
            let val = self.decode_digits(start, d_end);
            let u = bits_of_i64(val);
            let raw = u64_to_le_bytes(u);
            proof {
                assert(src.subrange(start as int, d_end as int) == self.src().subrange(
                    start as int,
                    d_end as int,
                ));
            }
            Token::new(TokenType::IntegerType, start, d_end - start, raw)
        }
    }

    /// an identifier, keyword or boolean literal; the head stands right
    /// after its first character
    fn identifier(&mut self, start: usize) -> (tok: Token)
        requires
            old(self).wf(),
            old(self).current == start + 1,
            start < old(self).src().len(),
        ensures
            final(self).wf(),
            final(self).src() == old(self).src(),
            final(self).tokens == old(self).tokens,
            final(self).errors == old(self).errors,
            ({
                let step = ident_step(old(self).src(), start as int);
                &&& final(self).current as int == step.next
                &&& step.token == Some(tok@)
            }),
    {
        let e = self.ident_run(self.current);
        self.current = e;
        let text = self.source.as_str().substring_char(start, e);
        if str_eq(text, "true") {
            let mut raw: Vec<u8> = Vec::new();
            raw.push(1u8);
            proof {
                assert(raw@ =~= seq![1u8]);
            }
            Token::new(TokenType::BooleanType, start, e - start, raw)
        } else if str_eq(text, "false") {
            let mut raw: Vec<u8> = Vec::new();
            raw.push(0u8);
            proof {
                assert(raw@ =~= seq![0u8]);
            }
            Token::new(TokenType::BooleanType, start, e - start, raw)
        } else {
            let t = keyword_lookup(text);
            let raw = text.as_bytes_vec();
            Token::new(t, start, e - start, raw)
        }
    }
}

/// The keyword that a lexeme spells, or `Identifier`.
fn keyword_lookup(text: &str) -> (t: TokenType)
    ensures
        t == keyword_type(text@),
{
    if str_eq(text, "integer") {
        TokenType::Integer
    } else if str_eq(text, "float") {
        TokenType::Float
    } else if str_eq(text, "char") {
        TokenType::Char
    } else if str_eq(text, "string") {
        TokenType::String
    } else if str_eq(text, "boolean") {
        TokenType::Boolean
    } else if str_eq(text, "regex") {
        TokenType::Regex
    } else if str_eq(text, "T") {
        TokenType::T
    } else if str_eq(text, "reef") {
        TokenType::Reef
    } else if str_eq(text, "get") {
        TokenType::Get
    } else if str_eq(text, "from") {
        TokenType::From
    } else if str_eq(text, "as") {
        TokenType::As
    } else if str_eq(text, "define") {
        TokenType::Define
    } else if str_eq(text, "and") {
        TokenType::And
    } else if str_eq(text, "or") {
        TokenType::Or
    } else if str_eq(text, "for") {
        TokenType::For
    } else if str_eq(text, "while") {
        TokenType::While
    } else if str_eq(text, "do") {
        TokenType::Do
    } else if str_eq(text, "in") {
        TokenType::In
    } else if str_eq(text, "if") {
        TokenType::If
    } else if str_eq(text, "else") {
        TokenType::Else
    } else if str_eq(text, "return") {
        TokenType::Return
    } else if str_eq(text, "structure") {
        TokenType::Structure
    } else if str_eq(text, "implement") {
        TokenType::Implement
    } else if str_eq(text, "private") {
        TokenType::Private
    } else {
        TokenType::Identifier
    }
}

} // verus!
