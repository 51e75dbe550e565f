//! Diagnostics: the error record, how a character position maps to a line
//! and column, and the exact rendering of an error report.

use vstd::prelude::*;
use vstd::string::{StrSliceExecFns, StringExecFns};
use crate::strutil::{chars_to_string, dec_chars_of, push_dec_chars, push_str_chars, string_chars};

verus! {

/// Different error types that can be thrown with a ShorkError
#[derive(Copy, Clone, Debug, PartialEq, Eq, Structural)]
pub enum ErrorType {
    InterpreterError,
    LexicalError,
    ParserError,
    ReadingError,
    SyntaxError,
    TypeError,
    Warning,
}

/// All errors go back to this struct
#[derive(Debug, PartialEq)]
pub struct ShorkError {
    pub e_type: ErrorType,
    pub line: usize,
    pub line_content: String,
    pub pos_in_line: usize,
    pub message: String,
}

impl Clone for ShorkError {
    fn clone(&self) -> (r: ShorkError)
        ensures
            r == *self,
    {
        ShorkError {
            e_type: self.e_type,
            line: self.line,
            line_content: self.line_content.clone(),
            pos_in_line: self.pos_in_line,
            message: self.message.clone(),
        }
    }
}

/// The 0-based line number that a character position falls on: the number
/// of newlines among the characters before the position.
pub open spec fn line_of(src: Seq<char>, position: int) -> int
    decreases position,
{
    if position <= 0 {
        0
    } else {
        line_of(src, position - 1) + if position - 1 < src.len() && src[position - 1] == '\n' {
            1int
        } else {
            0int
        }
    }
}

/// The 1-based column of a character position within its line. Positions
/// past the end of the source keep counting columns, as if the source went on.
pub open spec fn col_of(src: Seq<char>, position: int) -> int
    decreases position,
{
    if position <= 0 {
        1
    } else if position - 1 < src.len() && src[position - 1] == '\n' {
        1
    } else {
        col_of(src, position - 1) + 1
    }
}

/// The column number, clamped to what a `usize` can carry.
pub open spec fn col_of_clamped(src: Seq<char>, position: int) -> int {
    if col_of(src, position) > usize::MAX {
        usize::MAX as int
    } else {
        col_of(src, position)
    }
}

/// The index of the first newline at or after `i`, or the length of the
/// source when there is none.
pub open spec fn next_newline(src: Seq<char>, i: int) -> int
    decreases src.len() - i,
{
    if i < 0 {
        next_newline(src, 0)
    } else if i >= src.len() {
        src.len() as int
    } else if src[i] == '\n' {
        i
    } else {
        next_newline(src, i + 1)
    }
}

/// The character index where the line with the given 0-based number starts.
pub open spec fn line_start(src: Seq<char>, k: int) -> int
    decreases k,
{
    if k <= 0 {
        0
    } else {
        next_newline(src, line_start(src, k - 1)) + 1
    }
}

/// Whether a character counts as leading whitespace of a line.
pub open spec fn is_space_char(c: char) -> bool {
    c == ' ' || c == '\t' || c == '\r'
}

/// A character sequence with its leading whitespace removed.
pub open spec fn trim_start_chars(s: Seq<char>) -> Seq<char>
    decreases s.len(),
{
    if s.len() > 0 && is_space_char(s[0]) {
        trim_start_chars(s.drop_first())
    } else {
        s
    }
}

/// The trimmed contents of the line with the given 0-based number: the
/// characters up to the next newline, without a carriage return before that
/// newline and without leading whitespace. Empty when the source has no
/// such line.
pub open spec fn line_content_of(src: Seq<char>, k: int) -> Seq<char> {
    let s = line_start(src, k);
    if s >= src.len() {
        Seq::empty()
    } else {
        let e = next_newline(src, s);
        let e2 = if e < src.len() && e > s && src[e - 1] == '\r' {
            e - 1
        } else {
            e
        };
        trim_start_chars(src.subrange(s, e2))
    }
}

proof fn lemma_line_col_past_end(src: Seq<char>, position: int)
    requires
        position >= src.len(),
    ensures
        line_of(src, position) == line_of(src, src.len() as int),
        col_of(src, position) == col_of(src, src.len() as int) + (position - src.len()),
    decreases position - src.len(),
{
    if position > src.len() {
        lemma_line_col_past_end(src, position - 1);
    }
}

impl ShorkError {
    /// generate an error from a message and a given position in a source string
    pub fn generate_error(e_type: ErrorType, position: usize, source: String, message: String) -> (r: ShorkError)
        ensures
            r.e_type == e_type,
            r.line as int == line_of(source@, position as int),
            r.pos_in_line as int == col_of_clamped(source@, position as int),
            r.line_content@ == line_content_of(source@, line_of(source@, position as int)),
            r.message@ == message@,
    {
        let chars = string_chars(source.as_str());
        let n = chars.len();
        let m = if position < n {
            position
        } else {
            n
        };

        // count lines and columns over the characters before the position
        let mut line: usize = 0;
        let mut col: usize = 1;
        let mut i: usize = 0;
        while i < m
            invariant
                i <= m,
                m <= n,
                n == chars@.len(),
                chars@ == source@,
                line as int == line_of(source@, i as int),
                col as int == col_of_clamped(source@, i as int),
                line <= i,
            decreases m - i,
        {
            if chars[i] == '\n' {
                line = line + 1;
                col = 1;
            } else if col < usize::MAX {
                col = col + 1;
            }
            i = i + 1;
        }

        // positions past the end of the source keep counting columns
        if position > m {
            proof {
                lemma_line_col_past_end(source@, position as int);
            }
            let extra = position - m;
            if extra > usize::MAX - col {
                col = usize::MAX;
            } else {
                col = col + extra;
            }
        }

        let line_content = Self::line_text(&chars, line);
        proof {
            assert(chars@ == source@);
        }
        ShorkError { e_type, line, line_content, pos_in_line: col, message }
    }

    /// the trimmed text of the line with the given 0-based number
    fn line_text(chars: &Vec<char>, k: usize) -> (r: String)
        ensures
            r@ == line_content_of(chars@, k as int),
    {
        let n = chars.len();

        // find where the line starts
        let mut s: usize = 0;
        let mut j: usize = 0;
        while j < k
            invariant
                s as int == line_start(chars@, j as int),
                j <= k,
                s <= n,
                n == chars@.len(),
            decreases k - j,
        {
            let e = Self::newline_at(chars, s);
            if e >= n {
                // the next line would start past the end: there is no line k
                proof {
                    assert(line_start(chars@, j as int + 1) == next_newline(
                        chars@,
                        line_start(chars@, j as int),
                    ) + 1);
                    lemma_line_start_past_end(chars@, j as int + 1, k as int);
                }
                let v: Vec<char> = Vec::new();
                return chars_to_string(&v);
            }
            s = e + 1;
            j = j + 1;
        }

        if s >= n {
            let v: Vec<char> = Vec::new();
            return chars_to_string(&v);
        }

        let e = Self::newline_at(chars, s);
        let e2 = if e < n && e > s && chars[e - 1] == '\r' {
            e - 1
        } else {
            e
        };

        // skip the leading whitespace
        let mut t: usize = s;
        while t < e2 && (chars[t] == ' ' || chars[t] == '\t' || chars[t] == '\r')
            invariant
                s <= t <= e2 <= n,
                n == chars@.len(),
                trim_start_chars(chars@.subrange(s as int, e2 as int)) == trim_start_chars(
                    chars@.subrange(t as int, e2 as int),
                ),
            decreases e2 - t,
        {
            proof {
                assert(chars@.subrange(t as int, e2 as int).drop_first() =~= chars@.subrange(
                    t as int + 1,
                    e2 as int,
                ));
            }
            t = t + 1;
        }

        let mut v: Vec<char> = Vec::new();
        let mut q: usize = t;
        while q < e2
            invariant
                t <= q <= e2 <= n,
                n == chars@.len(),
                v@ == chars@.subrange(t as int, q as int),
            decreases e2 - q,
        {
            v.push(chars[q]);
            q = q + 1;
            proof {
                assert(v@ =~= chars@.subrange(t as int, q as int));
            }
        }
        proof {
            assert(trim_start_chars(chars@.subrange(t as int, e2 as int)) == chars@.subrange(
                t as int,
                e2 as int,
            ));
        }
        chars_to_string(&v)
    }

    /// the index of the first newline at or after `i`, or the length of
    /// the text when there is none
    fn newline_at(chars: &Vec<char>, i: usize) -> (e: usize)
        requires
            i as int <= chars@.len(),
        ensures
            e as int == next_newline(chars@, i as int),
            i <= e <= chars@.len(),
            e < chars@.len() ==> chars@[e as int] == '\n',
    {
        let n = chars.len();
        let mut j: usize = if i < n {
            i
        } else {
            return n;
        };
        while j < n
            invariant
                i <= j <= n,
                n == chars@.len(),
                next_newline(chars@, i as int) == next_newline(chars@, j as int),
                forall|x: int| i <= x < j ==> chars@[x] != '\n',
            decreases n - j,
        {
            if chars[j] == '\n' {
                return j;
            }
            j = j + 1;
        }
        n
    }
}

proof fn lemma_line_start_past_end(src: Seq<char>, j: int, k: int)
    requires
        0 <= j <= k,
        line_start(src, j) > src.len(),
    ensures
        line_start(src, k) > src.len(),
    decreases k - j,
{
    if j < k {
        lemma_line_start_past_end(src, j + 1, k);
    }
}

/// The mathematical model of a diagnostic: its kind, the character
/// position it points at, and its message. Line, column and line text
/// follow from the position and the source.
pub struct ErrModel {
    pub e_type: ErrorType,
    pub position: int,
    pub message: Seq<char>,
}

/// Whether a diagnostic is the one that `generate_error` builds for the
/// given model against the given source.
pub open spec fn matches_err(e: ShorkError, m: ErrModel, src: Seq<char>) -> bool {
    &&& e.e_type == m.e_type
    &&& e.line as int == line_of(src, m.position)
    &&& e.pos_in_line as int == col_of_clamped(src, m.position)
    &&& e.line_content@ == line_content_of(src, line_of(src, m.position))
    &&& e.message@ == m.message
}

/// Whether a queue of diagnostics matches a sequence of models, pointwise.
pub open spec fn errs_match(es: Seq<ShorkError>, ms: Seq<ErrModel>, src: Seq<char>) -> bool {
    &&& es.len() == ms.len()
    &&& forall|i: int| 0 <= i < ms.len() ==> matches_err(#[trigger] es[i], ms[i], src)
}

/// The display name of an error kind.
pub open spec fn kind_name_of(e: ErrorType) -> Seq<char> {
    match e {
        ErrorType::InterpreterError => "Interpreter Error"@,
        ErrorType::LexicalError => "Lexical Error"@,
        ErrorType::ParserError => "Parser Error"@,
        ErrorType::ReadingError => "Reading Error"@,
        ErrorType::SyntaxError => "Syntax Error"@,
        ErrorType::TypeError => "Type Error"@,
        ErrorType::Warning => "Warning"@,
    }
}

/// The display name of an error kind.
pub fn kind_name(e: ErrorType) -> (r: String)
    ensures
        r@ == kind_name_of(e),
{
    match e {
        ErrorType::InterpreterError => String::from_str("Interpreter Error"),
        ErrorType::LexicalError => String::from_str("Lexical Error"),
        ErrorType::ParserError => String::from_str("Parser Error"),
        ErrorType::ReadingError => String::from_str("Reading Error"),
        ErrorType::SyntaxError => String::from_str("Syntax Error"),
        ErrorType::TypeError => String::from_str("Type Error"),
        ErrorType::Warning => String::from_str("Warning"),
    }
}

/// A run of spaces.
pub open spec fn spaces(n: int) -> Seq<char>
    decreases n,
{
    if n <= 0 {
        Seq::empty()
    } else {
        spaces(n - 1).push(' ')
    }
}

/// The arrow line that points at a column: as many spaces as the column
/// number, more spaces for every decimal digit of the line number past the
/// first, then the arrow itself.
pub open spec fn arrow_of(line: int, col: int) -> Seq<char> {
    spaces(col) + spaces(dec_chars_of(line).len() - 1) + "^----- Here"@
}

/// The rendered diagnostic: kind and line number, the trimmed line, an
/// arrow under the offending column, and the message.
pub open spec fn rendered_error(kind: Seq<char>, line: int, content: Seq<char>, col: int, message: Seq<char>) -> Seq<char> {
    "\n"@ + kind + " at line "@ + dec_chars_of(line) + ":\n    "@ + dec_chars_of(line) + " | "@
        + content + "\n       "@ + arrow_of(line, col) + "\n"@ + message + "\n        "@
}

fn push_spaces(out: &mut Vec<char>, n: usize)
    ensures
        final(out)@ == old(out)@ + spaces(n as int),
{
    let mut i: usize = 0;
    while i < n
        invariant
            i <= n,
            out@ == old(out)@ + spaces(i as int),
        decreases n - i,
    {
        out.push(' ');
        i = i + 1;
        proof {
            assert(out@ =~= old(out)@ + spaces(i as int));
        }
    }
}

/// Renders a diagnostic with the given kind text, exactly as the reporter
/// prints it.
pub fn rendered(e: &ShorkError, kind: &str) -> (r: String)
    ensures
        r@ == rendered_error(kind@, e.line as int, e.line_content@, e.pos_in_line as int, e.message@),
{
    let mut out: Vec<char> = Vec::new();
    push_str_chars(&mut out, "\n");
    push_str_chars(&mut out, kind);
    push_str_chars(&mut out, " at line ");
    push_dec_chars(&mut out, e.line);
    push_str_chars(&mut out, ":\n    ");
    push_dec_chars(&mut out, e.line);
    push_str_chars(&mut out, " | ");
    push_str_chars(&mut out, e.line_content.as_str());
    push_str_chars(&mut out, "\n       ");
    push_spaces(&mut out, e.pos_in_line);
    let d = crate::strutil::dec_chars_len(e.line);
    proof {
        crate::strutil::lemma_dec_len_pos(e.line as int);
    }
    push_spaces(&mut out, d - 1);
    push_str_chars(&mut out, "^----- Here");
    push_str_chars(&mut out, "\n");
    push_str_chars(&mut out, e.message.as_str());
    push_str_chars(&mut out, "\n        ");
    proof {
        assert(out@ =~= rendered_error(
            kind@,
            e.line as int,
            e.line_content@,
            e.pos_in_line as int,
            e.message@,
        ));
    }
    chars_to_string(&out)
}

/// Renders a diagnostic under its own kind name.
pub fn format_error(e: &ShorkError) -> (r: String)
    ensures
        r@ == rendered_error(
            kind_name_of(e.e_type),
            e.line as int,
            e.line_content@,
            e.pos_in_line as int,
            e.message@,
        ),
{
    let kind = kind_name(e.e_type);
    rendered(e, kind.as_str())
}

} // verus!
