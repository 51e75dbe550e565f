//! The evaluator: walks the tree to a typed value under the operator
//! type rules, which double as its specification.

use vstd::prelude::*;
use vstd::string::{StrSliceExecFns, StringExecFns};
use vstd::utf8::{decode_utf8, valid_utf8};
use vstd::bytes::spec_u64_from_le_bytes;
use vstd::wrapping::i64_specs;
use crate::errors::{ErrModel, ErrorType, ShorkError, matches_err};
use crate::floats::{
    add_f64_bits, cmp_f64_bits, div_f64_bits, f64_add_bits, f64_cmp_bits, f64_div_bits,
    f64_mul_bits, f64_neg_bits, f64_rem_bits, f64_sub_bits, mul_f64_bits, neg_f64_bits,
    rem_f64_bits, sub_f64_bits,
};
use crate::strutil::{chars_to_string, push_str_chars, str_to_string, utf8_to_string};
use crate::tokens::{TokenType, token_kind_name, token_kind_str, twos_complement_bits, twos_complement_of};
use crate::tree::{AST, NodeModel, index_of_id, roots_of};

verus! {

/// An evaluated result: a tagged union over the language's runtime types.
/// A float is carried as its IEEE-754 binary64 bit pattern.
#[derive(Debug, PartialEq)]
pub enum Value {
    Bool(bool),
    Int(i64),
    Float(u64),
    Str(String),
    Regex(String),
    Error(String),
}

/// The mathematical model of an evaluated result.
pub enum ValueModel {
    Bool(bool),
    Int(i64),
    Float(u64),
    Str(Seq<char>),
    Regex(Seq<char>),
    Error(Seq<char>),
}

impl View for Value {
    type V = ValueModel;

    open spec fn view(&self) -> ValueModel {
        match self {
            Value::Bool(b) => ValueModel::Bool(*b),
            Value::Int(n) => ValueModel::Int(*n),
            Value::Float(u) => ValueModel::Float(*u),
            Value::Str(s) => ValueModel::Str(s@),
            Value::Regex(s) => ValueModel::Regex(s@),
            Value::Error(s) => ValueModel::Error(s@),
        }
    }
}

/// The display name of a value's runtime type.
pub open spec fn type_name_of(v: ValueModel) -> Seq<char> {
    match v {
        ValueModel::Bool(_) => "boolean"@,
        ValueModel::Int(_) => "integer"@,
        ValueModel::Float(_) => "float"@,
        ValueModel::Str(_) => "string"@,
        ValueModel::Regex(_) => "regex"@,
        ValueModel::Error(_) => "error"@,
    }
}

/// The symbol of an operator, as it reads in the source.
pub open spec fn op_symbol_of(t: TokenType) -> Seq<char> {
    match t {
        TokenType::EqualEqual => "=="@,
        TokenType::ExclamationEqual => "!="@,
        TokenType::Greater => ">"@,
        TokenType::GreaterEqual => ">="@,
        TokenType::Lesser => "<"@,
        TokenType::LesserEqual => "<="@,
        TokenType::Pipe => "|"@,
        TokenType::AndSym => "&"@,
        TokenType::LesserLesser => "<<"@,
        TokenType::GreaterGreater => ">>"@,
        TokenType::Plus => "+"@,
        TokenType::Minus => "-"@,
        TokenType::Slash => "/"@,
        TokenType::Asterisk => "*"@,
        TokenType::Percent => "%"@,
        TokenType::Exclamation => "!"@,
        _ => ""@,
    }
}

/// The message of a diagnostic about a binary operator applied to types it
/// does not accept.
pub open spec fn unsupported_msg(t: TokenType, a: ValueModel, b: ValueModel) -> Seq<char> {
    "Unsupported Operation '"@ + op_symbol_of(t) + "' on "@ + type_name_of(a) + " and "@
        + type_name_of(b)
}

/// The message of a diagnostic about a unary operator applied to a type it
/// does not accept.
pub open spec fn unsupported_unary_msg(t: TokenType, a: ValueModel) -> Seq<char> {
    "Unsupported Unary '"@ + op_symbol_of(t) + "' on "@ + type_name_of(a)
}

/// Structural equality of two values: equal tags and equal payloads.
/// Floats compare by the IEEE-754 equality of their bit patterns, so a NaN
/// equals nothing and negative zero equals zero.
pub open spec fn vals_equal(a: ValueModel, b: ValueModel) -> bool {
    match (a, b) {
        (ValueModel::Bool(x), ValueModel::Bool(y)) => x == y,
        (ValueModel::Int(x), ValueModel::Int(y)) => x == y,
        (ValueModel::Float(x), ValueModel::Float(y)) => f64_cmp_bits(x, y) == Some(0i8),
        (ValueModel::Str(x), ValueModel::Str(y)) => x == y,
        (ValueModel::Regex(x), ValueModel::Regex(y)) => x == y,
        (ValueModel::Error(x), ValueModel::Error(y)) => x == y,
        _ => false,
    }
}

/// Lexicographic comparison of two character sequences by code point,
/// as a signum.
pub open spec fn lex_cmp(x: Seq<char>, y: Seq<char>) -> int
    decreases x.len(),
{
    if x.len() == 0 && y.len() == 0 {
        0
    } else if x.len() == 0 {
        -1
    } else if y.len() == 0 {
        1
    } else if (x[0] as u32) < (y[0] as u32) {
        -1
    } else if (x[0] as u32) > (y[0] as u32) {
        1
    } else {
        lex_cmp(x.drop_first(), y.drop_first())
    }
}

/// How two values order, as a signum, or nothing where the language
/// defines no order: different tags, regexes, errors, or a NaN.
pub open spec fn compare_vals(a: ValueModel, b: ValueModel) -> Option<int> {
    match (a, b) {
        (ValueModel::Bool(x), ValueModel::Bool(y)) => Some(
            if x == y {
                0int
            } else if !x {
                -1int
            } else {
                1int
            },
        ),
        (ValueModel::Int(x), ValueModel::Int(y)) => Some(
            if x < y {
                -1int
            } else if x == y {
                0int
            } else {
                1int
            },
        ),
        (ValueModel::Float(x), ValueModel::Float(y)) => match f64_cmp_bits(x, y) {
            Some(s) => Some(s as int),
            None => None,
        },
        (ValueModel::Str(x), ValueModel::Str(y)) => Some(lex_cmp(x, y)),
        _ => None,
    }
}

/// The shift distance that a signed 64-bit right operand asks for: its low
/// six bits, read from its two's complement bit pattern.
pub open spec fn shift_amount(y: i64) -> u32 {
    (twos_complement_bits(y) % 64) as u32
}

/// What a binary operator yields on two values: the type rules of the
/// evaluator. Integer arithmetic wraps; integer division and remainder by
/// zero are errors; shifts take their distance from the low six bits of
/// the right operand; `+` concatenates strings; `&` and `|` are logical on
/// booleans and bitwise on integers; comparisons require both operands
/// ordered. Everything else is an error value.
pub open spec fn apply_binary(t: TokenType, a: ValueModel, b: ValueModel) -> ValueModel {
    if t == TokenType::EqualEqual {
        ValueModel::Bool(vals_equal(a, b))
    } else if t == TokenType::ExclamationEqual {
        ValueModel::Bool(!vals_equal(a, b))
    } else if t == TokenType::Greater || t == TokenType::GreaterEqual || t == TokenType::Lesser
        || t == TokenType::LesserEqual {
        match compare_vals(a, b) {
            Some(s) => ValueModel::Bool(
                if t == TokenType::Greater {
                    s > 0
                } else if t == TokenType::GreaterEqual {
                    s >= 0
                } else if t == TokenType::Lesser {
                    s < 0
                } else {
                    s <= 0
                },
            ),
            None => ValueModel::Error(unsupported_msg(t, a, b)),
        }
    } else if t == TokenType::Plus {
        match (a, b) {
            (ValueModel::Int(x), ValueModel::Int(y)) => ValueModel::Int(
                i64_specs::wrapping_add(x, y),
            ),
            (ValueModel::Float(x), ValueModel::Float(y)) => ValueModel::Float(f64_add_bits(x, y)),
            (ValueModel::Str(x), ValueModel::Str(y)) => ValueModel::Str(x + y),
            _ => ValueModel::Error(unsupported_msg(t, a, b)),
        }
    } else if t == TokenType::Minus {
        match (a, b) {
            (ValueModel::Int(x), ValueModel::Int(y)) => ValueModel::Int(
                i64_specs::wrapping_sub(x, y),
            ),
            (ValueModel::Float(x), ValueModel::Float(y)) => ValueModel::Float(f64_sub_bits(x, y)),
            _ => ValueModel::Error(unsupported_msg(t, a, b)),
        }
    } else if t == TokenType::Asterisk {
        match (a, b) {
            (ValueModel::Int(x), ValueModel::Int(y)) => ValueModel::Int(
                i64_specs::wrapping_mul(x, y),
            ),
            (ValueModel::Float(x), ValueModel::Float(y)) => ValueModel::Float(f64_mul_bits(x, y)),
            _ => ValueModel::Error(unsupported_msg(t, a, b)),
        }
    } else if t == TokenType::Slash {
        match (a, b) {
            (ValueModel::Int(x), ValueModel::Int(y)) => {
                if y == 0 {
                    ValueModel::Error("Division by zero"@)
                } else {
                    match x.checked_div(y) {
                        Some(q) => ValueModel::Int(q),
                        None => ValueModel::Int(i64::MIN),
                    }
                }
            },
            (ValueModel::Float(x), ValueModel::Float(y)) => ValueModel::Float(f64_div_bits(x, y)),
            _ => ValueModel::Error(unsupported_msg(t, a, b)),
        }
    } else if t == TokenType::Percent {
        match (a, b) {
            (ValueModel::Int(x), ValueModel::Int(y)) => {
                if y == 0 {
                    ValueModel::Error("Division by zero"@)
                } else {
                    match x.checked_rem(y) {
                        Some(q) => ValueModel::Int(q),
                        None => ValueModel::Int(0i64),
                    }
                }
            },
            (ValueModel::Float(x), ValueModel::Float(y)) => ValueModel::Float(f64_rem_bits(x, y)),
            _ => ValueModel::Error(unsupported_msg(t, a, b)),
        }
    } else if t == TokenType::AndSym {
        match (a, b) {
            (ValueModel::Bool(x), ValueModel::Bool(y)) => ValueModel::Bool(x && y),
            (ValueModel::Int(x), ValueModel::Int(y)) => ValueModel::Int(x & y),
            _ => ValueModel::Error(unsupported_msg(t, a, b)),
        }
    } else if t == TokenType::Pipe {
        match (a, b) {
            (ValueModel::Bool(x), ValueModel::Bool(y)) => ValueModel::Bool(x || y),
            (ValueModel::Int(x), ValueModel::Int(y)) => ValueModel::Int(x | y),
            _ => ValueModel::Error(unsupported_msg(t, a, b)),
        }
    } else if t == TokenType::LesserLesser {
        match (a, b) {
            (ValueModel::Int(x), ValueModel::Int(y)) => ValueModel::Int(
                i64_specs::wrapping_shl(x, shift_amount(y)),
            ),
            _ => ValueModel::Error(unsupported_msg(t, a, b)),
        }
    } else if t == TokenType::GreaterGreater {
        match (a, b) {
            (ValueModel::Int(x), ValueModel::Int(y)) => ValueModel::Int(
                i64_specs::wrapping_shr(x, shift_amount(y)),
            ),
            _ => ValueModel::Error(unsupported_msg(t, a, b)),
        }
    } else {
        ValueModel::Error(unsupported_msg(t, a, b))
    }
}

/// What a unary operator yields on a value: `-` on a number, `!` on a
/// boolean; everything else is an error value. Negating the smallest
/// integer wraps to itself.
pub open spec fn apply_unary(t: TokenType, a: ValueModel) -> ValueModel {
    if t == TokenType::Minus {
        match a {
            ValueModel::Int(x) => ValueModel::Int(i64_specs::wrapping_sub(0i64, x)),
            ValueModel::Float(x) => ValueModel::Float(f64_neg_bits(x)),
            _ => ValueModel::Error(unsupported_unary_msg(t, a)),
        }
    } else if t == TokenType::Exclamation {
        match a {
            ValueModel::Bool(x) => ValueModel::Bool(!x),
            _ => ValueModel::Error(unsupported_unary_msg(t, a)),
        }
    } else {
        ValueModel::Error(unsupported_unary_msg(t, a))
    }
}

/// Whether a token kind is a binary operator of the expression grammar.
pub open spec fn is_binary_op(t: TokenType) -> bool {
    t == TokenType::EqualEqual || t == TokenType::ExclamationEqual || t == TokenType::Greater || t
        == TokenType::GreaterEqual || t == TokenType::Lesser || t == TokenType::LesserEqual || t
        == TokenType::Pipe || t == TokenType::AndSym || t == TokenType::LesserLesser || t
        == TokenType::GreaterGreater || t == TokenType::Plus || t == TokenType::Minus || t
        == TokenType::Slash || t == TokenType::Asterisk || t == TokenType::Percent
}

/// Whether a token kind is a literal the evaluator can decode.
pub open spec fn is_literal_kind(t: TokenType) -> bool {
    t == TokenType::BooleanType || t == TokenType::IntegerType || t == TokenType::FloatType || t
        == TokenType::StringType || t == TokenType::RegexType || t == TokenType::CharType
}

/// What evaluating a node yields: a value; a diagnostic against the
/// source; or a diagnostic of the evaluator's own (a broken arena, a tree
/// deeper than it has nodes), which carries no source.
pub enum EvalResultModel {
    Done(ValueModel),
    Fault(ErrorType, int, Seq<char>),
    Internal(ErrorType, Seq<char>),
}

/// The message of the diagnostic for an id that the arena does not hold.
pub open spec fn missing_node_msg() -> Seq<char> {
    "Failed to find Node in AST. This is an error by the interpreter and not in your source code"@
}

/// The message of the diagnostic for a walk that did not finish.
pub open spec fn exhausted_msg() -> Seq<char> {
    "Could not finish walking the expression tree. This is an error by the interpreter and not in your source code"@
}

/// The message of the diagnostic for a tree without a root.
pub open spec fn no_root_msg() -> Seq<char> {
    "The expression tree has no root node"@
}

/// The message of the diagnostic for a literal with a malformed payload.
pub open spec fn payload_msg() -> Seq<char> {
    "Malformed literal payload. This is an error by the interpreter and not in your source code"@
}

/// The message of the diagnostic for a node that is no operator and no
/// literal, naming what stood there.
pub open spec fn unexpected_symbol_msg(t: TokenType) -> Seq<char> {
    "Unexpected symbol "@ + token_kind_name(t) + "! Did you mean something else?"@
}

/// What the literal at a node decodes to.
pub open spec fn eval_literal(n: NodeModel) -> EvalResultModel {
    let t = n.val.t_type;
    if t == TokenType::BooleanType {
        if n.val.raw.len() >= 1 {
            EvalResultModel::Done(ValueModel::Bool(n.val.raw[0] == 1))
        } else {
            EvalResultModel::Fault(ErrorType::InterpreterError, n.val.position, payload_msg())
        }
    } else if t == TokenType::IntegerType {
        if n.val.raw.len() >= 8 {
            EvalResultModel::Done(
                ValueModel::Int(
                    twos_complement_of(spec_u64_from_le_bytes(n.val.raw.subrange(0, 8))) as i64,
                ),
            )
        } else {
            EvalResultModel::Fault(ErrorType::InterpreterError, n.val.position, payload_msg())
        }
    } else if t == TokenType::FloatType {
        if n.val.raw.len() >= 8 {
            EvalResultModel::Done(
                ValueModel::Float(spec_u64_from_le_bytes(n.val.raw.subrange(0, 8))),
            )
        } else {
            EvalResultModel::Fault(ErrorType::InterpreterError, n.val.position, payload_msg())
        }
    } else if t == TokenType::StringType || t == TokenType::CharType {
        if valid_utf8(n.val.raw) {
            EvalResultModel::Done(ValueModel::Str(decode_utf8(n.val.raw)))
        } else {
            EvalResultModel::Fault(ErrorType::InterpreterError, n.val.position, payload_msg())
        }
    } else {
        // a regex literal
        if valid_utf8(n.val.raw) {
            EvalResultModel::Done(ValueModel::Regex(decode_utf8(n.val.raw)))
        } else {
            EvalResultModel::Fault(ErrorType::InterpreterError, n.val.position, payload_msg())
        }
    }
}

/// What evaluating the node with an id yields. A binary operator node
/// evaluates its two children left to right and applies the type rules; a
/// `!` or `-` node with one child applies the unary rules; a literal
/// decodes its payload. An error value becomes a type-error diagnostic at
/// the operator's position, and the first diagnostic ends the walk.
pub open spec fn eval_node(a: Seq<NodeModel>, id: int, fuel: nat) -> EvalResultModel
    decreases fuel,
{
    let idx = index_of_id(a, id, 0);
    if idx >= a.len() {
        EvalResultModel::Internal(ErrorType::ParserError, missing_node_msg())
    } else {
        let n = a[idx];
        let t = n.val.t_type;
        if n.children.len() == 2 && is_binary_op(t) {
            if fuel == 0 {
                EvalResultModel::Internal(ErrorType::InterpreterError, exhausted_msg())
            } else {
                match eval_node(a, n.children[0], (fuel - 1) as nat) {
                    EvalResultModel::Done(l) => match eval_node(
                        a,
                        n.children[1],
                        (fuel - 1) as nat,
                    ) {
                        EvalResultModel::Done(r) => {
                            let v = apply_binary(t, l, r);
                            if v is Error {
                                EvalResultModel::Fault(ErrorType::TypeError, n.val.position, v->Error_0)
                            } else {
                                EvalResultModel::Done(v)
                            }
                        },
                        fault => fault,
                    },
                    fault => fault,
                }
            }
        } else if n.children.len() == 1 && (t == TokenType::Exclamation || t == TokenType::Minus) {
            if fuel == 0 {
                EvalResultModel::Internal(ErrorType::InterpreterError, exhausted_msg())
            } else {
                match eval_node(a, n.children[0], (fuel - 1) as nat) {
                    EvalResultModel::Done(x) => {
                        let v = apply_unary(t, x);
                        if v is Error {
                            EvalResultModel::Fault(ErrorType::TypeError, n.val.position, v->Error_0)
                        } else {
                            EvalResultModel::Done(v)
                        }
                    },
                    fault => fault,
                }
            }
        } else if is_literal_kind(t) {
            eval_literal(n)
        } else {
            EvalResultModel::Fault(
                ErrorType::InterpreterError,
                n.val.position,
                unexpected_symbol_msg(n.val.t_type),
            )
        }
    }
}

/// What evaluating a whole tree yields: the walk from its first root, with
/// as much fuel as the arena has nodes; a tree without a root is an error.
pub open spec fn eval_tree(a: Seq<NodeModel>) -> EvalResultModel {
    if roots_of(a).len() == 0 {
        EvalResultModel::Internal(ErrorType::InterpreterError, no_root_msg())
    } else {
        eval_node(a, roots_of(a)[0], a.len())
    }
}

/// An evaluated value is never the error variant: every error value turns
/// into a diagnostic.
pub proof fn lemma_eval_never_error_value(a: Seq<NodeModel>, id: int, fuel: nat)
    ensures
        eval_node(a, id, fuel) matches EvalResultModel::Done(v) ==> !(v is Error),
    decreases fuel,
{
    let idx = index_of_id(a, id, 0);
    if 0 <= idx < a.len() {
        let n = a[idx];
        if fuel > 0 {
            if n.children.len() >= 1 {
                lemma_eval_never_error_value(a, n.children[0], (fuel - 1) as nat);
            }
            if n.children.len() >= 2 {
                lemma_eval_never_error_value(a, n.children[1], (fuel - 1) as nat);
            }
        }
    }
}

/// Evaluation is deterministic: what a tree evaluates to is a function of
/// the tree alone, so two evaluations of the same tree agree.
pub proof fn lemma_eval_deterministic(a: Seq<NodeModel>, r1: EvalResultModel, r2: EvalResultModel)
    requires
        r1 == eval_tree(a),
        r2 == eval_tree(a),
    ensures
        r1 == r2,
{
}

/// Division and remainder by zero are reported as error values, never
/// computed.
pub proof fn lemma_division_by_zero_reported(x: i64)
    ensures
        apply_binary(TokenType::Slash, ValueModel::Int(x), ValueModel::Int(0i64)) == ValueModel::Error(
            "Division by zero"@,
        ),
        apply_binary(TokenType::Percent, ValueModel::Int(x), ValueModel::Int(0i64)) == ValueModel::Error(
            "Division by zero"@,
        ),
{
}


/// A leaf whose token carries an integer payload evaluates to exactly the
/// integer that the payload encodes: together with the lexer's decimal
/// law, the decimal literal of any value in signed 64-bit range evaluates
/// to that value.
pub proof fn lemma_integer_leaf_evaluates(t: crate::tokens::TokenModel, id: int, v: i64)
    requires
        t.t_type == TokenType::IntegerType,
        t.raw == crate::tokens::i64_to_le_payload(v),
    ensures
        ({
            let a = seq![NodeModel { id, val: t, parent: None, children: Seq::<int>::empty() }];
            eval_tree(a) == EvalResultModel::Done(ValueModel::Int(v))
        }),
{
    let a = seq![NodeModel { id, val: t, parent: None, children: Seq::<int>::empty() }];
    crate::tokens::lemma_i64_payload_roundtrip(v);
    assert(a.drop_last() =~= Seq::<NodeModel>::empty());
    assert(roots_of(a.drop_last()).len() == 0);
    assert(roots_of(a) =~= seq![id]);
    assert(index_of_id(a, id, 0) == 0);
    assert(t.raw.len() >= 8);
    assert(twos_complement_of(spec_u64_from_le_bytes(t.raw.subrange(0, 8))) == v as int);
    assert(eval_node(a, id, a.len()) == EvalResultModel::Done(ValueModel::Int(v)));
}


/// The decimal literal of any nonnegative value in signed 64-bit range
/// evaluates to exactly that value: the lexer turns its rendering into one
/// integer token, and a tree whose single node carries that token
/// evaluates to the integer. Negative literals go through one more step,
/// the unary minus, whose rule `lemma_eval_never_error_value` and
/// `apply_unary` pin down.
pub proof fn lemma_decimal_literal_evaluates(n: i64, id: int)
    requires
        n >= 0,
    ensures
        ({
            let src = crate::strutil::dec_chars_of(n as int);
            let scan = crate::lexer::scan_from(src, 0);
            &&& scan.halted is None
            &&& scan.tokens.len() == 1
            &&& eval_tree(
                seq![
                    NodeModel {
                        id,
                        val: scan.tokens[0],
                        parent: None,
                        children: Seq::<int>::empty(),
                    },
                ],
            ) == EvalResultModel::Done(ValueModel::Int(n))
        }),
{
    let src = crate::strutil::dec_chars_of(n as int);
    crate::strutil::lemma_dec_len_pos(n as int);
    crate::lexer::lemma_dec_chars_are_digits(n as int);
    crate::lexer::lemma_digits_roundtrip(src);
    crate::lexer::lemma_decimal_roundtrip(n);
    lemma_integer_leaf_evaluates(crate::lexer::scan_from(src, 0).tokens[0], id, n);
}

/// Whether a diagnostic is the one that a result model describes, against
/// the given source.
pub open spec fn matches_eval_err(e: ShorkError, m: EvalResultModel, src: Seq<char>) -> bool {
    match m {
        EvalResultModel::Done(_) => false,
        EvalResultModel::Fault(k, p, msg) => matches_err(
            e,
            ErrModel { e_type: k, position: p, message: msg },
            src,
        ),
        EvalResultModel::Internal(k, msg) => matches_err(
            e,
            ErrModel { e_type: k, position: 0, message: msg },
            Seq::<char>::empty(),
        ),
    }
}

/// The expression evaluator
#[derive(Debug)]
pub struct ExprEvaluator {
    source: String,
}

impl ExprEvaluator {
    /// The source, for diagnostics.
    pub closed spec fn src(&self) -> Seq<char> {
        self.source@
    }

    pub fn new(source: String) -> (r: ExprEvaluator)
        ensures
            r.src() == source@,
    {
        ExprEvaluator { source }
    }

    /// evaluate a expression tree
    pub fn evaluate(&mut self, tree: &AST) -> (r: Result<Value, ShorkError>)
        ensures
            final(self).src() == old(self).src(),
            ({
                let m = eval_tree(tree@);
                match r {
                    Ok(v) => m == EvalResultModel::Done(v@) && !(v@ is Error),
                    Err(e) => matches_eval_err(e, m, old(self).src()),
                }
            }),
    {
        let roots = tree.root();
        if roots.len() == 0 {
            let v: Vec<char> = Vec::new();
            let empty_source = chars_to_string(&v);
            let msg = str_to_string("The expression tree has no root node");
            return Err(
                ShorkError::generate_error(ErrorType::InterpreterError, 0, empty_source, msg),
            );
        }
        let fuel = tree.node_count();
        let root = roots[0];
        let r = self.eval_node(tree, root, fuel);
        proof {
            lemma_eval_never_error_value(tree@, root as int, fuel as nat);
        }
        r
    }

    /// evaluate the node with an id
    fn eval_node(&self, tree: &AST, id: usize, fuel: usize) -> (r: Result<Value, ShorkError>)
        ensures
            ({
                let m = eval_node(tree@, id as int, fuel as nat);
                match r {
                    Ok(v) => m == EvalResultModel::Done(v@),
                    Err(e) => matches_eval_err(e, m, self.src()),
                }
            }),
        decreases fuel,
    {
        let node = match tree.get(id) {
            Ok(n) => n,
            Err(e) => {
                return Err(e);
            },
        };
        let t = *node.val().token_type();
        let children = node.children();
        if children.len() == 2 && is_binary_op_exec(t) {
            if fuel == 0 {
                let v: Vec<char> = Vec::new();
                let empty_source = chars_to_string(&v);
                let msg = str_to_string(
                    "Could not finish walking the expression tree. This is an error by the interpreter and not in your source code",
                );
                return Err(
                    ShorkError::generate_error(ErrorType::InterpreterError, 0, empty_source, msg),
                );
            }
            let c0 = children[0];
            let c1 = children[1];
            let position = node.val().position();
            let left = self.eval_node(tree, c0, fuel - 1)?;
            let right = self.eval_node(tree, c1, fuel - 1)?;
            let v = apply_binary_exec(t, left, right);
            match v {
                Value::Error(msg) => Err(
                    ShorkError::generate_error(
                        ErrorType::TypeError,
                        position,
                        self.source.clone(),
                        msg,
                    ),
                ),
                other => Ok(other),
            }
        } else if children.len() == 1 && (matches!(t, TokenType::Exclamation) || matches!(
            t,
            TokenType::Minus,
        )) {
            if fuel == 0 {
                let v: Vec<char> = Vec::new();
                let empty_source = chars_to_string(&v);
                let msg = str_to_string(
                    "Could not finish walking the expression tree. This is an error by the interpreter and not in your source code",
                );
                return Err(
                    ShorkError::generate_error(ErrorType::InterpreterError, 0, empty_source, msg),
                );
            }
            let c0 = children[0];
            let position = node.val().position();
            let operand = self.eval_node(tree, c0, fuel - 1)?;
            let v = apply_unary_exec(t, operand);
            match v {
                Value::Error(msg) => Err(
                    ShorkError::generate_error(
                        ErrorType::TypeError,
                        position,
                        self.source.clone(),
                        msg,
                    ),
                ),
                other => Ok(other),
            }
        } else if is_literal_kind_exec(t) {
            self.literal(node)
        } else {
            let position = node.val().position();
            let mut msg_chars: Vec<char> = Vec::new();
            push_str_chars(&mut msg_chars, "Unexpected symbol ");
            push_str_chars(&mut msg_chars, token_kind_str(t));
            push_str_chars(&mut msg_chars, "! Did you mean something else?");
            let msg = chars_to_string(&msg_chars);
            proof {
                assert(msg@ =~= unexpected_symbol_msg(t));
            }
            Err(
                ShorkError::generate_error(
                    ErrorType::InterpreterError,
                    position,
                    self.source.clone(),
                    msg,
                ),
            )
        }
    }

    /// decode the literal at a node
    fn literal(&self, node: &crate::tree::Node) -> (r: Result<Value, ShorkError>)
        requires
            is_literal_kind(node@.val.t_type),
        ensures
            ({
                let m = eval_literal(node@);
                match r {
                    Ok(v) => m == EvalResultModel::Done(v@),
                    Err(e) => matches_eval_err(e, m, self.src()),
                }
            }),
    {
        let t = *node.val().token_type();
        let tok = node.val();
        let position = tok.position();
        match t {
            TokenType::BooleanType => {
                if tok.raw().len() >= 1 {
                    Ok(Value::Bool(tok.content_bool()))
                } else {
                    Err(self.payload_error(position))
                }
            },
            TokenType::IntegerType => {
                if tok.raw().len() >= 8 {
                    Ok(Value::Int(tok.content_int()))
                } else {
                    Err(self.payload_error(position))
                }
            },
            TokenType::FloatType => {
                if tok.raw().len() >= 8 {
                    Ok(Value::Float(tok.content_float_bits()))
                } else {
                    Err(self.payload_error(position))
                }
            },
            TokenType::RegexType => {
                match tok.content_string() {
                    Some(s) => Ok(Value::Regex(s)),
                    None => Err(self.payload_error(position)),
                }
            },
            _ => {
                // a string or char literal: a char is a one-character string
                match tok.content_string() {
                    Some(s) => Ok(Value::Str(s)),
                    None => Err(self.payload_error(position)),
                }
            },
        }
    }

    /// the diagnostic for a malformed literal payload
    fn payload_error(&self, position: usize) -> (e: ShorkError)
        ensures
            matches_err(
                e,
                ErrModel {
                    e_type: ErrorType::InterpreterError,
                    position: position as int,
                    message: payload_msg(),
                },
                self.src(),
            ),
    {
        let msg = str_to_string(
            "Malformed literal payload. This is an error by the interpreter and not in your source code",
        );
        ShorkError::generate_error(
            ErrorType::InterpreterError,
            position,
            self.source.clone(),
            msg,
        )
    }
}

/// Whether a token kind is a binary operator of the expression grammar.
fn is_binary_op_exec(t: TokenType) -> (r: bool)
    ensures
        r == is_binary_op(t),
{
    match t {
        TokenType::EqualEqual => true,
        TokenType::ExclamationEqual => true,
        TokenType::Greater => true,
        TokenType::GreaterEqual => true,
        TokenType::Lesser => true,
        TokenType::LesserEqual => true,
        TokenType::Pipe => true,
        TokenType::AndSym => true,
        TokenType::LesserLesser => true,
        TokenType::GreaterGreater => true,
        TokenType::Plus => true,
        TokenType::Minus => true,
        TokenType::Slash => true,
        TokenType::Asterisk => true,
        TokenType::Percent => true,
        _ => false,
    }
}

/// Whether a token kind is a literal the evaluator can decode.
fn is_literal_kind_exec(t: TokenType) -> (r: bool)
    ensures
        r == is_literal_kind(t),
{
    match t {
        TokenType::BooleanType => true,
        TokenType::IntegerType => true,
        TokenType::FloatType => true,
        TokenType::StringType => true,
        TokenType::RegexType => true,
        TokenType::CharType => true,
        _ => false,
    }
}

/// The symbol of an operator, as it reads in the source.
fn op_symbol(t: TokenType) -> (r: &'static str)
    ensures
        r@ == op_symbol_of(t),
{
    match t {
        TokenType::EqualEqual => "==",
        TokenType::ExclamationEqual => "!=",
        TokenType::Greater => ">",
        TokenType::GreaterEqual => ">=",
        TokenType::Lesser => "<",
        TokenType::LesserEqual => "<=",
        TokenType::Pipe => "|",
        TokenType::AndSym => "&",
        TokenType::LesserLesser => "<<",
        TokenType::GreaterGreater => ">>",
        TokenType::Plus => "+",
        TokenType::Minus => "-",
        TokenType::Slash => "/",
        TokenType::Asterisk => "*",
        TokenType::Percent => "%",
        TokenType::Exclamation => "!",
        _ => "",
    }
}

/// The display name of a value's runtime type.
fn value_type_name(v: &Value) -> (r: &'static str)
    ensures
        r@ == type_name_of(v@),
{
    match v {
        Value::Bool(_) => "boolean",
        Value::Int(_) => "integer",
        Value::Float(_) => "float",
        Value::Str(_) => "string",
        Value::Regex(_) => "regex",
        Value::Error(_) => "error",
    }
}

/// The error value for a binary operator applied to types it does not
/// accept.
fn unsupported(t: TokenType, a: &Value, b: &Value) -> (r: Value)
    ensures
        r@ == ValueModel::Error(unsupported_msg(t, a@, b@)),
{
    let mut msg: Vec<char> = Vec::new();
    push_str_chars(&mut msg, "Unsupported Operation '");
    push_str_chars(&mut msg, op_symbol(t));
    push_str_chars(&mut msg, "' on ");
    push_str_chars(&mut msg, value_type_name(a));
    push_str_chars(&mut msg, " and ");
    push_str_chars(&mut msg, value_type_name(b));
    let s = chars_to_string(&msg);
    proof {
        assert(s@ =~= unsupported_msg(t, a@, b@));
    }
    Value::Error(s)
}

/// The error value for a unary operator applied to a type it does not
/// accept.
fn unsupported_unary(t: TokenType, a: &Value) -> (r: Value)
    ensures
        r@ == ValueModel::Error(unsupported_unary_msg(t, a@)),
{
    let mut msg: Vec<char> = Vec::new();
    push_str_chars(&mut msg, "Unsupported Unary '");
    push_str_chars(&mut msg, op_symbol(t));
    push_str_chars(&mut msg, "' on ");
    push_str_chars(&mut msg, value_type_name(a));
    let s = chars_to_string(&msg);
    proof {
        assert(s@ =~= unsupported_unary_msg(t, a@));
    }
    Value::Error(s)
}

/// Structural equality of two values.
pub fn values_equal(a: &Value, b: &Value) -> (r: bool)
    ensures
        r == vals_equal(a@, b@),
{
    match (a, b) {
        (Value::Bool(x), Value::Bool(y)) => *x == *y,
        (Value::Int(x), Value::Int(y)) => *x == *y,
        (Value::Float(x), Value::Float(y)) => {
            let c = cmp_f64_bits(*x, *y);
            match c {
                Some(s) => s == 0,
                None => false,
            }
        },
        (Value::Str(x), Value::Str(y)) => string_eq(x, y),
        (Value::Regex(x), Value::Regex(y)) => string_eq(x, y),
        (Value::Error(x), Value::Error(y)) => string_eq(x, y),
        _ => false,
    }
}

/// Whether two strings hold the same characters.
fn string_eq(a: &String, b: &String) -> (r: bool)
    ensures
        r == (a@ == b@),
{
    crate::strutil::str_eq(a.as_str(), b.as_str())
}

/// Lexicographic comparison of two strings by code point, as a signum.
fn lex_cmp_exec(a: &String, b: &String) -> (r: i8)
    ensures
        r as int == lex_cmp(a@, b@),
{
    let x = a.as_str();
    let y = b.as_str();
    let nx = x.unicode_len();
    let ny = y.unicode_len();
    proof {
        assert(x@.skip(0) =~= x@);
        assert(y@.skip(0) =~= y@);
    }
    let mut i: usize = 0;
    while i < nx && i < ny
        invariant
            i <= nx,
            i <= ny,
            nx == x@.len(),
            ny == y@.len(),
            x@ == a@,
            y@ == b@,
            lex_cmp(x@, y@) == lex_cmp(x@.skip(i as int), y@.skip(i as int)),
        decreases nx - i,
    {
        let cx = x.get_char(i) as u32;
        let cy = y.get_char(i) as u32;
        proof {
            assert(x@.skip(i as int)[0] == x@[i as int]);
            assert(y@.skip(i as int)[0] == y@[i as int]);
            assert(x@.skip(i as int).drop_first() =~= x@.skip(i as int + 1));
            assert(y@.skip(i as int).drop_first() =~= y@.skip(i as int + 1));
        }
        if cx < cy {
            return -1;
        }
        if cx > cy {
            return 1;
        }
        i = i + 1;
    }
    proof {
        assert(x@.skip(i as int).len() == nx - i);
        assert(y@.skip(i as int).len() == ny - i);
    }
    if nx == ny {
        0
    } else if nx < ny {
        -1
    } else {
        1
    }
}

/// How two values order, as a signum, or nothing where the language
/// defines no order.
pub fn compare_values(a: &Value, b: &Value) -> (r: Option<i8>)
    ensures
        match r {
            Some(s) => compare_vals(a@, b@) == Some(s as int),
            None => compare_vals(a@, b@) is None,
        },
{
    match (a, b) {
        (Value::Bool(x), Value::Bool(y)) => {
            if *x == *y {
                Some(0)
            } else if !*x {
                Some(-1)
            } else {
                Some(1)
            }
        },
        (Value::Int(x), Value::Int(y)) => {
            if *x < *y {
                Some(-1)
            } else if *x == *y {
                Some(0)
            } else {
                Some(1)
            }
        },
        (Value::Float(x), Value::Float(y)) => cmp_f64_bits(*x, *y),
        (Value::Str(x), Value::Str(y)) => Some(lex_cmp_exec(x, y)),
        _ => None,
    }
}

/// What a binary operator yields on two values: the evaluator's type rules.
pub fn apply_binary_exec(t: TokenType, a: Value, b: Value) -> (r: Value)
    ensures
        r@ == apply_binary(t, a@, b@),
{
    match t {
        TokenType::EqualEqual => Value::Bool(values_equal(&a, &b)),
        TokenType::ExclamationEqual => Value::Bool(!values_equal(&a, &b)),
        TokenType::Greater | TokenType::GreaterEqual | TokenType::Lesser | TokenType::LesserEqual => {
            match compare_values(&a, &b) {
                Some(s) => Value::Bool(
                    match t {
                        TokenType::Greater => s > 0,
                        TokenType::GreaterEqual => s >= 0,
                        TokenType::Lesser => s < 0,
                        _ => s <= 0,
                    },
                ),
                None => unsupported(t, &a, &b),
            }
        },
        TokenType::Plus => {
            match (a, b) {
                (Value::Int(x), Value::Int(y)) => Value::Int(x.wrapping_add(y)),
                (Value::Float(x), Value::Float(y)) => Value::Float(add_f64_bits(x, y)),
                (Value::Str(x), Value::Str(y)) => Value::Str(x.concat(y.as_str())),
                (a2, b2) => unsupported(t, &a2, &b2),
            }
        },
        TokenType::Minus => {
            match (a, b) {
                (Value::Int(x), Value::Int(y)) => Value::Int(x.wrapping_sub(y)),
                (Value::Float(x), Value::Float(y)) => Value::Float(sub_f64_bits(x, y)),
                (a2, b2) => unsupported(t, &a2, &b2),
            }
        },
        TokenType::Asterisk => {
            match (a, b) {
                (Value::Int(x), Value::Int(y)) => Value::Int(x.wrapping_mul(y)),
                (Value::Float(x), Value::Float(y)) => Value::Float(mul_f64_bits(x, y)),
                (a2, b2) => unsupported(t, &a2, &b2),
            }
        },
        TokenType::Slash => {
            match (a, b) {
                (Value::Int(x), Value::Int(y)) => {
                    if y == 0 {
                        Value::Error(str_to_string("Division by zero"))
                    } else {
                        match x.checked_div(y) {
                            Some(q) => Value::Int(q),
                            None => Value::Int(i64::MIN),
                        }
                    }
                },
                (Value::Float(x), Value::Float(y)) => Value::Float(div_f64_bits(x, y)),
                (a2, b2) => unsupported(t, &a2, &b2),
            }
        },
        TokenType::Percent => {
            match (a, b) {
                (Value::Int(x), Value::Int(y)) => {
                    if y == 0 {
                        Value::Error(str_to_string("Division by zero"))
                    } else {
                        match x.checked_rem(y) {
                            Some(q) => Value::Int(q),
                            None => Value::Int(0),
                        }
                    }
                },
                (Value::Float(x), Value::Float(y)) => Value::Float(rem_f64_bits(x, y)),
                (a2, b2) => unsupported(t, &a2, &b2),
            }
        },
        TokenType::AndSym => {
            match (a, b) {
                (Value::Bool(x), Value::Bool(y)) => Value::Bool(x && y),
                (Value::Int(x), Value::Int(y)) => Value::Int(x & y),
                (a2, b2) => unsupported(t, &a2, &b2),
            }
        },
        TokenType::Pipe => {
            match (a, b) {
                (Value::Bool(x), Value::Bool(y)) => Value::Bool(x || y),
                (Value::Int(x), Value::Int(y)) => Value::Int(x | y),
                (a2, b2) => unsupported(t, &a2, &b2),
            }
        },
        TokenType::LesserLesser => {
            match (a, b) {
                (Value::Int(x), Value::Int(y)) => {
                    let amt = (crate::tokens::bits_of_i64(y) % 64) as u32;
                    Value::Int(x.wrapping_shl(amt))
                },
                (a2, b2) => unsupported(t, &a2, &b2),
            }
        },
        TokenType::GreaterGreater => {
            match (a, b) {
                (Value::Int(x), Value::Int(y)) => {
                    let amt = (crate::tokens::bits_of_i64(y) % 64) as u32;
                    Value::Int(x.wrapping_shr(amt))
                },
                (a2, b2) => unsupported(t, &a2, &b2),
            }
        },
        _ => unsupported(t, &a, &b),
    }
}

/// What a unary operator yields on a value.
pub fn apply_unary_exec(t: TokenType, a: Value) -> (r: Value)
    ensures
        r@ == apply_unary(t, a@),
{
    match t {
        TokenType::Minus => {
            match a {
                Value::Int(x) => Value::Int((0i64).wrapping_sub(x)),
                Value::Float(x) => Value::Float(neg_f64_bits(x)),
                a2 => unsupported_unary(t, &a2),
            }
        },
        TokenType::Exclamation => {
            match a {
                Value::Bool(x) => Value::Bool(!x),
                a2 => unsupported_unary(t, &a2),
            }
        },
        _ => unsupported_unary(t, &a),
    }
}

} // verus!
