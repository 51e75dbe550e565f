//! The expression parser: recursive descent over the token stream,
//! climbing the precedence ladder and promoting operators over their
//! operands. What it builds is pinned to a specification-level walk of
//! the same grammar, and the tree is proved a sound arena.

use vstd::prelude::*;
use crate::errors::{ErrModel, ErrorType, ShorkError, matches_err};
use crate::strutil::{chars_to_string, push_str_chars, str_to_string};
use crate::tokens::{Token, TokenModel, TokenType, token_kind_name, token_kind_str};
use crate::tree::{
    AST, Node, NodeModel, child_link_ok, parent_link_ok, reparent, roots_of, wf_arena,
};

verus! {

/// Whether every id of an arena lies in the half-open range above `lo` and
/// up to `hi`.
pub open spec fn ids_in_range(a: Seq<NodeModel>, lo: int, hi: int) -> bool {
    forall|i: int| 0 <= i < a.len() ==> lo < (#[trigger] a[i]).id <= hi
}

/// The views of a stream of tokens.
pub open spec fn parser_token_views(ts: Seq<Token>) -> Seq<TokenModel> {
    ts.map_values(|t: Token| t@)
}

/// The leaf node that a literal parses to.
pub open spec fn literal_leaf(id: int, t: TokenModel) -> NodeModel {
    NodeModel { id, val: t, parent: None, children: Seq::<int>::empty() }
}

/// An operator promoted over an arena: every current root becomes a child
/// of a fresh node labelled with the operator, appended at the end.
pub open spec fn promote_arena(a: Seq<NodeModel>, op: TokenModel, op_id: int) -> Seq<NodeModel> {
    reparent(a, op_id).push(NodeModel { id: op_id, val: op, parent: None, children: roots_of(a) })
}

/// What one recursive-descent routine leaves behind: the tree fragment it
/// built, where the head stands, the last id handed out, and the
/// diagnostics it emitted, in order.
pub struct ParseState {
    pub tree: Seq<NodeModel>,
    pub cur: int,
    pub ids: int,
    pub errs: Seq<ErrModel>,
}

/// Whether a diagnostics queue grew by exactly the given models, in order,
/// leaving what was there before untouched.
pub open spec fn appended_match(pre: Seq<ShorkError>, post: Seq<ShorkError>, ms: Seq<ErrModel>, src: Seq<char>) -> bool {
    &&& post.len() == pre.len() + ms.len()
    &&& post.take(pre.len() as int) == pre
    &&& forall|i: int| 0 <= i < ms.len() ==> matches_err(#[trigger] post[pre.len() + i], ms[i], src)
}

/// Whether a token may open a numeric operand.
pub open spec fn operand_expected(t: TokenType) -> bool {
    t == TokenType::LeftParen || t == TokenType::Exclamation || t == TokenType::Minus || t
        == TokenType::IntegerType || t == TokenType::FloatType
}

/// Whether a token may open a term operand, which may also be a string.
pub open spec fn term_operand_expected(t: TokenType) -> bool {
    operand_expected(t) || t == TokenType::StringType
}

/// Whether a token may follow a unary `!`.
pub open spec fn bool_operand_expected(t: TokenType) -> bool {
    t == TokenType::BooleanType || t == TokenType::Exclamation || t == TokenType::LeftParen
}

/// Whether a token may follow a unary `-`.
pub open spec fn neg_operand_expected(t: TokenType) -> bool {
    t == TokenType::IntegerType || t == TokenType::FloatType || t == TokenType::Minus
}

/// The diagnostic of the soft check before a numeric operand: nothing when
/// the head may open one, else one parser error naming what was found.
pub open spec fn operand_check_errs(toks: Seq<TokenModel>, cur: int) -> Seq<ErrModel> {
    if 0 <= cur < toks.len() && !operand_expected(toks[cur].t_type) {
        seq![
            ErrModel {
                e_type: ErrorType::ParserError,
                position: toks[cur].position,
                message: "Expected number, found "@ + token_kind_name(toks[cur].t_type),
            },
        ]
    } else {
        Seq::empty()
    }
}

/// The diagnostic of the soft check before a term operand.
pub open spec fn term_operand_check_errs(toks: Seq<TokenModel>, cur: int) -> Seq<ErrModel> {
    if 0 <= cur < toks.len() && !term_operand_expected(toks[cur].t_type) {
        seq![
            ErrModel {
                e_type: ErrorType::ParserError,
                position: toks[cur].position,
                message: "Expected number, found "@ + token_kind_name(toks[cur].t_type),
            },
        ]
    } else {
        Seq::empty()
    }
}

/// The diagnostic of the soft check after a unary `!`.
pub open spec fn bool_check_errs(toks: Seq<TokenModel>, cur: int) -> Seq<ErrModel> {
    if 0 <= cur < toks.len() && !bool_operand_expected(toks[cur].t_type) {
        seq![
            ErrModel {
                e_type: ErrorType::ParserError,
                position: toks[cur].position,
                message: "Expected a boolean, '!' or '(', found "@ + token_kind_name(
                    toks[cur].t_type,
                ),
            },
        ]
    } else {
        Seq::empty()
    }
}

/// The diagnostic of the soft check after a unary `-`.
pub open spec fn neg_check_errs(toks: Seq<TokenModel>, cur: int) -> Seq<ErrModel> {
    if 0 <= cur < toks.len() && !neg_operand_expected(toks[cur].t_type) {
        seq![
            ErrModel {
                e_type: ErrorType::ParserError,
                position: toks[cur].position,
                message: "Expected a number, found "@ + token_kind_name(toks[cur].t_type),
            },
        ]
    } else {
        Seq::empty()
    }
}

/// The soft check that a unary operator runs on what follows it.
pub open spec fn unary_check_errs(op: TokenType, toks: Seq<TokenModel>, cur: int) -> Seq<ErrModel> {
    if op == TokenType::Exclamation {
        bool_check_errs(toks, cur)
    } else {
        neg_check_errs(toks, cur)
    }
}

/// The diagnostic for a missing closing parenthesis, at the token before
/// the head.
pub open spec fn missing_paren_err(toks: Seq<TokenModel>, cur: int) -> ErrModel {
    ErrModel {
        e_type: ErrorType::ParserError,
        position: toks[cur - 1].position,
        message: "Expected ')'"@,
    }
}

/// The operators of a binary level, named by the level of its operands:
/// equality operators sit over bitwise operands, bitwise over comparison,
/// comparison over term, term over factor, factor over unary.
pub open spec fn level_op(level: int, t: TokenType) -> bool {
    if level == 5 {
        t == TokenType::ExclamationEqual || t == TokenType::EqualEqual
    } else if level == 4 {
        t == TokenType::Pipe || t == TokenType::AndSym || t == TokenType::LesserLesser || t
            == TokenType::GreaterGreater
    } else if level == 3 {
        t == TokenType::Greater || t == TokenType::GreaterEqual || t == TokenType::Lesser || t
            == TokenType::LesserEqual
    } else if level == 2 {
        t == TokenType::Minus || t == TokenType::Plus
    } else {
        t == TokenType::Slash || t == TokenType::Asterisk || t == TokenType::Percent
    }
}

/// The soft check a binary level runs before its right operand: none at
/// the equality level, the term check at the term level, the numeric check
/// everywhere else.
pub open spec fn level_check_errs(level: int, toks: Seq<TokenModel>, cur: int) -> Seq<ErrModel> {
    if level == 5 {
        Seq::empty()
    } else if level == 2 {
        term_operand_check_errs(toks, cur)
    } else {
        operand_check_errs(toks, cur)
    }
}

/// One binary level's loop: as long as the head is one of the level's
/// operators, consume it, run the soft check, parse the right operand one
/// level down, and promote the operator over both fragments.
pub open spec fn parse_binary_loop(level: int, toks: Seq<TokenModel>, left: Seq<NodeModel>, cur: int, ids: int) -> ParseState
    decreases toks.len() - cur, 2int,
{
    if 0 <= cur < toks.len() && level_op(level, toks[cur].t_type) {
        let op = toks[cur];
        let check = level_check_errs(level, toks, cur + 1);
        let sub = parse_operand_at(level, toks, cur + 1, ids + 1);
        let promoted = promote_arena(left + sub.tree, op, ids + 1);
        let cur2 = if cur < sub.cur <= toks.len() {
            sub.cur
        } else {
            cur + 1
        };
        let rest = parse_binary_loop(level, toks, promoted, cur2, sub.ids);
        ParseState { tree: rest.tree, cur: rest.cur, ids: rest.ids, errs: check + sub.errs + rest.errs }
    } else {
        ParseState { tree: left, cur, ids, errs: Seq::empty() }
    }
}

/// The operand one level below a binary level.
pub open spec fn parse_operand_at(level: int, toks: Seq<TokenModel>, cur: int, ids: int) -> ParseState
    decreases toks.len() - cur, 7int,
{
    if level == 5 {
        parse_bitwise(toks, cur, ids)
    } else if level == 4 {
        parse_comparison(toks, cur, ids)
    } else if level == 3 {
        parse_term(toks, cur, ids)
    } else if level == 2 {
        parse_factor(toks, cur, ids)
    } else {
        parse_unary(toks, cur, ids)
    }
}

/// A primary: one literal leaf with a fresh id, or a parenthesized
/// expression whose missing `)` is a diagnostic, or nothing.
pub open spec fn parse_primary(toks: Seq<TokenModel>, cur: int, ids: int) -> ParseState
    decreases toks.len() - cur, 0int,
{
    if 0 <= cur < toks.len() && crate::eval::is_literal_kind(toks[cur].t_type) {
        ParseState {
            tree: seq![literal_leaf(ids + 1, toks[cur])],
            cur: cur + 1,
            ids: ids + 1,
            errs: Seq::empty(),
        }
    } else if 0 <= cur < toks.len() && toks[cur].t_type == TokenType::LeftParen {
        let sub = parse_expression(toks, cur + 1, ids);
        let cur1 = if sub.cur > cur {
            sub.cur
        } else {
            cur + 1
        };
        if 0 <= cur1 < toks.len() && toks[cur1].t_type == TokenType::RightParen {
            ParseState { tree: sub.tree, cur: cur1 + 1, ids: sub.ids, errs: sub.errs }
        } else {
            ParseState {
                tree: sub.tree,
                cur: cur1,
                ids: sub.ids,
                errs: sub.errs.push(missing_paren_err(toks, cur1)),
            }
        }
    } else {
        ParseState { tree: Seq::empty(), cur, ids, errs: Seq::empty() }
    }
}

/// A unary expression: `!` or `-` over a recursively parsed operand, the
/// operator promoted over the operand's tree with one burned and one used
/// id, or a primary.
pub open spec fn parse_unary(toks: Seq<TokenModel>, cur: int, ids: int) -> ParseState
    decreases toks.len() - cur, 1int,
{
    if 0 <= cur < toks.len() && (toks[cur].t_type == TokenType::Exclamation || toks[cur].t_type
        == TokenType::Minus) {
        let op = toks[cur];
        let check = unary_check_errs(op.t_type, toks, cur + 1);
        let sub = parse_unary(toks, cur + 1, ids + 1);
        let op_id = sub.ids + 1;
        ParseState {
            tree: promote_arena(sub.tree, op, op_id),
            cur: sub.cur,
            ids: op_id,
            errs: check + sub.errs,
        }
    } else {
        parse_primary(toks, cur, ids)
    }
}

/// A factor: a unary operand under a run of `/`, `*` and `%`.
pub open spec fn parse_factor(toks: Seq<TokenModel>, cur: int, ids: int) -> ParseState
    decreases toks.len() - cur, 3int,
{
    let sub = parse_unary(toks, cur, ids);
    let cur1 = if cur < sub.cur <= toks.len() {
        sub.cur
    } else {
        cur
    };
    let l = parse_binary_loop(1, toks, sub.tree, cur1, sub.ids);
    ParseState { tree: l.tree, cur: l.cur, ids: l.ids, errs: sub.errs + l.errs }
}

/// A term: a factor operand under a run of `-` and `+`.
pub open spec fn parse_term(toks: Seq<TokenModel>, cur: int, ids: int) -> ParseState
    decreases toks.len() - cur, 4int,
{
    let sub = parse_factor(toks, cur, ids);
    let cur1 = if cur < sub.cur <= toks.len() {
        sub.cur
    } else {
        cur
    };
    let l = parse_binary_loop(2, toks, sub.tree, cur1, sub.ids);
    ParseState { tree: l.tree, cur: l.cur, ids: l.ids, errs: sub.errs + l.errs }
}

/// A comparison: a term operand under a run of `>`, `>=`, `<` and `<=`.
pub open spec fn parse_comparison(toks: Seq<TokenModel>, cur: int, ids: int) -> ParseState
    decreases toks.len() - cur, 5int,
{
    let sub = parse_term(toks, cur, ids);
    let cur1 = if cur < sub.cur <= toks.len() {
        sub.cur
    } else {
        cur
    };
    let l = parse_binary_loop(3, toks, sub.tree, cur1, sub.ids);
    ParseState { tree: l.tree, cur: l.cur, ids: l.ids, errs: sub.errs + l.errs }
}

/// A bitwise expression: a comparison operand under a run of `|`, `&`, `<<` and `>>`.
pub open spec fn parse_bitwise(toks: Seq<TokenModel>, cur: int, ids: int) -> ParseState
    decreases toks.len() - cur, 6int,
{
    let sub = parse_comparison(toks, cur, ids);
    let cur1 = if cur < sub.cur <= toks.len() {
        sub.cur
    } else {
        cur
    };
    let l = parse_binary_loop(4, toks, sub.tree, cur1, sub.ids);
    ParseState { tree: l.tree, cur: l.cur, ids: l.ids, errs: sub.errs + l.errs }
}

/// An equality: a bitwise operand under a run of `!=` and `==`.
pub open spec fn parse_equality(toks: Seq<TokenModel>, cur: int, ids: int) -> ParseState
    decreases toks.len() - cur, 8int,
{
    let sub = parse_bitwise(toks, cur, ids);
    let cur1 = if cur < sub.cur <= toks.len() {
        sub.cur
    } else {
        cur
    };
    let l = parse_binary_loop(5, toks, sub.tree, cur1, sub.ids);
    ParseState { tree: l.tree, cur: l.cur, ids: l.ids, errs: sub.errs + l.errs }
}

/// A whole expression: the top of the precedence ladder.
pub open spec fn parse_expression(toks: Seq<TokenModel>, cur: int, ids: int) -> ParseState
    decreases toks.len() - cur, 9int,
{
    parse_equality(toks, cur, ids)
}


/// A promoted operator node has exactly the operand roots as its children,
/// the left operand's root first: the infix shape of a binary node.
pub proof fn lemma_promoted_infix_shape(a: Seq<NodeModel>, b: Seq<NodeModel>, op: TokenModel, op_id: int)
    requires
        roots_of(a).len() == 1,
        roots_of(b).len() == 1,
    ensures
        ({
            let p = promote_arena(a + b, op, op_id);
            &&& p.last().val == op
            &&& p.last().id == op_id
            &&& p.last().children.len() == 2
            &&& p.last().children[0] == roots_of(a)[0]
            &&& p.last().children[1] == roots_of(b)[0]
        }),
{
    lemma_roots_concat(a, b);
}

/// A promoted unary node has exactly one child: the operand's root.
pub proof fn lemma_promoted_unary_shape(a: Seq<NodeModel>, op: TokenModel, op_id: int)
    requires
        roots_of(a).len() == 1,
    ensures
        ({
            let p = promote_arena(a, op, op_id);
            &&& p.last().val == op
            &&& p.last().id == op_id
            &&& p.last().children.len() == 1
            &&& p.last().children[0] == roots_of(a)[0]
        }),
{
}

/// An id is a root of an arena exactly when some node carries it with no
/// parent.
proof fn lemma_roots_membership(a: Seq<NodeModel>, c: int)
    ensures
        roots_of(a).contains(c) <==> exists|j: int|
            0 <= j < a.len() && a[j].id == c && a[j].parent is None,
    decreases a.len(),
{
    if a.len() > 0 {
        lemma_roots_membership(a.drop_last(), c);
        if roots_of(a.drop_last()).contains(c) {
            let j = choose|j: int|
                0 <= j < a.drop_last().len() && a.drop_last()[j].id == c && a.drop_last()[j].parent
                    is None;
            assert(a[j] == a.drop_last()[j]);
        }
        if a.last().parent is None && a.last().id == c {
            assert(roots_of(a).last() == c);
        }
        if exists|j: int| 0 <= j < a.len() && a[j].id == c && a[j].parent is None {
            let j = choose|j: int| 0 <= j < a.len() && a[j].id == c && a[j].parent is None;
            if j < a.len() - 1 {
                assert(a.drop_last()[j] == a[j]);
                assert(roots_of(a.drop_last()).contains(c));
                let k = choose|k: int| 0 <= k < roots_of(a.drop_last()).len() && roots_of(a.drop_last())[k] == c;
                assert(roots_of(a)[k] == c);
            }
        }
    }
}

/// The roots of two arenas laid end to end are the roots of each, in order.
proof fn lemma_roots_concat(a: Seq<NodeModel>, b: Seq<NodeModel>)
    ensures
        roots_of(a + b) == roots_of(a) + roots_of(b),
    decreases b.len(),
{
    if b.len() == 0 {
        assert(a + b =~= a);
        assert(roots_of(a) + roots_of(b) =~= roots_of(a));
    } else {
        lemma_roots_concat(a, b.drop_last());
        assert((a + b).drop_last() =~= a + b.drop_last());
        assert((a + b).last() == b.last());
        assert(roots_of(a + b) =~= roots_of(a) + roots_of(b));
    }
}

/// An arena whose nodes all have parents has no roots.
proof fn lemma_no_parentless_no_roots(a: Seq<NodeModel>)
    requires
        forall|i: int| 0 <= i < a.len() ==> (#[trigger] a[i]).parent is Some,
    ensures
        roots_of(a).len() == 0,
    decreases a.len(),
{
    if a.len() > 0 {
        assert(forall|i: int|
            0 <= i < a.drop_last().len() ==> (#[trigger] a.drop_last()[i]).parent is Some);
        lemma_no_parentless_no_roots(a.drop_last());
    }
}

/// Laying two well-formed arenas with disjoint ids end to end keeps every
/// link consistent and every id unique.
proof fn lemma_wf_concat(a: Seq<NodeModel>, b: Seq<NodeModel>)
    requires
        wf_arena(a),
        wf_arena(b),
        forall|i: int, j: int|
            0 <= i < a.len() && 0 <= j < b.len() ==> (#[trigger] a[i]).id != (#[trigger] b[j]).id,
    ensures
        wf_arena(a + b),
{
    let c = a + b;
    assert forall|i: int, j: int| 0 <= i < j < c.len() implies c[i].id != c[j].id by {
        if j < a.len() {
        } else if i >= a.len() {
            assert(c[i] == b[i - a.len()]);
            assert(c[j] == b[j - a.len()]);
        } else {
            assert(c[i] == a[i]);
            assert(c[j] == b[j - a.len()]);
        }
    }
    assert forall|i: int, k: int|
        0 <= i < c.len() && 0 <= k < c[i].children.len() implies child_link_ok(
        c,
        c[i].id,
        #[trigger] c[i].children[k],
    ) by {
        if i < a.len() {
            assert(child_link_ok(a, a[i].id, a[i].children[k]));
            let j = choose|j: int|
                0 <= j < a.len() && a[j].id == a[i].children[k] && a[j].parent == Some(a[i].id);
            assert(c[j] == a[j]);
        } else {
            let i2 = i - a.len();
            assert(c[i] == b[i2]);
            assert(child_link_ok(b, b[i2].id, b[i2].children[k]));
            let j = choose|j: int|
                0 <= j < b.len() && b[j].id == b[i2].children[k] && b[j].parent == Some(b[i2].id);
            assert(c[j + a.len()] == b[j]);
        }
    }
    assert forall|i: int| 0 <= i < c.len() && c[i].parent is Some implies parent_link_ok(
        c,
        c[i].id,
        (#[trigger] c[i].parent)->0,
    ) by {
        if i < a.len() {
            assert(parent_link_ok(a, a[i].id, a[i].parent->0));
            let j = choose|j: int|
                0 <= j < a.len() && a[j].id == a[i].parent->0 && a[j].children.contains(a[i].id);
            assert(c[j] == a[j]);
        } else {
            let i2 = i - a.len();
            assert(c[i] == b[i2]);
            assert(parent_link_ok(b, b[i2].id, b[i2].parent->0));
            let j = choose|j: int|
                0 <= j < b.len() && b[j].id == b[i2].parent->0 && b[j].children.contains(b[i2].id);
            assert(c[j + a.len()] == b[j]);
        }
    }
}

/// Promoting a fresh operator node over a well-formed arena: every current
/// root becomes its child, the node is appended, and the arena stays well
/// formed with the operator as its only root.
proof fn lemma_wf_promote(a: Seq<NodeModel>, op: NodeModel)
    requires
        wf_arena(a),
        forall|i: int| 0 <= i < a.len() ==> (#[trigger] a[i]).id != op.id,
        op.parent is None,
        op.children == roots_of(a),
    ensures
        wf_arena(reparent(a, op.id).push(op)),
        roots_of(reparent(a, op.id).push(op)) == seq![op.id],
{
    let a2 = reparent(a, op.id);
    let c = a2.push(op);
    let n = a.len() as int;

    // ids are unchanged by reparenting, so they stay unique, and the new id is fresh
    assert forall|i: int, j: int| 0 <= i < j < c.len() implies c[i].id != c[j].id by {
        if j < n {
            assert(c[i] == a2[i] && c[j] == a2[j]);
            assert(a2[i].id == a[i].id && a2[j].id == a[j].id);
        } else {
            if i < n {
                assert(c[i].id == a[i].id);
            }
        }
    }

    // every child link still points back
    assert forall|i: int, k: int|
        0 <= i < c.len() && 0 <= k < c[i].children.len() implies child_link_ok(
        c,
        c[i].id,
        #[trigger] c[i].children[k],
    ) by {
        if i < n {
            assert(c[i].children == a[i].children);
            assert(c[i].id == a[i].id);
            assert(child_link_ok(a, a[i].id, a[i].children[k]));
            let j = choose|j: int|
                0 <= j < a.len() && a[j].id == a[i].children[k] && a[j].parent == Some(a[i].id);
            assert(c[j].id == a[j].id);
            assert(c[j].parent == Some(a[i].id));
        } else {
            // the operator's children are the old roots
            assert(c[i] == op);
            let cid = op.children[k];
            assert(roots_of(a).contains(cid));
            lemma_roots_membership(a, cid);
            let j = choose|j: int| 0 <= j < a.len() && a[j].id == cid && a[j].parent is None;
            assert(c[j].id == cid);
            assert(c[j].parent == Some(op.id));
        }
    }

    // every parent link still points back
    assert forall|i: int| 0 <= i < c.len() && c[i].parent is Some implies parent_link_ok(
        c,
        c[i].id,
        (#[trigger] c[i].parent)->0,
    ) by {
        if i < n {
            if a[i].parent is Some {
                assert(c[i] == a2[i]);
                assert(c[i].id == a[i].id && c[i].parent == a[i].parent);
                assert(parent_link_ok(a, a[i].id, a[i].parent->0));
                let j = choose|j: int|
                    0 <= j < a.len() && a[j].id == a[i].parent->0 && a[j].children.contains(
                        a[i].id,
                    );
                assert(c[j].id == a[j].id);
                assert(c[j].children == a[j].children);
            } else {
                // a former root: its parent is now the operator
                assert(c[i].parent == Some(op.id));
                lemma_roots_membership(a, a[i].id);
                assert(roots_of(a).contains(a[i].id));
                assert(c[n] == op);
                assert(c[n].children.contains(c[i].id));
            }
        }
    }

    // the operator is the only root
    assert forall|i: int| 0 <= i < a2.len() implies (#[trigger] a2[i]).parent is Some by {}
    lemma_no_parentless_no_roots(a2);
    assert(c.drop_last() =~= a2);
    assert(roots_of(c) =~= seq![op.id]);
}

/// A single parentless leaf is a well-formed arena with itself as root.
proof fn lemma_wf_leaf(nm: NodeModel)
    requires
        nm.parent is None,
        nm.children.len() == 0,
    ensures
        wf_arena(seq![nm]),
        roots_of(seq![nm]) == seq![nm.id],
{
    let a = seq![nm];
    assert(a.drop_last() =~= Seq::<NodeModel>::empty());
    assert(a.drop_last().len() == 0);
    assert(roots_of(a.drop_last()).len() == 0);
    assert(a.last() == nm);
    assert(roots_of(a) =~= seq![nm.id]);
}


/// Stepping the error bookkeeping across one loop iteration: the queue
/// grew by a check batch and an operand batch, both matching the front of
/// what the specification walk still owes.
proof fn lemma_loop_step_errs(
    errs0: Seq<ShorkError>,
    eb: Seq<ShorkError>,
    ec: Seq<ShorkError>,
    ef: Seq<ShorkError>,
    target: Seq<ErrModel>,
    check: Seq<ErrModel>,
    sub: Seq<ErrModel>,
    rest: Seq<ErrModel>,
    src: Seq<char>,
)
    requires
        eb.len() >= errs0.len(),
        eb.take(errs0.len() as int) == errs0,
        target.len() == (eb.len() - errs0.len()) + check.len() + sub.len() + rest.len(),
        target.skip(eb.len() - errs0.len()) == check + sub + rest,
        forall|i: int|
            0 <= i < eb.len() - errs0.len() ==> matches_err(
                #[trigger] eb[errs0.len() + i],
                target[i],
                src,
            ),
        appended_match(eb, ec, check, src),
        appended_match(ec, ef, sub, src),
    ensures
        ef.len() >= errs0.len(),
        ef.take(errs0.len() as int) == errs0,
        target.len() == (ef.len() - errs0.len()) + rest.len(),
        target.skip(ef.len() - errs0.len()) == rest,
        forall|i: int|
            0 <= i < ef.len() - errs0.len() ==> matches_err(
                #[trigger] ef[errs0.len() + i],
                target[i],
                src,
            ),
{
    let k = eb.len() - errs0.len();
    let kf = ef.len() - errs0.len();
    assert(ef.take(ec.len() as int).take(eb.len() as int) =~= ef.take(eb.len() as int));
    assert(ec.take(eb.len() as int).take(errs0.len() as int) =~= ec.take(errs0.len() as int));
    assert(ef.take(eb.len() as int).take(errs0.len() as int) =~= ef.take(errs0.len() as int));
    assert(ef.take(errs0.len() as int) =~= errs0);
    assert(target.skip(kf) =~= target.skip(k).skip(check.len() + sub.len() as int));
    assert((check + sub + rest).skip(check.len() + sub.len() as int) =~= rest);
    assert forall|i: int| 0 <= i < kf implies matches_err(
        #[trigger] ef[errs0.len() + i],
        target[i],
        src,
    ) by {
        if i < k {
            assert(ef[errs0.len() + i] == ef.take(eb.len() as int)[errs0.len() + i]);
            assert(ef.take(eb.len() as int) =~= ec.take(eb.len() as int));
            assert(ec.take(eb.len() as int)[errs0.len() + i] == ec[errs0.len() + i]);
            assert(ec[errs0.len() + i] == ec.take(ec.len() as int)[errs0.len() + i]);
            assert(ef.take(ec.len() as int)[errs0.len() + i] == ef[errs0.len() + i]);
            assert(ec.take(eb.len() as int)[errs0.len() + i] == eb[errs0.len() + i]) by {
                assert(ec.take(eb.len() as int) =~= eb);
            }
        } else if i < k + check.len() {
            assert(target[i] == target.skip(k)[i - k]);
            assert((check + sub + rest)[i - k] == check[i - k]);
            assert(ef[errs0.len() + i] == ef.take(ec.len() as int)[errs0.len() + i]);
            assert(ef.take(ec.len() as int) =~= ec);
            assert(ec[eb.len() + (i - k)] == ef[errs0.len() + i]);
        } else {
            assert(target[i] == target.skip(k)[i - k]);
            assert((check + sub + rest)[i - k] == sub[i - k - check.len()]);
            assert(ef[ec.len() + (i - k - check.len())] == ef[errs0.len() + i]);
        }
    }
}

/// Build an AST for expressions given a token stream
pub struct ExprParser {
    current: usize,
    tokens: Vec<Token>,
    tree: AST,
    id_offset: usize,
    source: String,
    errors: Vec<ShorkError>,
}

impl ExprParser {
    /// The token stream being parsed.
    pub closed spec fn toks(&self) -> Seq<TokenModel> {
        parser_token_views(self.tokens@)
    }

    /// Where the parser stands in the token stream.
    pub closed spec fn cur(&self) -> int {
        self.current as int
    }

    /// The last node id handed out.
    pub closed spec fn ids(&self) -> int {
        self.id_offset as int
    }

    /// The source, for diagnostics.
    pub closed spec fn src(&self) -> Seq<char> {
        self.source@
    }

    /// The tree built so far.
    pub closed spec fn tree_model(&self) -> Seq<NodeModel> {
        self.tree@
    }

    /// The diagnostics recorded so far.
    pub closed spec fn errors_model(&self) -> Seq<ShorkError> {
        self.errors@
    }

    /// A parser in a sound state: the stream ends with an end-of-file
    /// token, the head has not passed it, and enough id space is left.
    pub closed spec fn wf(&self) -> bool {
        &&& self.toks().len() > 0
        &&& self.toks().last().t_type == TokenType::Eof
        &&& self.current < self.toks().len()
        &&& self.id_offset + 2 * (self.toks().len() - self.current) <= usize::MAX
    }

    /// create a new expression parser
    pub fn new(tokens: Vec<Token>, id_offset: usize, source: String) -> (p: ExprParser)
        requires
            parser_token_views(tokens@).len() > 0,
            parser_token_views(tokens@).last().t_type == TokenType::Eof,
            id_offset + 2 * tokens@.len() <= usize::MAX,
        ensures
            p.wf(),
            p.toks() == parser_token_views(tokens@),
            p.cur() == 0,
            p.ids() == id_offset as int,
            p.src() == source@,
            p.tree_model() == Seq::<NodeModel>::empty(),
            p.errors_model() == Seq::<ShorkError>::empty(),
    {
        ExprParser {
            current: 0,
            tokens,
            tree: AST::new(),
            id_offset,
            source,
            errors: Vec::new(),
        }
    }

    /// get the tree
    pub fn tree(&self) -> (r: &AST)
        ensures
            r@ == self.tree_model(),
    {
        &self.tree
    }

    /// get the diagnostics that parsing produced
    pub fn get_errors(&self) -> (r: &Vec<ShorkError>)
        ensures
            r@ == self.errors_model(),
    {
        &self.errors
    }

    /// Parse the given expression and populate the AST
    ///
    /// Parsing never halts: every problem becomes a ParserError diagnostic
    /// and the parser builds what tree it can. The tree and the diagnostics
    /// are pinned to `parse_expression`, the specification-level walk of
    /// the grammar; the tree is moreover a sound arena: no two nodes share
    /// an id, every parent/child link exists and agrees in both directions,
    /// and a nonempty tree has exactly one root.
    pub fn parse(&mut self)
        requires
            old(self).wf(),
        ensures
            final(self).wf(),
            final(self).toks() == old(self).toks(),
            final(self).src() == old(self).src(),
            wf_arena(final(self).tree_model()),
            roots_of(final(self).tree_model()).len() <= 1,
            final(self).tree_model().len() > 0 ==> roots_of(final(self).tree_model()).len() == 1,
            ids_in_range(final(self).tree_model(), old(self).ids(), final(self).ids()),
            ({
                let st = parse_expression(old(self).toks(), old(self).cur(), old(self).ids());
                &&& final(self).tree_model() == st.tree
                &&& final(self).cur() == st.cur
                &&& final(self).ids() == st.ids
                &&& appended_match(
                    old(self).errors_model(),
                    final(self).errors_model(),
                    st.errs,
                    old(self).src(),
                )
            }),
    {
        let t = self.expression();
        self.tree = t;
    }

    /// parse expressions
    fn expression(&mut self) -> (t: AST)
        requires
            old(self).wf(),
        ensures
            final(self).wf(),
            final(self).toks() == old(self).toks(),
            final(self).src() == old(self).src(),
            final(self).tree_model() == old(self).tree_model(),
            old(self).cur() <= final(self).cur(),
            old(self).ids() <= final(self).ids(),
            final(self).ids() - old(self).ids() <= 2 * (final(self).cur() - old(self).cur()),
            wf_arena(t@),
            roots_of(t@).len() <= 1,
            t@.len() > 0 ==> roots_of(t@).len() == 1,
            ids_in_range(t@, old(self).ids(), final(self).ids()),
            ({
                let st = parse_expression(old(self).toks(), old(self).cur(), old(self).ids());
                &&& t@ == st.tree
                &&& final(self).cur() == st.cur
                &&& final(self).ids() == st.ids
                &&& appended_match(
                    old(self).errors_model(),
                    final(self).errors_model(),
                    st.errs,
                    old(self).src(),
                )
            }),
        decreases old(self).toks().len() - old(self).cur(), 10int,
    {
        self.equality()
    }

    /// parse equality expressions
    #[verifier::rlimit(100)]
    #[verifier::spinoff_prover]
    fn equality(&mut self) -> (t: AST)
        requires
            old(self).wf(),
        ensures
            final(self).wf(),
            final(self).toks() == old(self).toks(),
            final(self).src() == old(self).src(),
            final(self).tree_model() == old(self).tree_model(),
            old(self).cur() <= final(self).cur(),
            old(self).ids() <= final(self).ids(),
            final(self).ids() - old(self).ids() <= 2 * (final(self).cur() - old(self).cur()),
            wf_arena(t@),
            roots_of(t@).len() <= 1,
            t@.len() > 0 ==> roots_of(t@).len() == 1,
            ids_in_range(t@, old(self).ids(), final(self).ids()),
            ({
                let st = parse_equality(old(self).toks(), old(self).cur(), old(self).ids());
                &&& t@ == st.tree
                &&& final(self).cur() == st.cur
                &&& final(self).ids() == st.ids
                &&& appended_match(
                    old(self).errors_model(),
                    final(self).errors_model(),
                    st.errs,
                    old(self).src(),
                )
            }),
        decreases old(self).toks().len() - old(self).cur(), 9int,
    {
        let ghost toks = self.toks();
        let ghost src0 = self.src();
        let ghost cur0 = self.cur();
        let ghost ids0 = self.ids();
        let ghost errs0 = self.errors_model();
        let mut tree = self.bitwise();
        proof {
            let sub = parse_bitwise(toks, cur0, ids0);
            let target = parse_equality(toks, cur0, ids0);
            let now = parse_binary_loop(5, toks, tree@, self.cur(), self.ids());
            assert(target.errs =~= sub.errs + now.errs);
            assert(target.errs.skip(sub.errs.len() as int) =~= now.errs);
            assert forall|i: int| 0 <= i < sub.errs.len() implies matches_err(
                #[trigger] self.errors_model()[errs0.len() + i],
                target.errs[i],
                src0,
            ) by {
                assert(target.errs[i] == (sub.errs + now.errs)[i]);
            }
        }
        loop
            invariant
                self.wf(),
                toks == old(self).toks(),
                src0 == old(self).src(),
                cur0 == old(self).cur(),
                ids0 == old(self).ids(),
                errs0 == old(self).errors_model(),
                self.toks() == toks,
                self.src() == src0,
                self.tree_model() == old(self).tree_model(),
                cur0 <= self.cur(),
                ids0 <= self.ids(),
                self.ids() - ids0 <= 2 * (self.cur() - cur0),
                wf_arena(tree@),
                roots_of(tree@).len() <= 1,
                tree@.len() > 0 ==> roots_of(tree@).len() == 1,
                ids_in_range(tree@, ids0, self.ids()),
                self.errors_model().len() >= errs0.len(),
                self.errors_model().take(errs0.len() as int) == errs0,
                ({
                    let target = parse_equality(toks, cur0, ids0);
                    let now = parse_binary_loop(5, toks, tree@, self.cur(), self.ids());
                    let k = self.errors_model().len() - errs0.len();
                    &&& now.tree == target.tree
                    &&& now.cur == target.cur
                    &&& now.ids == target.ids
                    &&& target.errs.len() == k + now.errs.len()
                    &&& target.errs.skip(k) == now.errs
                    &&& forall|i: int|
                        0 <= i < k ==> matches_err(
                            #[trigger] self.errors_model()[errs0.len() + i],
                            target.errs[i],
                            src0,
                        )
                }),
            ensures
                !(self.cur() < toks.len() && level_op(5, toks[self.cur()].t_type)),
            decreases self.toks().len() - self.cur(),
        {
            let ghost curA = self.cur();
            let ghost idsA = self.ids();
            let ghost treeA = tree@;
            let ghost errsA = self.errors_model();
            if !self.match_token2(TokenType::ExclamationEqual, TokenType::EqualEqual) {
                break;
            }
            let ghost errsC = self.errors_model();
            proof {
                assert(errsA.take(errsA.len() as int) =~= errsA);
            }
            tree = self.binary_step(tree, 5, Ghost(ids0));
            proof {
                let target = parse_equality(toks, cur0, ids0);
                let ch = level_check_errs(5, toks, curA + 1);
                let sub = parse_operand_at(5, toks, curA + 1, idsA + 1);
                let now0 = parse_binary_loop(5, toks, treeA, curA, idsA);
                let rest = parse_binary_loop(5, toks, tree@, self.cur(), self.ids());
                assert(now0.errs =~= ch + sub.errs + rest.errs);
                lemma_loop_step_errs(
                    errs0,
                    errsA,
                    errsC,
                    self.errors_model(),
                    target.errs,
                    ch,
                    sub.errs,
                    rest.errs,
                    src0,
                );
            }
        }
        proof {
            let target = parse_equality(toks, cur0, ids0);
            let now = parse_binary_loop(5, toks, tree@, self.cur(), self.ids());
            assert(now.errs =~= Seq::<ErrModel>::empty());
            assert(target.errs.len() == self.errors_model().len() - errs0.len());
        }
        tree
    }

    /// parse bitwise expressions
    #[verifier::rlimit(100)]
    #[verifier::spinoff_prover]
    fn bitwise(&mut self) -> (t: AST)
        requires
            old(self).wf(),
        ensures
            final(self).wf(),
            final(self).toks() == old(self).toks(),
            final(self).src() == old(self).src(),
            final(self).tree_model() == old(self).tree_model(),
            old(self).cur() <= final(self).cur(),
            old(self).ids() <= final(self).ids(),
            final(self).ids() - old(self).ids() <= 2 * (final(self).cur() - old(self).cur()),
            wf_arena(t@),
            roots_of(t@).len() <= 1,
            t@.len() > 0 ==> roots_of(t@).len() == 1,
            ids_in_range(t@, old(self).ids(), final(self).ids()),
            ({
                let st = parse_bitwise(old(self).toks(), old(self).cur(), old(self).ids());
                &&& t@ == st.tree
                &&& final(self).cur() == st.cur
                &&& final(self).ids() == st.ids
                &&& appended_match(
                    old(self).errors_model(),
                    final(self).errors_model(),
                    st.errs,
                    old(self).src(),
                )
            }),
        decreases old(self).toks().len() - old(self).cur(), 7int,
    {
        let ghost toks = self.toks();
        let ghost src0 = self.src();
        let ghost cur0 = self.cur();
        let ghost ids0 = self.ids();
        let ghost errs0 = self.errors_model();
        let mut tree = self.comparison();
        proof {
            let sub = parse_comparison(toks, cur0, ids0);
            let target = parse_bitwise(toks, cur0, ids0);
            let now = parse_binary_loop(4, toks, tree@, self.cur(), self.ids());
            assert(target.errs =~= sub.errs + now.errs);
            assert(target.errs.skip(sub.errs.len() as int) =~= now.errs);
            assert forall|i: int| 0 <= i < sub.errs.len() implies matches_err(
                #[trigger] self.errors_model()[errs0.len() + i],
                target.errs[i],
                src0,
            ) by {
                assert(target.errs[i] == (sub.errs + now.errs)[i]);
            }
        }
        loop
            invariant
                self.wf(),
                toks == old(self).toks(),
                src0 == old(self).src(),
                cur0 == old(self).cur(),
                ids0 == old(self).ids(),
                errs0 == old(self).errors_model(),
                self.toks() == toks,
                self.src() == src0,
                self.tree_model() == old(self).tree_model(),
                cur0 <= self.cur(),
                ids0 <= self.ids(),
                self.ids() - ids0 <= 2 * (self.cur() - cur0),
                wf_arena(tree@),
                roots_of(tree@).len() <= 1,
                tree@.len() > 0 ==> roots_of(tree@).len() == 1,
                ids_in_range(tree@, ids0, self.ids()),
                self.errors_model().len() >= errs0.len(),
                self.errors_model().take(errs0.len() as int) == errs0,
                ({
                    let target = parse_bitwise(toks, cur0, ids0);
                    let now = parse_binary_loop(4, toks, tree@, self.cur(), self.ids());
                    let k = self.errors_model().len() - errs0.len();
                    &&& now.tree == target.tree
                    &&& now.cur == target.cur
                    &&& now.ids == target.ids
                    &&& target.errs.len() == k + now.errs.len()
                    &&& target.errs.skip(k) == now.errs
                    &&& forall|i: int|
                        0 <= i < k ==> matches_err(
                            #[trigger] self.errors_model()[errs0.len() + i],
                            target.errs[i],
                            src0,
                        )
                }),
            ensures
                !(self.cur() < toks.len() && level_op(4, toks[self.cur()].t_type)),
            decreases self.toks().len() - self.cur(),
        {
            let ghost curA = self.cur();
            let ghost idsA = self.ids();
            let ghost treeA = tree@;
            let ghost errsA = self.errors_model();
            if !self.match_token4(
                TokenType::Pipe,
                TokenType::AndSym,
                TokenType::LesserLesser,
                TokenType::GreaterGreater,
            ) {
                break;
            }
            self.operand_check();
            let ghost errsC = self.errors_model();
            tree = self.binary_step(tree, 4, Ghost(ids0));
            proof {
                let target = parse_bitwise(toks, cur0, ids0);
                let ch = level_check_errs(4, toks, curA + 1);
                let sub = parse_operand_at(4, toks, curA + 1, idsA + 1);
                let now0 = parse_binary_loop(4, toks, treeA, curA, idsA);
                let rest = parse_binary_loop(4, toks, tree@, self.cur(), self.ids());
                assert(now0.errs =~= ch + sub.errs + rest.errs);
                lemma_loop_step_errs(
                    errs0,
                    errsA,
                    errsC,
                    self.errors_model(),
                    target.errs,
                    ch,
                    sub.errs,
                    rest.errs,
                    src0,
                );
            }
        }
        proof {
            let target = parse_bitwise(toks, cur0, ids0);
            let now = parse_binary_loop(4, toks, tree@, self.cur(), self.ids());
            assert(now.errs =~= Seq::<ErrModel>::empty());
            assert(target.errs.len() == self.errors_model().len() - errs0.len());
        }
        tree
    }

    /// parse comparisons
    #[verifier::rlimit(100)]
    #[verifier::spinoff_prover]
    fn comparison(&mut self) -> (t: AST)
        requires
            old(self).wf(),
        ensures
            final(self).wf(),
            final(self).toks() == old(self).toks(),
            final(self).src() == old(self).src(),
            final(self).tree_model() == old(self).tree_model(),
            old(self).cur() <= final(self).cur(),
            old(self).ids() <= final(self).ids(),
            final(self).ids() - old(self).ids() <= 2 * (final(self).cur() - old(self).cur()),
            wf_arena(t@),
            roots_of(t@).len() <= 1,
            t@.len() > 0 ==> roots_of(t@).len() == 1,
            ids_in_range(t@, old(self).ids(), final(self).ids()),
            ({
                let st = parse_comparison(old(self).toks(), old(self).cur(), old(self).ids());
                &&& t@ == st.tree
                &&& final(self).cur() == st.cur
                &&& final(self).ids() == st.ids
                &&& appended_match(
                    old(self).errors_model(),
                    final(self).errors_model(),
                    st.errs,
                    old(self).src(),
                )
            }),
        decreases old(self).toks().len() - old(self).cur(), 6int,
    {
        let ghost toks = self.toks();
        let ghost src0 = self.src();
        let ghost cur0 = self.cur();
        let ghost ids0 = self.ids();
        let ghost errs0 = self.errors_model();
        let mut tree = self.term();
        proof {
            let sub = parse_term(toks, cur0, ids0);
            let target = parse_comparison(toks, cur0, ids0);
            let now = parse_binary_loop(3, toks, tree@, self.cur(), self.ids());
            assert(target.errs =~= sub.errs + now.errs);
            assert(target.errs.skip(sub.errs.len() as int) =~= now.errs);
            assert forall|i: int| 0 <= i < sub.errs.len() implies matches_err(
                #[trigger] self.errors_model()[errs0.len() + i],
                target.errs[i],
                src0,
            ) by {
                assert(target.errs[i] == (sub.errs + now.errs)[i]);
            }
        }
        loop
            invariant
                self.wf(),
                toks == old(self).toks(),
                src0 == old(self).src(),
                cur0 == old(self).cur(),
                ids0 == old(self).ids(),
                errs0 == old(self).errors_model(),
                self.toks() == toks,
                self.src() == src0,
                self.tree_model() == old(self).tree_model(),
                cur0 <= self.cur(),
                ids0 <= self.ids(),
                self.ids() - ids0 <= 2 * (self.cur() - cur0),
                wf_arena(tree@),
                roots_of(tree@).len() <= 1,
                tree@.len() > 0 ==> roots_of(tree@).len() == 1,
                ids_in_range(tree@, ids0, self.ids()),
                self.errors_model().len() >= errs0.len(),
                self.errors_model().take(errs0.len() as int) == errs0,
                ({
                    let target = parse_comparison(toks, cur0, ids0);
                    let now = parse_binary_loop(3, toks, tree@, self.cur(), self.ids());
                    let k = self.errors_model().len() - errs0.len();
                    &&& now.tree == target.tree
                    &&& now.cur == target.cur
                    &&& now.ids == target.ids
                    &&& target.errs.len() == k + now.errs.len()
                    &&& target.errs.skip(k) == now.errs
                    &&& forall|i: int|
                        0 <= i < k ==> matches_err(
                            #[trigger] self.errors_model()[errs0.len() + i],
                            target.errs[i],
                            src0,
                        )
                }),
            ensures
                !(self.cur() < toks.len() && level_op(3, toks[self.cur()].t_type)),
            decreases self.toks().len() - self.cur(),
        {
            let ghost curA = self.cur();
            let ghost idsA = self.ids();
            let ghost treeA = tree@;
            let ghost errsA = self.errors_model();
            if !self.match_token4(
                TokenType::Greater,
                TokenType::GreaterEqual,
                TokenType::Lesser,
                TokenType::LesserEqual,
            ) {
                break;
            }
            self.operand_check();
            let ghost errsC = self.errors_model();
            tree = self.binary_step(tree, 3, Ghost(ids0));
            proof {
                let target = parse_comparison(toks, cur0, ids0);
                let ch = level_check_errs(3, toks, curA + 1);
                let sub = parse_operand_at(3, toks, curA + 1, idsA + 1);
                let now0 = parse_binary_loop(3, toks, treeA, curA, idsA);
                let rest = parse_binary_loop(3, toks, tree@, self.cur(), self.ids());
                assert(now0.errs =~= ch + sub.errs + rest.errs);
                lemma_loop_step_errs(
                    errs0,
                    errsA,
                    errsC,
                    self.errors_model(),
                    target.errs,
                    ch,
                    sub.errs,
                    rest.errs,
                    src0,
                );
            }
        }
        proof {
            let target = parse_comparison(toks, cur0, ids0);
            let now = parse_binary_loop(3, toks, tree@, self.cur(), self.ids());
            assert(now.errs =~= Seq::<ErrModel>::empty());
            assert(target.errs.len() == self.errors_model().len() - errs0.len());
        }
        tree
    }

    /// parse terms
    #[verifier::rlimit(100)]
    #[verifier::spinoff_prover]
    fn term(&mut self) -> (t: AST)
        requires
            old(self).wf(),
        ensures
            final(self).wf(),
            final(self).toks() == old(self).toks(),
            final(self).src() == old(self).src(),
            final(self).tree_model() == old(self).tree_model(),
            old(self).cur() <= final(self).cur(),
            old(self).ids() <= final(self).ids(),
            final(self).ids() - old(self).ids() <= 2 * (final(self).cur() - old(self).cur()),
            wf_arena(t@),
            roots_of(t@).len() <= 1,
            t@.len() > 0 ==> roots_of(t@).len() == 1,
            ids_in_range(t@, old(self).ids(), final(self).ids()),
            ({
                let st = parse_term(old(self).toks(), old(self).cur(), old(self).ids());
                &&& t@ == st.tree
                &&& final(self).cur() == st.cur
                &&& final(self).ids() == st.ids
                &&& appended_match(
                    old(self).errors_model(),
                    final(self).errors_model(),
                    st.errs,
                    old(self).src(),
                )
            }),
        decreases old(self).toks().len() - old(self).cur(), 5int,
    {
        let ghost toks = self.toks();
        let ghost src0 = self.src();
        let ghost cur0 = self.cur();
        let ghost ids0 = self.ids();
        let ghost errs0 = self.errors_model();
        let mut tree = self.factor();
        proof {
            let sub = parse_factor(toks, cur0, ids0);
            let target = parse_term(toks, cur0, ids0);
            let now = parse_binary_loop(2, toks, tree@, self.cur(), self.ids());
            assert(target.errs =~= sub.errs + now.errs);
            assert(target.errs.skip(sub.errs.len() as int) =~= now.errs);
            assert forall|i: int| 0 <= i < sub.errs.len() implies matches_err(
                #[trigger] self.errors_model()[errs0.len() + i],
                target.errs[i],
                src0,
            ) by {
                assert(target.errs[i] == (sub.errs + now.errs)[i]);
            }
        }
        loop
            invariant
                self.wf(),
                toks == old(self).toks(),
                src0 == old(self).src(),
                cur0 == old(self).cur(),
                ids0 == old(self).ids(),
                errs0 == old(self).errors_model(),
                self.toks() == toks,
                self.src() == src0,
                self.tree_model() == old(self).tree_model(),
                cur0 <= self.cur(),
                ids0 <= self.ids(),
                self.ids() - ids0 <= 2 * (self.cur() - cur0),
                wf_arena(tree@),
                roots_of(tree@).len() <= 1,
                tree@.len() > 0 ==> roots_of(tree@).len() == 1,
                ids_in_range(tree@, ids0, self.ids()),
                self.errors_model().len() >= errs0.len(),
                self.errors_model().take(errs0.len() as int) == errs0,
                ({
                    let target = parse_term(toks, cur0, ids0);
                    let now = parse_binary_loop(2, toks, tree@, self.cur(), self.ids());
                    let k = self.errors_model().len() - errs0.len();
                    &&& now.tree == target.tree
                    &&& now.cur == target.cur
                    &&& now.ids == target.ids
                    &&& target.errs.len() == k + now.errs.len()
                    &&& target.errs.skip(k) == now.errs
                    &&& forall|i: int|
                        0 <= i < k ==> matches_err(
                            #[trigger] self.errors_model()[errs0.len() + i],
                            target.errs[i],
                            src0,
                        )
                }),
            ensures
                !(self.cur() < toks.len() && level_op(2, toks[self.cur()].t_type)),
            decreases self.toks().len() - self.cur(),
        {
            let ghost curA = self.cur();
            let ghost idsA = self.ids();
            let ghost treeA = tree@;
            let ghost errsA = self.errors_model();
            if !self.match_token2(TokenType::Minus, TokenType::Plus) {
                break;
            }
            self.term_operand_check();
            let ghost errsC = self.errors_model();
            tree = self.binary_step(tree, 2, Ghost(ids0));
            proof {
                let target = parse_term(toks, cur0, ids0);
                let ch = level_check_errs(2, toks, curA + 1);
                let sub = parse_operand_at(2, toks, curA + 1, idsA + 1);
                let now0 = parse_binary_loop(2, toks, treeA, curA, idsA);
                let rest = parse_binary_loop(2, toks, tree@, self.cur(), self.ids());
                assert(now0.errs =~= ch + sub.errs + rest.errs);
                lemma_loop_step_errs(
                    errs0,
                    errsA,
                    errsC,
                    self.errors_model(),
                    target.errs,
                    ch,
                    sub.errs,
                    rest.errs,
                    src0,
                );
            }
        }
        proof {
            let target = parse_term(toks, cur0, ids0);
            let now = parse_binary_loop(2, toks, tree@, self.cur(), self.ids());
            assert(now.errs =~= Seq::<ErrModel>::empty());
            assert(target.errs.len() == self.errors_model().len() - errs0.len());
        }
        tree
    }

    /// parse factors
    #[verifier::rlimit(100)]
    #[verifier::spinoff_prover]
    fn factor(&mut self) -> (t: AST)
        requires
            old(self).wf(),
        ensures
            final(self).wf(),
            final(self).toks() == old(self).toks(),
            final(self).src() == old(self).src(),
            final(self).tree_model() == old(self).tree_model(),
            old(self).cur() <= final(self).cur(),
            old(self).ids() <= final(self).ids(),
            final(self).ids() - old(self).ids() <= 2 * (final(self).cur() - old(self).cur()),
            wf_arena(t@),
            roots_of(t@).len() <= 1,
            t@.len() > 0 ==> roots_of(t@).len() == 1,
            ids_in_range(t@, old(self).ids(), final(self).ids()),
            ({
                let st = parse_factor(old(self).toks(), old(self).cur(), old(self).ids());
                &&& t@ == st.tree
                &&& final(self).cur() == st.cur
                &&& final(self).ids() == st.ids
                &&& appended_match(
                    old(self).errors_model(),
                    final(self).errors_model(),
                    st.errs,
                    old(self).src(),
                )
            }),
        decreases old(self).toks().len() - old(self).cur(), 4int,
    {
        let ghost toks = self.toks();
        let ghost src0 = self.src();
        let ghost cur0 = self.cur();
        let ghost ids0 = self.ids();
        let ghost errs0 = self.errors_model();
        let mut tree = self.unary();
        proof {
            let sub = parse_unary(toks, cur0, ids0);
            let target = parse_factor(toks, cur0, ids0);
            let now = parse_binary_loop(1, toks, tree@, self.cur(), self.ids());
            assert(target.errs =~= sub.errs + now.errs);
            assert(target.errs.skip(sub.errs.len() as int) =~= now.errs);
            assert forall|i: int| 0 <= i < sub.errs.len() implies matches_err(
                #[trigger] self.errors_model()[errs0.len() + i],
                target.errs[i],
                src0,
            ) by {
                assert(target.errs[i] == (sub.errs + now.errs)[i]);
            }
        }
        loop
            invariant
                self.wf(),
                toks == old(self).toks(),
                src0 == old(self).src(),
                cur0 == old(self).cur(),
                ids0 == old(self).ids(),
                errs0 == old(self).errors_model(),
                self.toks() == toks,
                self.src() == src0,
                self.tree_model() == old(self).tree_model(),
                cur0 <= self.cur(),
                ids0 <= self.ids(),
                self.ids() - ids0 <= 2 * (self.cur() - cur0),
                wf_arena(tree@),
                roots_of(tree@).len() <= 1,
                tree@.len() > 0 ==> roots_of(tree@).len() == 1,
                ids_in_range(tree@, ids0, self.ids()),
                self.errors_model().len() >= errs0.len(),
                self.errors_model().take(errs0.len() as int) == errs0,
                ({
                    let target = parse_factor(toks, cur0, ids0);
                    let now = parse_binary_loop(1, toks, tree@, self.cur(), self.ids());
                    let k = self.errors_model().len() - errs0.len();
                    &&& now.tree == target.tree
                    &&& now.cur == target.cur
                    &&& now.ids == target.ids
                    &&& target.errs.len() == k + now.errs.len()
                    &&& target.errs.skip(k) == now.errs
                    &&& forall|i: int|
                        0 <= i < k ==> matches_err(
                            #[trigger] self.errors_model()[errs0.len() + i],
                            target.errs[i],
                            src0,
                        )
                }),
            ensures
                !(self.cur() < toks.len() && level_op(1, toks[self.cur()].t_type)),
            decreases self.toks().len() - self.cur(),
        {
            let ghost curA = self.cur();
            let ghost idsA = self.ids();
            let ghost treeA = tree@;
            let ghost errsA = self.errors_model();
            if !self.match_token3(TokenType::Slash, TokenType::Asterisk, TokenType::Percent) {
                break;
            }
            self.operand_check();
            let ghost errsC = self.errors_model();
            tree = self.binary_step(tree, 1, Ghost(ids0));
            proof {
                let target = parse_factor(toks, cur0, ids0);
                let ch = level_check_errs(1, toks, curA + 1);
                let sub = parse_operand_at(1, toks, curA + 1, idsA + 1);
                let now0 = parse_binary_loop(1, toks, treeA, curA, idsA);
                let rest = parse_binary_loop(1, toks, tree@, self.cur(), self.ids());
                assert(now0.errs =~= ch + sub.errs + rest.errs);
                lemma_loop_step_errs(
                    errs0,
                    errsA,
                    errsC,
                    self.errors_model(),
                    target.errs,
                    ch,
                    sub.errs,
                    rest.errs,
                    src0,
                );
            }
        }
        proof {
            let target = parse_factor(toks, cur0, ids0);
            let now = parse_binary_loop(1, toks, tree@, self.cur(), self.ids());
            assert(now.errs =~= Seq::<ErrModel>::empty());
            assert(target.errs.len() == self.errors_model().len() - errs0.len());
        }
        tree
    }

    /// one step of a binary level: the operator was just consumed; parse
    /// the right operand one level down and promote the operator over the
    /// trees of both operands
    #[verifier::rlimit(100)]
    #[verifier::spinoff_prover]
    fn binary_step(&mut self, tree: AST, level: u8, Ghost(lo): Ghost<int>) -> (t: AST)
        requires
            old(self).wf(),
            old(self).cur() >= 1,
            old(self).ids() + 2 * (old(self).toks().len() - old(self).cur()) + 1 <= usize::MAX,
            1 <= level <= 5,
            wf_arena(tree@),
            lo <= old(self).ids(),
            ids_in_range(tree@, lo, old(self).ids()),
        ensures
            final(self).wf(),
            final(self).toks() == old(self).toks(),
            final(self).src() == old(self).src(),
            final(self).tree_model() == old(self).tree_model(),
            old(self).cur() <= final(self).cur(),
            old(self).ids() < final(self).ids(),
            final(self).ids() - old(self).ids() <= 1 + 2 * (final(self).cur() - old(self).cur()),
            wf_arena(t@),
            roots_of(t@).len() == 1,
            t@.len() > 0,
            ids_in_range(t@, lo, final(self).ids()),
            ({
                let sub = parse_operand_at(
                    level as int,
                    old(self).toks(),
                    old(self).cur(),
                    old(self).ids() + 1,
                );
                &&& t@ == promote_arena(
                    tree@ + sub.tree,
                    old(self).toks()[old(self).cur() - 1],
                    old(self).ids() + 1,
                )
                &&& final(self).cur() == sub.cur
                &&& final(self).ids() == sub.ids
                &&& appended_match(
                    old(self).errors_model(),
                    final(self).errors_model(),
                    sub.errs,
                    old(self).src(),
                )
            }),
        decreases old(self).toks().len() - old(self).cur(), 8int,
    {
        let mut tree = tree;
        self.id_offset = self.id_offset + 1;
        let op_id = self.id_offset;
        let operator = self.previous();
        let mut n = Node::new(op_id, operator, None, Vec::new());
        let right = if level == 5 {
            self.bitwise()
        } else if level == 4 {
            self.comparison()
        } else if level == 3 {
            self.term()
        } else if level == 2 {
            self.factor()
        } else {
            self.unary()
        };
        let ghost tree0 = tree@;
        right.clone_into_tree(&mut tree);
        proof {
            lemma_wf_concat(tree0, right@);
            lemma_roots_concat(tree0, right@);
        }
        let roots = tree.root();
        let mut ci: usize = 0;
        while ci < roots.len()
            invariant
                ci <= roots@.len(),
                n@.children == roots@.map_values(|x: usize| x as int).take(ci as int),
                n@.id == op_id as int,
                n@.parent is None,
                n@.val == operator@,
            decreases roots@.len() - ci,
        {
            n.add_child(roots[ci]);
            ci = ci + 1;
            proof {
                assert(n@.children =~= roots@.map_values(|x: usize| x as int).take(ci as int));
            }
        }
        proof {
            assert(roots@.map_values(|x: usize| x as int).take(ci as int) =~= roots@.map_values(
                |x: usize| x as int,
            ));
        }
        tree.set_root_all(op_id);
        let ghost merged = tree@;
        tree.add(n);
        proof {
            lemma_wf_promote(tree0 + right@, n@);
            assert(merged =~= reparent(tree0 + right@, op_id as int));
            assert(tree@ =~= reparent(tree0 + right@, op_id as int).push(n@));
            assert(tree@ =~= promote_arena(
                tree0 + right@,
                old(self).toks()[old(self).cur() - 1],
                old(self).ids() + 1,
            ));
        }
        tree
    }

    /// parse unary operations
    #[verifier::rlimit(100)]
    #[verifier::spinoff_prover]
    fn unary(&mut self) -> (t: AST)
        requires
            old(self).wf(),
        ensures
            final(self).wf(),
            final(self).toks() == old(self).toks(),
            final(self).src() == old(self).src(),
            final(self).tree_model() == old(self).tree_model(),
            old(self).cur() <= final(self).cur(),
            old(self).ids() <= final(self).ids(),
            final(self).ids() - old(self).ids() <= 2 * (final(self).cur() - old(self).cur()),
            wf_arena(t@),
            roots_of(t@).len() <= 1,
            t@.len() > 0 ==> roots_of(t@).len() == 1,
            ids_in_range(t@, old(self).ids(), final(self).ids()),
            ({
                let st = parse_unary(old(self).toks(), old(self).cur(), old(self).ids());
                &&& t@ == st.tree
                &&& final(self).cur() == st.cur
                &&& final(self).ids() == st.ids
                &&& appended_match(
                    old(self).errors_model(),
                    final(self).errors_model(),
                    st.errs,
                    old(self).src(),
                )
            }),
        decreases old(self).toks().len() - old(self).cur(), 1int,
    {
        let ghost toks = self.toks();
        let ghost src0 = self.src();
        let ghost cur0 = self.cur();
        let ghost ids0 = self.ids();
        let ghost errs0 = self.errors_model();
        if self.match_token2(TokenType::Exclamation, TokenType::Minus) {
            let prev = self.previous();
            let prev_type = *prev.token_type();
            if matches!(prev_type, TokenType::Exclamation) {
                self.unary_check_bool();
            } else {
                self.unary_check_number();
            }
            let ghost errs_c = self.errors_model();
            self.id_offset = self.id_offset + 1;
            let operator = self.previous();
            let mut tree = self.unary();
            self.id_offset = self.id_offset + 1;
            let op_id = self.id_offset;
            let roots = tree.root();
            let n = Node::new(op_id, operator, None, roots);
            let ghost tree0 = tree@;
            tree.set_root_all(op_id);
            tree.add(n);
            proof {
                lemma_wf_promote(tree0, n@);
                assert(tree@ =~= reparent(tree0, op_id as int).push(n@));
                assert(tree@ =~= promote_arena(tree0, toks[cur0], op_id as int));
                let st = parse_unary(toks, cur0, ids0);
                let ch = unary_check_errs(toks[cur0].t_type, toks, cur0 + 1);
                let sub = parse_unary(toks, cur0 + 1, ids0 + 1);
                assert(st.errs =~= ch + sub.errs + Seq::<ErrModel>::empty());
                assert(st.errs.skip(0) =~= st.errs);
                assert(errs0.take(errs0.len() as int) =~= errs0);
                lemma_loop_step_errs(
                    errs0,
                    errs0,
                    errs_c,
                    self.errors_model(),
                    st.errs,
                    ch,
                    sub.errs,
                    Seq::<ErrModel>::empty(),
                    src0,
                );
            }
            return tree;
        }
        self.primary()
    }

    /// parse primaries
    #[verifier::rlimit(100)]
    #[verifier::spinoff_prover]
    fn primary(&mut self) -> (t: AST)
        requires
            old(self).wf(),
        ensures
            final(self).wf(),
            final(self).toks() == old(self).toks(),
            final(self).src() == old(self).src(),
            final(self).tree_model() == old(self).tree_model(),
            old(self).cur() <= final(self).cur(),
            old(self).ids() <= final(self).ids(),
            final(self).ids() - old(self).ids() <= 2 * (final(self).cur() - old(self).cur()),
            wf_arena(t@),
            roots_of(t@).len() <= 1,
            t@.len() > 0 ==> roots_of(t@).len() == 1,
            ids_in_range(t@, old(self).ids(), final(self).ids()),
            ({
                let st = parse_primary(old(self).toks(), old(self).cur(), old(self).ids());
                &&& t@ == st.tree
                &&& final(self).cur() == st.cur
                &&& final(self).ids() == st.ids
                &&& appended_match(
                    old(self).errors_model(),
                    final(self).errors_model(),
                    st.errs,
                    old(self).src(),
                )
            }),
        decreases old(self).toks().len() - old(self).cur(), 0int,
    {
        let ghost toks = self.toks();
        let ghost src0 = self.src();
        let ghost cur0 = self.cur();
        let ghost ids0 = self.ids();
        let ghost errs0 = self.errors_model();
        let mut tree = AST::new();

        // is there any literal?
        if self.match_token6(
            TokenType::StringType,
            TokenType::CharType,
            TokenType::IntegerType,
            TokenType::FloatType,
            TokenType::RegexType,
            TokenType::BooleanType,
        ) {
            self.id_offset = self.id_offset + 1;
            let prev = self.previous();
            let n = Node::new(self.id_offset, prev, None, Vec::new());
            proof {
                assert(n@.children =~= Seq::<int>::empty());
                lemma_wf_leaf(n@);
            }
            tree.add(n);
            proof {
                assert(tree@ =~= seq![n@]);
                assert(n@ == literal_leaf(ids0 + 1, toks[cur0]));
                assert(errs0.take(errs0.len() as int) =~= errs0);
            }
            return tree;
        }

        // is there a (?
        if self.match_token1(TokenType::LeftParen) {
            let sub = self.expression();
            sub.clone_into_tree(&mut tree);
            proof {
                assert(Seq::<NodeModel>::empty() + sub@ =~= sub@);
            }
            let ghost errs_c = self.errors_model();
            if !self.match_token1(TokenType::RightParen) {
                // missing right parentheses
                let t2 = self.previous();
                let msg = str_to_string("Expected ')'");
                let e = ShorkError::generate_error(
                    ErrorType::ParserError,
                    t2.position(),
                    self.source.clone(),
                    msg,
                );
                self.errors.push(e);
                proof {
                    let st = parse_primary(toks, cur0, ids0);
                    let subspec = parse_expression(toks, cur0 + 1, ids0);
                    assert(st.errs =~= subspec.errs.push(missing_paren_err(toks, self.cur())));
                    assert(self.errors_model().take(errs_c.len() as int) =~= errs_c);
                    assert(self.errors_model().take(errs0.len() as int) =~= errs_c.take(
                        errs0.len() as int,
                    ));
                    assert forall|i: int| 0 <= i < st.errs.len() implies matches_err(
                        #[trigger] self.errors_model()[errs0.len() + i],
                        st.errs[i],
                        src0,
                    ) by {
                        if i < subspec.errs.len() {
                            assert(st.errs[i] == subspec.errs[i]);
                            assert(self.errors_model()[errs0.len() + i] == self.errors_model().take(
                                errs_c.len() as int,
                            )[errs0.len() + i]);
                            assert(errs_c[errs0.len() + i] == self.errors_model()[errs0.len() + i]);
                        } else {
                            assert(st.errs[i] == missing_paren_err(toks, self.cur()));
                            assert(self.errors_model()[errs0.len() + i]
                                == self.errors_model().last());
                        }
                    }
                }
            } else {
                proof {
                    let st = parse_primary(toks, cur0, ids0);
                    let subspec = parse_expression(toks, cur0 + 1, ids0);
                    assert(st.errs =~= subspec.errs);
                }
            }
        } else {
            proof {
                assert(errs0.take(errs0.len() as int) =~= errs0);
            }
        }
        tree
    }

    /// the soft check before a numeric operand: reports what it found when
    /// the head cannot open one
    fn operand_check(&mut self)
        requires
            old(self).wf(),
        ensures
            final(self).wf(),
            final(self).toks() == old(self).toks(),
            final(self).src() == old(self).src(),
            final(self).tree_model() == old(self).tree_model(),
            final(self).cur() == old(self).cur(),
            final(self).ids() == old(self).ids(),
            appended_match(
                old(self).errors_model(),
                final(self).errors_model(),
                operand_check_errs(old(self).toks(), old(self).cur()),
                old(self).src(),
            ),
    {
        let found = self.match_token_no_advance5(
            TokenType::LeftParen,
            TokenType::Exclamation,
            TokenType::Minus,
            TokenType::IntegerType,
            TokenType::FloatType,
        );
        if !found {
            let k = self.peek_kind();
            let mut msg_chars: Vec<char> = Vec::new();
            push_str_chars(&mut msg_chars, "Expected number, found ");
            push_str_chars(&mut msg_chars, token_kind_str(k));
            let msg = chars_to_string(&msg_chars);
            proof {
                assert(msg@ =~= "Expected number, found "@ + token_kind_name(k));
            }
            self.soft_error(msg);
            proof {
                assert(self.errors_model().take(old(self).errors_model().len() as int) =~= old(
                    self,
                ).errors_model());
            }
        } else {
            proof {
                assert(old(self).errors_model().take(old(self).errors_model().len() as int) =~= old(
                    self,
                ).errors_model());
            }
        }
    }

    /// the soft check before a term operand, which may also be a string
    fn term_operand_check(&mut self)
        requires
            old(self).wf(),
        ensures
            final(self).wf(),
            final(self).toks() == old(self).toks(),
            final(self).src() == old(self).src(),
            final(self).tree_model() == old(self).tree_model(),
            final(self).cur() == old(self).cur(),
            final(self).ids() == old(self).ids(),
            appended_match(
                old(self).errors_model(),
                final(self).errors_model(),
                term_operand_check_errs(old(self).toks(), old(self).cur()),
                old(self).src(),
            ),
    {
        let found = self.match_token_no_advance5(
            TokenType::LeftParen,
            TokenType::Exclamation,
            TokenType::Minus,
            TokenType::IntegerType,
            TokenType::FloatType,
        ) || self.match_token_no_advance1(TokenType::StringType);
        if !found {
            let k = self.peek_kind();
            let mut msg_chars: Vec<char> = Vec::new();
            push_str_chars(&mut msg_chars, "Expected number, found ");
            push_str_chars(&mut msg_chars, token_kind_str(k));
            let msg = chars_to_string(&msg_chars);
            proof {
                assert(msg@ =~= "Expected number, found "@ + token_kind_name(k));
            }
            self.soft_error(msg);
            proof {
                assert(self.errors_model().take(old(self).errors_model().len() as int) =~= old(
                    self,
                ).errors_model());
            }
        } else {
            proof {
                assert(old(self).errors_model().take(old(self).errors_model().len() as int) =~= old(
                    self,
                ).errors_model());
            }
        }
    }

    /// the soft check after a unary `!`
    fn unary_check_bool(&mut self)
        requires
            old(self).wf(),
        ensures
            final(self).wf(),
            final(self).toks() == old(self).toks(),
            final(self).src() == old(self).src(),
            final(self).tree_model() == old(self).tree_model(),
            final(self).cur() == old(self).cur(),
            final(self).ids() == old(self).ids(),
            appended_match(
                old(self).errors_model(),
                final(self).errors_model(),
                bool_check_errs(old(self).toks(), old(self).cur()),
                old(self).src(),
            ),
    {
        let found = self.match_token_no_advance3(
            TokenType::BooleanType,
            TokenType::Exclamation,
            TokenType::LeftParen,
        );
        if !found {
            let k = self.peek_kind();
            let mut msg_chars: Vec<char> = Vec::new();
            push_str_chars(&mut msg_chars, "Expected a boolean, '!' or '(', found ");
            push_str_chars(&mut msg_chars, token_kind_str(k));
            let msg = chars_to_string(&msg_chars);
            proof {
                assert(msg@ =~= "Expected a boolean, '!' or '(', found "@ + token_kind_name(k));
            }
            self.soft_error(msg);
            proof {
                assert(self.errors_model().take(old(self).errors_model().len() as int) =~= old(
                    self,
                ).errors_model());
            }
        } else {
            proof {
                assert(old(self).errors_model().take(old(self).errors_model().len() as int) =~= old(
                    self,
                ).errors_model());
            }
        }
    }

    /// the soft check after a unary `-`
    fn unary_check_number(&mut self)
        requires
            old(self).wf(),
        ensures
            final(self).wf(),
            final(self).toks() == old(self).toks(),
            final(self).src() == old(self).src(),
            final(self).tree_model() == old(self).tree_model(),
            final(self).cur() == old(self).cur(),
            final(self).ids() == old(self).ids(),
            appended_match(
                old(self).errors_model(),
                final(self).errors_model(),
                neg_check_errs(old(self).toks(), old(self).cur()),
                old(self).src(),
            ),
    {
        let found = self.match_token_no_advance3(
            TokenType::IntegerType,
            TokenType::FloatType,
            TokenType::Minus,
        );
        if !found {
            let k = self.peek_kind();
            let mut msg_chars: Vec<char> = Vec::new();
            push_str_chars(&mut msg_chars, "Expected a number, found ");
            push_str_chars(&mut msg_chars, token_kind_str(k));
            let msg = chars_to_string(&msg_chars);
            proof {
                assert(msg@ =~= "Expected a number, found "@ + token_kind_name(k));
            }
            self.soft_error(msg);
            proof {
                assert(self.errors_model().take(old(self).errors_model().len() as int) =~= old(
                    self,
                ).errors_model());
            }
        } else {
            proof {
                assert(old(self).errors_model().take(old(self).errors_model().len() as int) =~= old(
                    self,
                ).errors_model());
            }
        }
    }

    /// record a diagnostic at the head's position
    fn soft_error(&mut self, message: String)
        requires
            old(self).wf(),
        ensures
            final(self).wf(),
            final(self).toks() == old(self).toks(),
            final(self).src() == old(self).src(),
            final(self).tree_model() == old(self).tree_model(),
            final(self).cur() == old(self).cur(),
            final(self).ids() == old(self).ids(),
            final(self).errors_model() == old(self).errors_model().push(
                final(self).errors_model().last(),
            ),
            final(self).errors_model().len() == old(self).errors_model().len() + 1,
            matches_err(
                final(self).errors_model().last(),
                ErrModel {
                    e_type: ErrorType::ParserError,
                    position: old(self).toks()[old(self).cur()].position,
                    message: message@,
                },
                old(self).src(),
            ),
    {
        let position = self.peek_position();
        let e = ShorkError::generate_error(
            ErrorType::ParserError,
            position,
            self.source.clone(),
            message,
        );
        self.errors.push(e);
    }

    /// the position of the current token
    fn peek_position(&self) -> (p: usize)
        requires
            self.wf(),
        ensures
            p as int == self.toks()[self.cur()].position,
    {
        self.tokens[self.current].position()
    }

    /// the kind of the current token
    fn peek_kind(&self) -> (k: TokenType)
        requires
            self.wf(),
        ensures
            k == self.toks()[self.cur()].t_type,
    {
        *self.tokens[self.current].token_type()
    }

    /// check if the current token is of a given type
    fn check(&self, t_type: TokenType) -> (r: bool)
        requires
            self.wf(),
        ensures
            r == (self.toks()[self.cur()].t_type != TokenType::Eof && self.toks()[self.cur()].t_type
                == t_type),
    {
        if self.at_end() {
            return false;
        }
        *self.tokens[self.current].token_type() == t_type
    }

    /// check if the parser reached the end of the token stream
    fn at_end(&self) -> (r: bool)
        requires
            self.wf(),
        ensures
            r == (self.toks()[self.cur()].t_type == TokenType::Eof),
    {
        matches!(*self.tokens[self.current].token_type(), TokenType::Eof)
    }

    /// advance one position if a token is left
    fn advance(&mut self)
        requires
            old(self).wf(),
            old(self).toks()[old(self).cur()].t_type != TokenType::Eof,
        ensures
            final(self).wf(),
            final(self).toks() == old(self).toks(),
            final(self).src() == old(self).src(),
            final(self).tree_model() == old(self).tree_model(),
            final(self).ids() == old(self).ids(),
            final(self).errors_model() == old(self).errors_model(),
            final(self).cur() == old(self).cur() + 1,
    {
        let n = self.tokens.len();
        proof {
            assert(self.toks()[n - 1].t_type == TokenType::Eof);
            assert(self.current < n - 1);
        }
        self.current = self.current + 1;
    }

    /// return the previous token
    fn previous(&self) -> (t: Token)
        requires
            self.wf(),
            self.cur() >= 1,
        ensures
            t@ == self.toks()[self.cur() - 1],
    {
        let t = self.tokens[self.current - 1].clone();
        t
    }

    /// look if the current token matches one of the given types and
    /// advance if so
    fn match_token1(&mut self, t1: TokenType) -> (r: bool)
        requires
            old(self).wf(),
        ensures
            final(self).wf(),
            final(self).toks() == old(self).toks(),
            final(self).src() == old(self).src(),
            final(self).tree_model() == old(self).tree_model(),
            final(self).ids() == old(self).ids(),
            final(self).errors_model() == old(self).errors_model(),
            r ==> final(self).cur() == old(self).cur() + 1 && old(self).toks()[old(self).cur()].t_type
                != TokenType::Eof && (old(self).toks()[old(self).cur()].t_type == t1),
            !r ==> final(self).cur() == old(self).cur() && (old(self).toks()[old(self).cur()].t_type
                == TokenType::Eof || (old(self).toks()[old(self).cur()].t_type != t1)),
    {
        if self.check(t1) {
            self.advance();
            return true;
        }
        false
    }

    /// look if the current token matches one of the given types and
    /// advance if so
    fn match_token2(&mut self, t1: TokenType, t2: TokenType) -> (r: bool)
        requires
            old(self).wf(),
        ensures
            final(self).wf(),
            final(self).toks() == old(self).toks(),
            final(self).src() == old(self).src(),
            final(self).tree_model() == old(self).tree_model(),
            final(self).ids() == old(self).ids(),
            final(self).errors_model() == old(self).errors_model(),
            r ==> final(self).cur() == old(self).cur() + 1 && old(self).toks()[old(self).cur()].t_type
                != TokenType::Eof && (old(self).toks()[old(self).cur()].t_type == t1 || old(self).toks()[old(self).cur()].t_type == t2),
            !r ==> final(self).cur() == old(self).cur() && (old(self).toks()[old(self).cur()].t_type
                == TokenType::Eof || (old(self).toks()[old(self).cur()].t_type != t1 && old(self).toks()[old(self).cur()].t_type != t2)),
    {
        if self.check(t1) || self.check(t2) {
            self.advance();
            return true;
        }
        false
    }

    /// look if the current token matches one of the given types and
    /// advance if so
    fn match_token3(&mut self, t1: TokenType, t2: TokenType, t3: TokenType) -> (r: bool)
        requires
            old(self).wf(),
        ensures
            final(self).wf(),
            final(self).toks() == old(self).toks(),
            final(self).src() == old(self).src(),
            final(self).tree_model() == old(self).tree_model(),
            final(self).ids() == old(self).ids(),
            final(self).errors_model() == old(self).errors_model(),
            r ==> final(self).cur() == old(self).cur() + 1 && old(self).toks()[old(self).cur()].t_type
                != TokenType::Eof && (old(self).toks()[old(self).cur()].t_type == t1 || old(self).toks()[old(self).cur()].t_type == t2 || old(self).toks()[old(self).cur()].t_type == t3),
            !r ==> final(self).cur() == old(self).cur() && (old(self).toks()[old(self).cur()].t_type
                == TokenType::Eof || (old(self).toks()[old(self).cur()].t_type != t1 && old(self).toks()[old(self).cur()].t_type != t2 && old(self).toks()[old(self).cur()].t_type != t3)),
    {
        if self.check(t1) || self.check(t2) || self.check(t3) {
            self.advance();
            return true;
        }
        false
    }

    /// look if the current token matches one of the given types and
    /// advance if so
    fn match_token4(&mut self, t1: TokenType, t2: TokenType, t3: TokenType, t4: TokenType) -> (r: bool)
        requires
            old(self).wf(),
        ensures
            final(self).wf(),
            final(self).toks() == old(self).toks(),
            final(self).src() == old(self).src(),
            final(self).tree_model() == old(self).tree_model(),
            final(self).ids() == old(self).ids(),
            final(self).errors_model() == old(self).errors_model(),
            r ==> final(self).cur() == old(self).cur() + 1 && old(self).toks()[old(self).cur()].t_type
                != TokenType::Eof && (old(self).toks()[old(self).cur()].t_type == t1 || old(self).toks()[old(self).cur()].t_type == t2 || old(self).toks()[old(self).cur()].t_type == t3 || old(self).toks()[old(self).cur()].t_type == t4),
            !r ==> final(self).cur() == old(self).cur() && (old(self).toks()[old(self).cur()].t_type
                == TokenType::Eof || (old(self).toks()[old(self).cur()].t_type != t1 && old(self).toks()[old(self).cur()].t_type != t2 && old(self).toks()[old(self).cur()].t_type != t3 && old(self).toks()[old(self).cur()].t_type != t4)),
    {
        if self.check(t1) || self.check(t2) || self.check(t3) || self.check(t4) {
            self.advance();
            return true;
        }
        false
    }

    /// look if the current token matches one of the given types and
    /// advance if so
    fn match_token6(&mut self, t1: TokenType, t2: TokenType, t3: TokenType, t4: TokenType, t5: TokenType, t6: TokenType) -> (r: bool)
        requires
            old(self).wf(),
        ensures
            final(self).wf(),
            final(self).toks() == old(self).toks(),
            final(self).src() == old(self).src(),
            final(self).tree_model() == old(self).tree_model(),
            final(self).ids() == old(self).ids(),
            final(self).errors_model() == old(self).errors_model(),
            r ==> final(self).cur() == old(self).cur() + 1 && old(self).toks()[old(self).cur()].t_type
                != TokenType::Eof && (old(self).toks()[old(self).cur()].t_type == t1 || old(self).toks()[old(self).cur()].t_type == t2 || old(self).toks()[old(self).cur()].t_type == t3 || old(self).toks()[old(self).cur()].t_type == t4 || old(self).toks()[old(self).cur()].t_type == t5 || old(self).toks()[old(self).cur()].t_type == t6),
            !r ==> final(self).cur() == old(self).cur() && (old(self).toks()[old(self).cur()].t_type
                == TokenType::Eof || (old(self).toks()[old(self).cur()].t_type != t1 && old(self).toks()[old(self).cur()].t_type != t2 && old(self).toks()[old(self).cur()].t_type != t3 && old(self).toks()[old(self).cur()].t_type != t4 && old(self).toks()[old(self).cur()].t_type != t5 && old(self).toks()[old(self).cur()].t_type != t6)),
    {
        if self.check(t1) || self.check(t2) || self.check(t3) || self.check(t4) || self.check(t5) || self.check(t6) {
            self.advance();
            return true;
        }
        false
    }

    /// check whether the current token is one of the given types, without
    /// advancing
    fn match_token_no_advance1(&self, t1: TokenType) -> (r: bool)
        requires
            self.wf(),
        ensures
            r == (self.toks()[self.cur()].t_type != TokenType::Eof && (self.toks()[self.cur()].t_type == t1)),
    {
        self.check(t1)
    }

    /// check whether the current token is one of the given types, without
    /// advancing
    fn match_token_no_advance3(&self, t1: TokenType, t2: TokenType, t3: TokenType) -> (r: bool)
        requires
            self.wf(),
        ensures
            r == (self.toks()[self.cur()].t_type != TokenType::Eof && (self.toks()[self.cur()].t_type == t1 || self.toks()[self.cur()].t_type == t2 || self.toks()[self.cur()].t_type == t3)),
    {
        self.check(t1) || self.check(t2) || self.check(t3)
    }

    /// check whether the current token is one of the given types, without
    /// advancing
    fn match_token_no_advance5(&self, t1: TokenType, t2: TokenType, t3: TokenType, t4: TokenType, t5: TokenType) -> (r: bool)
        requires
            self.wf(),
        ensures
            r == (self.toks()[self.cur()].t_type != TokenType::Eof && (self.toks()[self.cur()].t_type == t1 || self.toks()[self.cur()].t_type == t2 || self.toks()[self.cur()].t_type == t3 || self.toks()[self.cur()].t_type == t4 || self.toks()[self.cur()].t_type == t5)),
    {
        self.check(t1) || self.check(t2) || self.check(t3) || self.check(t4) || self.check(t5)
    }
}

} // verus!
