//! Programs written out in tokens, and the law that what is written out
//! parses back to the program it was written from.
//!
//! The spelling is one of many that the parser takes for a program: every
//! operand of an operator stands in parentheses, and no semicolon stands but
//! the one that ends a statement.

use crate::ast::{ExprView, NodeView, Op};
use crate::parser::{
    args, args_rest, block, call_or_assign, chain, head, if_stmt, items, level, loop_stmt, ok,
    operator, peek, primary, program, semicolons, stmt, var_decl,
};
use crate::token::TokenView;
use vstd::prelude::*;

verus! {

/// The token that writes an operator.
pub open spec fn op_token(op: Op) -> TokenView {
    match op {
        Op::Eq => TokenView::EqEq,
        Op::Ne => TokenView::Ne,
        Op::Gt => TokenView::Gt,
        Op::Lt => TokenView::Lt,
        Op::Ge => TokenView::Ge,
        Op::Le => TokenView::Le,
        Op::And => TokenView::AndAnd,
        Op::Or => TokenView::OrOr,
    }
}

/// The level at which an operator binds.
pub open spec fn op_level(op: Op) -> nat {
    match op {
        Op::Or => 0,
        Op::And => 1,
        Op::Eq => 2,
        Op::Ne => 2,
        _ => 3,
    }
}

/// Whether a token writes an operator.
pub open spec fn is_operator(t: TokenView) -> bool {
    t is OrOr || t is AndAnd || t is EqEq || t is Ne || t is Gt || t is Lt || t is Ge || t is Le
}

/// How many tokens the spelling of an expression has.
pub open spec fn expr_len(e: ExprView) -> nat
    decreases e,
{
    match e {
        ExprView::Binary(a, op, b) => expr_len(*a) + expr_len(*b) + 5,
        _ => 1,
    }
}

/// Whether the tokens from `pos` on spell `e`: a literal or a name as one
/// token, and an operator between its two operands, each in parentheses.
pub open spec fn spells_expr(t: Seq<TokenView>, pos: nat, e: ExprView) -> bool
    decreases e,
{
    match e {
        ExprView::Number(n) => peek(t, pos) == TokenView::Number(n),
        ExprView::Str(s) => peek(t, pos) == TokenView::Str(s),
        ExprView::Var(s) => peek(t, pos) == TokenView::Ident(s),
        ExprView::Binary(a, op, b) => {
            let la = expr_len(*a);
            let lb = expr_len(*b);
            &&& peek(t, pos) == TokenView::LParen
            &&& spells_expr(t, pos + 1, *a)
            &&& peek(t, pos + 1 + la) == TokenView::RParen
            &&& peek(t, pos + 2 + la) == op_token(op)
            &&& peek(t, pos + 3 + la) == TokenView::LParen
            &&& spells_expr(t, pos + 4 + la, *b)
            &&& peek(t, pos + 4 + la + lb) == TokenView::RParen
        },
    }
}

/// How many tokens stand after argument `i - 1` up to the closing parenthesis.
pub open spec fn more_args_len(list: Seq<ExprView>, i: nat) -> nat
    decreases list.len() - i,
{
    if i >= list.len() {
        0
    } else {
        1 + expr_len(list[i as int]) + more_args_len(list, i + 1)
    }
}

/// Whether the tokens from `pos` on spell the arguments from index `i` on,
/// each after a comma, and then the closing parenthesis.
pub open spec fn spells_more_args(t: Seq<TokenView>, pos: nat, list: Seq<ExprView>, i: nat) -> bool
    decreases list.len() - i,
{
    if i >= list.len() {
        peek(t, pos) == TokenView::RParen
    } else {
        &&& peek(t, pos) == TokenView::Comma
        &&& spells_expr(t, pos + 1, list[i as int])
        &&& spells_more_args(t, pos + 1 + expr_len(list[i as int]), list, i + 1)
    }
}

/// How many tokens the arguments of a call have, without the parentheses.
pub open spec fn args_len(list: Seq<ExprView>) -> nat {
    if list.len() == 0 {
        0
    } else {
        expr_len(list[0]) + more_args_len(list, 1)
    }
}

/// Whether the tokens from `pos` on spell the arguments of a call and then
/// the closing parenthesis.
pub open spec fn spells_args(t: Seq<TokenView>, pos: nat, list: Seq<ExprView>) -> bool {
    if list.len() == 0 {
        peek(t, pos) == TokenView::RParen
    } else {
        spells_expr(t, pos, list[0]) && spells_more_args(t, pos + expr_len(list[0]), list, 1)
    }
}

/// How many tokens the spelling of a statement has.
pub open spec fn node_len(n: NodeView) -> nat
    decreases n, 0nat,
{
    match n {
        NodeView::VarDecl { name, value } => expr_len(value) + 4,
        NodeView::Assign { name, value } => expr_len(value) + 3,
        NodeView::Call { name, args } => args_len(args) + 4,
        NodeView::Loop { times, body } => expr_len(times) + 5 + nodes_len(body, 0),
        NodeView::If { cond, then_body, else_body } => expr_len(cond) + 5 + nodes_len(then_body, 0)
            + match else_body {
            Some(e) => 3 + nodes_len(e, 0),
            None => 0,
        },
    }
}

/// How many tokens the spelling of the statements from index `i` on has.
pub open spec fn nodes_len(nodes: Seq<NodeView>, i: nat) -> nat
    decreases nodes, nodes.len() - i,
{
    if i >= nodes.len() {
        0
    } else {
        node_len(nodes[i as int]) + nodes_len(nodes, i + 1)
    }
}

/// Whether the tokens from `pos` on spell the block with these statements.
pub open spec fn spells_block(t: Seq<TokenView>, pos: nat, nodes: Seq<NodeView>) -> bool
    decreases nodes, nodes.len() + 1,
{
    &&& peek(t, pos) == TokenView::LBrace
    &&& spells_nodes(t, pos + 1, nodes, 0)
    &&& peek(t, pos + 1 + nodes_len(nodes, 0)) == TokenView::RBrace
}

/// Whether the tokens from `pos` on spell the statement `n`.
pub open spec fn spells_node(t: Seq<TokenView>, pos: nat, n: NodeView) -> bool
    decreases n, 0nat,
{
    match n {
        NodeView::VarDecl { name, value } => {
            &&& peek(t, pos) == TokenView::Var
            &&& peek(t, pos + 1) == TokenView::Ident(name)
            &&& peek(t, pos + 2) == TokenView::Eq
            &&& spells_expr(t, pos + 3, value)
            &&& peek(t, pos + 3 + expr_len(value)) == TokenView::Semicolon
        },
        NodeView::Assign { name, value } => {
            &&& peek(t, pos) == TokenView::Ident(name)
            &&& peek(t, pos + 1) == TokenView::Eq
            &&& spells_expr(t, pos + 2, value)
            &&& peek(t, pos + 2 + expr_len(value)) == TokenView::Semicolon
        },
        NodeView::Call { name, args } => {
            &&& peek(t, pos) == TokenView::Ident(name)
            &&& peek(t, pos + 1) == TokenView::LParen
            &&& spells_args(t, pos + 2, args)
            &&& peek(t, pos + 3 + args_len(args)) == TokenView::Semicolon
        },
        NodeView::Loop { times, body } => {
            &&& peek(t, pos) == TokenView::Loop
            &&& peek(t, pos + 1) == TokenView::LParen
            &&& spells_expr(t, pos + 2, times)
            &&& peek(t, pos + 2 + expr_len(times)) == TokenView::RParen
            &&& spells_block(t, pos + 3 + expr_len(times), body)
        },
        NodeView::If { cond, then_body, else_body } => {
            let after = pos + 5 + expr_len(cond) + nodes_len(then_body, 0);
            &&& peek(t, pos) == TokenView::If
            &&& peek(t, pos + 1) == TokenView::LParen
            &&& spells_expr(t, pos + 2, cond)
            &&& peek(t, pos + 2 + expr_len(cond)) == TokenView::RParen
            &&& spells_block(t, pos + 3 + expr_len(cond), then_body)
            &&& match else_body {
                Some(e) => peek(t, after) == TokenView::Else && spells_block(t, after + 1, e),
                None => peek(t, after) != TokenView::Else,
            }
        },
    }
}

/// Whether the tokens from `pos` on spell the statements from index `i` on.
pub open spec fn spells_nodes(t: Seq<TokenView>, pos: nat, nodes: Seq<NodeView>, i: nat) -> bool
    decreases nodes, nodes.len() - i,
{
    if i >= nodes.len() {
        true
    } else {
        &&& spells_node(t, pos, nodes[i as int])
        &&& spells_nodes(t, pos + node_len(nodes[i as int]), nodes, i + 1)
    }
}

/// Whether the tokens spell the program `nodes` and then hold the end marker
/// or nothing more.
pub open spec fn spells_program(t: Seq<TokenView>, nodes: Seq<NodeView>) -> bool {
    spells_nodes(t, 0, nodes, 0) && peek(t, nodes_len(nodes, 0)) == TokenView::Eof
}

proof fn lemma_descend(t: Seq<TokenView>, pos: nat, k: nat, j: nat, x: ExprView, n: nat)
    requires
        k <= j <= 4,
        level(t, pos, j) == ok(x, n),
        forall|m: nat| k <= m < j ==> (#[trigger] operator(m, peek(t, pos + n))) is None,
    ensures
        level(t, pos, k) == ok(x, n),
    decreases j - k,
{
    if k < j {
        lemma_descend(t, pos, k + 1, j, x, n);
        assert(operator(k, peek(t, pos + n)) is None);
        assert(chain(t, pos + n, k, x) == ok(x, 0));
    }
}

/// An expression that is spelled out and followed by no operator parses to
/// itself.
pub proof fn lemma_spelled_expr_parses(t: Seq<TokenView>, pos: nat, e: ExprView)
    requires
        spells_expr(t, pos, e),
        !is_operator(peek(t, pos + expr_len(e))),
    ensures
        level(t, pos, 0) == ok(e, expr_len(e)),
    decreases e,
{
    match e {
        ExprView::Binary(a, op, b) => {
            let la = expr_len(*a);
            let lb = expr_len(*b);
            let j = op_level(op);
            lemma_spelled_expr_parses(t, pos + 1, *a);
            assert(primary(t, pos) == ok(*a, la + 2));
            assert(level(t, pos, 4) == primary(t, pos));
            lemma_descend(t, pos, j + 1, 4, *a, la + 2);
            lemma_spelled_expr_parses(t, pos + 4 + la, *b);
            assert(primary(t, pos + 3 + la) == ok(*b, lb + 2));
            assert(level(t, pos + 3 + la, 4) == primary(t, pos + 3 + la));
            lemma_descend(t, pos + 3 + la, j + 1, 4, *b, lb + 2);
            assert(operator(j, peek(t, pos + la + 2)) == Some(op));
            let whole = ExprView::Binary(Box::new(*a), op, Box::new(*b));
            assert(whole == e);
            assert(chain(t, pos + la + 2 + 1 + lb + 2, j, whole) == ok(whole, 0));
            assert(chain(t, pos + la + 2, j, *a) == ok(whole, 3 + lb));
            assert(level(t, pos, j) == ok(e, expr_len(e)));
            lemma_descend(t, pos, 0, j, e, expr_len(e));
        },
        _ => {
            assert(primary(t, pos) == ok(e, 1));
            assert(level(t, pos, 4) == primary(t, pos));
            lemma_descend(t, pos, 0, 4, e, 1);
        },
    }
}

proof fn lemma_spelled_expr_starts(t: Seq<TokenView>, pos: nat, e: ExprView)
    requires
        spells_expr(t, pos, e),
    ensures
        peek(t, pos) is Number || peek(t, pos) is Str || peek(t, pos) is Ident || peek(t, pos)
            is LParen,
{
}

proof fn lemma_more_args(t: Seq<TokenView>, pos: nat, list: Seq<ExprView>, i: nat, acc: Seq<ExprView>)
    requires
        1 <= i <= list.len(),
        spells_more_args(t, pos, list, i),
        acc == list.take(i as int),
    ensures
        args_rest(t, pos, acc) == ok(list, more_args_len(list, i)),
        peek(t, pos + more_args_len(list, i)) == TokenView::RParen,
    decreases list.len() - i,
{
    if i >= list.len() {
        assert(acc =~= list);
    } else {
        let e = list[i as int];
        let next = pos + 1 + expr_len(e);
        assert(spells_more_args(t, next, list, i + 1));
        assert(peek(t, next) == TokenView::Comma || peek(t, next) == TokenView::RParen);
        lemma_spelled_expr_parses(t, pos + 1, e);
        assert(acc.push(e) =~= list.take(i + 1 as int));
        lemma_more_args(t, next, list, i + 1, acc.push(e));
    }
}

/// Arguments that are spelled out parse to themselves.
pub proof fn lemma_spelled_args_parse(t: Seq<TokenView>, pos: nat, list: Seq<ExprView>)
    requires
        spells_args(t, pos, list),
    ensures
        args(t, pos) == ok(list, args_len(list)),
        peek(t, pos + args_len(list)) == TokenView::RParen,
{
    if list.len() == 0 {
        assert(list =~= Seq::empty());
    } else {
        let e = list[0];
        let next = pos + expr_len(e);
        lemma_spelled_expr_starts(t, pos, e);
        assert(spells_more_args(t, next, list, 1));
        assert(peek(t, next) == TokenView::Comma || peek(t, next) == TokenView::RParen);
        lemma_spelled_expr_parses(t, pos, e);
        assert(seq![e] =~= list.take(1));
        lemma_more_args(t, next, list, 1, seq![e]);
    }
}

proof fn lemma_spelled_block_parses(t: Seq<TokenView>, pos: nat, nodes: Seq<NodeView>)
    requires
        spells_block(t, pos, nodes),
    ensures
        block(t, pos) == ok(nodes, nodes_len(nodes, 0) + 2),
    decreases nodes, nodes.len() + 1,
{
    assert(nodes.take(0) =~= Seq::empty());
    lemma_spelled_items(t, pos + 1, true, nodes, 0, Seq::empty());
}

proof fn lemma_spelled_items(
    t: Seq<TokenView>,
    pos: nat,
    nested: bool,
    nodes: Seq<NodeView>,
    i: nat,
    acc: Seq<NodeView>,
)
    requires
        i <= nodes.len(),
        spells_nodes(t, pos, nodes, i),
        acc == nodes.take(i as int),
        peek(t, pos + nodes_len(nodes, i)) == (if nested {
            TokenView::RBrace
        } else {
            TokenView::Eof
        }),
    ensures
        items(t, pos, nested, acc) == ok(nodes, nodes_len(nodes, i)),
    decreases nodes, nodes.len() - i,
{
    if i >= nodes.len() {
        assert(acc =~= nodes);
    } else {
        let n = nodes[i as int];
        lemma_spelled_node_parses(t, pos, n);
        assert(acc.push(n) =~= nodes.take(i + 1 as int));
        lemma_spelled_items(t, pos + node_len(n), nested, nodes, i + 1, acc.push(n));
    }
}

proof fn lemma_spelled_simple_parses(t: Seq<TokenView>, pos: nat, n: NodeView)
    requires
        spells_node(t, pos, n),
        n is VarDecl || n is Assign || n is Call,
    ensures
        n is VarDecl ==> var_decl(t, pos) == ok(n, node_len(n)),
        !(n is VarDecl) ==> call_or_assign(t, pos) == ok(n, node_len(n)),
{
    match n {
        NodeView::VarDecl { name, value } => {
            lemma_spelled_expr_parses(t, pos + 3, value);
        },
        NodeView::Assign { name, value } => {
            lemma_spelled_expr_parses(t, pos + 2, value);
        },
        NodeView::Call { name, args } => {
            lemma_spelled_args_parse(t, pos + 2, args);
        },
        _ => {},
    }
}

proof fn lemma_spelled_head_parses(t: Seq<TokenView>, pos: nat, e: ExprView)
    requires
        peek(t, pos + 1) == TokenView::LParen,
        spells_expr(t, pos + 2, e),
        peek(t, pos + 2 + expr_len(e)) == TokenView::RParen,
    ensures
        head(t, pos) == ok(e, expr_len(e) + 3),
{
    lemma_spelled_expr_parses(t, pos + 2, e);
}

proof fn lemma_spelled_loop_parses(t: Seq<TokenView>, pos: nat, n: NodeView)
    requires
        spells_node(t, pos, n),
        n is Loop,
    ensures
        loop_stmt(t, pos) == ok(n, node_len(n)),
    decreases n, 0nat,
{
    match n {
        NodeView::Loop { times, body } => {
            lemma_spelled_head_parses(t, pos, times);
            lemma_spelled_block_parses(t, pos + 3 + expr_len(times), body);
        },
        _ => {},
    }
}

#[verifier::rlimit(60)]
proof fn lemma_spelled_if_parses(t: Seq<TokenView>, pos: nat, n: NodeView)
    requires
        spells_node(t, pos, n),
        n is If,
    ensures
        if_stmt(t, pos) == ok(n, node_len(n)),
    decreases n, 0nat,
{
    match n {
        NodeView::If { cond, then_body, else_body } => {
            let h = expr_len(cond) + 3;
            let nt = nodes_len(then_body, 0);
            let q = pos + h + nt + 2;
            assert(spells_block(t, pos + h, then_body));
            lemma_spelled_head_parses(t, pos, cond);
            lemma_spelled_block_parses(t, pos + h, then_body);
            assert(q == pos + 5 + expr_len(cond) + nodes_len(then_body, 0));
            match else_body {
                Some(e) => {
                    assert(peek(t, q) == TokenView::Else);
                    assert(spells_block(t, q + 1, e));
                    lemma_spelled_block_parses(t, q + 1, e);
                    assert(block(t, q + 1) == ok(e, nodes_len(e, 0) + 2));
                    assert(node_len(n) == h + nt + 2 + 1 + (nodes_len(e, 0) + 2));
                },
                None => {
                    assert(peek(t, q) != TokenView::Else);
                    assert(node_len(n) == h + nt + 2);
                },
            }
        },
        _ => {},
    }
}

/// A statement that is spelled out parses to itself.
pub proof fn lemma_spelled_node_parses(t: Seq<TokenView>, pos: nat, n: NodeView)
    requires
        spells_node(t, pos, n),
    ensures
        stmt(t, pos) == ok(n, node_len(n)),
        node_len(n) > 0,
        peek(t, pos) is Var || peek(t, pos) is If || peek(t, pos) is Loop || peek(t, pos) is Ident,
    decreases n, 1nat,
{
    assert(semicolons(t, pos) == 0);
    match n {
        NodeView::Loop { .. } => {
            lemma_spelled_loop_parses(t, pos, n);
        },
        NodeView::If { .. } => {
            lemma_spelled_if_parses(t, pos, n);
        },
        _ => {
            lemma_spelled_simple_parses(t, pos, n);
        },
    }
}

/// The round trip: tokens that spell a program parse to that program, and the
/// parser takes all of them up to the end marker.
pub proof fn lemma_spelled_program_parses(t: Seq<TokenView>, nodes: Seq<NodeView>)
    requires
        spells_program(t, nodes),
    ensures
        program(t, 0) == ok(nodes, nodes_len(nodes, 0)),
{
    assert(nodes.take(0) =~= Seq::empty());
    lemma_spelled_items(t, 0, false, nodes, 0, Seq::empty());
}

} // verus!
