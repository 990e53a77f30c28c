use crate::ast::{exprs_view, nodes_view, Expr, ExprView, Node, NodeView, Op};
use crate::token::{tokens_view, Token, TokenView};
use vstd::prelude::*;

verus! {

/// Why a run of tokens is no program. Parsing stops at the first such fault.
#[derive(Debug, PartialEq)]
pub enum SyntaxError {
    /// A token that cannot stand where it was found.
    Unexpected(Token),
    /// A name was needed and something else was found.
    ExpectedIdentifier,
    /// One token was needed and another was found.
    Expected { expected: Token, found: Token },
}

/// What a syntax error stands for.
pub enum SyntaxErrorView {
    Unexpected(TokenView),
    ExpectedIdentifier,
    Expected { expected: TokenView, found: TokenView },
}

impl View for SyntaxError {
    type V = SyntaxErrorView;

    open spec fn view(&self) -> SyntaxErrorView {
        match self {
            SyntaxError::Unexpected(t) => SyntaxErrorView::Unexpected(t@),
            SyntaxError::ExpectedIdentifier => SyntaxErrorView::ExpectedIdentifier,
            SyntaxError::Expected { expected, found } => SyntaxErrorView::Expected {
                expected: expected@,
                found: found@,
            },
        }
    }
}

/// What parsing from some position gives: a value or the first fault, and the
/// number of tokens taken on the way.
pub struct Parsed<T> {
    pub result: Result<T, SyntaxErrorView>,
    pub used: nat,
}

impl<T> Parsed<T> {
    /// The same outcome after `n` more tokens taken before it.
    pub open spec fn shift(self, n: nat) -> Self {
        Parsed { result: self.result, used: self.used + n }
    }
}

/// Success with `value`, `used` tokens on.
pub open spec fn ok<T>(value: T, used: nat) -> Parsed<T> {
    Parsed { result: Ok(value), used }
}

/// The fault `error`, found `used` tokens on.
pub open spec fn fail<T>(error: SyntaxErrorView, used: nat) -> Parsed<T> {
    Parsed { result: Err(error), used }
}

/// The token at `pos`; the end marker past the last token.
pub open spec fn peek(t: Seq<TokenView>, pos: nat) -> TokenView {
    if pos < t.len() {
        t[pos as int]
    } else {
        TokenView::Eof
    }
}

/// How far one step from `pos` goes: the position never passes the end.
pub open spec fn step(t: Seq<TokenView>, pos: nat) -> nat {
    if pos < t.len() {
        1
    } else {
        0
    }
}

/// How many tokens are left from `pos` on.
pub open spec fn left(t: Seq<TokenView>, pos: nat) -> nat {
    if pos <= t.len() {
        (t.len() - pos) as nat
    } else {
        0
    }
}

/// `value` after the token `want`, which must stand at `pos`.
pub open spec fn expecting<T>(t: Seq<TokenView>, pos: nat, want: TokenView, value: T) -> Parsed<T> {
    if peek(t, pos) == want {
        ok(value, 1)
    } else {
        fail(SyntaxErrorView::Expected { expected: want, found: peek(t, pos) }, 0)
    }
}

/// The operator that a token is at binding level `k`. The levels, from the
/// loosest: 0 for `||`, 1 for `&&`, 2 for `==` and `!=`, 3 for the four order
/// comparisons.
pub open spec fn operator(k: nat, t: TokenView) -> Option<Op> {
    if k == 0 {
        match t {
            TokenView::OrOr => Some(Op::Or),
            _ => None,
        }
    } else if k == 1 {
        match t {
            TokenView::AndAnd => Some(Op::And),
            _ => None,
        }
    } else if k == 2 {
        match t {
            TokenView::EqEq => Some(Op::Eq),
            TokenView::Ne => Some(Op::Ne),
            _ => None,
        }
    } else if k == 3 {
        match t {
            TokenView::Gt => Some(Op::Gt),
            TokenView::Lt => Some(Op::Lt),
            TokenView::Ge => Some(Op::Ge),
            TokenView::Le => Some(Op::Le),
            _ => None,
        }
    } else {
        None
    }
}

// The functions of the grammar call one another. Each is measured by the
// tokens left and, among calls at one position, by a rank: a function calls
// at its own position only functions of lower rank.

/// A literal, a name or an expression in parentheses.
pub open spec fn primary(t: Seq<TokenView>, pos: nat) -> Parsed<ExprView>
    decreases left(t, pos), 0int,
{
    match peek(t, pos) {
        TokenView::Number(n) => ok(ExprView::Number(n), 1),
        TokenView::Str(s) => ok(ExprView::Str(s), 1),
        TokenView::Ident(s) => ok(ExprView::Var(s), 1),
        TokenView::LParen => {
            let inner = level(t, pos + 1, 0);
            match inner.result {
                Err(e) => fail(e, 1 + inner.used),
                Ok(e) => expecting(t, pos + 1 + inner.used, TokenView::RParen, e).shift(
                    1 + inner.used,
                ),
            }
        },
        other => fail(SyntaxErrorView::Unexpected(other), step(t, pos)),
    }
}

/// An expression whose operators bind at level `k` or tighter. Operators of
/// one level group to the left.
pub open spec fn level(t: Seq<TokenView>, pos: nat, k: nat) -> Parsed<ExprView>
    decreases left(t, pos),
        (if k >= 4 {
            1int
        } else {
            2 * (4 - k) + 1
        }),
{
    if k >= 4 {
        primary(t, pos)
    } else {
        let first = level(t, pos, k + 1);
        match first.result {
            Err(e) => first,
            Ok(lhs) => chain(t, pos + first.used, k, lhs).shift(first.used),
        }
    }
}

/// What follows the operand `lhs` at level `k`: operators of that level, each
/// with an operand of the next level.
pub open spec fn chain(t: Seq<TokenView>, pos: nat, k: nat, lhs: ExprView) -> Parsed<ExprView>
    decreases left(t, pos),
        (if k >= 4 {
            0int
        } else {
            2 * (4 - k)
        }),
{
    match operator(k, peek(t, pos)) {
        Some(op) => {
            let right = level(t, pos + 1, k + 1);
            match right.result {
                Err(e) => fail(e, 1 + right.used),
                Ok(rhs) => chain(
                    t,
                    pos + 1 + right.used,
                    k,
                    ExprView::Binary(Box::new(lhs), op, Box::new(rhs)),
                ).shift(1 + right.used),
            }
        },
        None => ok(lhs, 0),
    }
}

/// An expression.
pub open spec fn expr(t: Seq<TokenView>, pos: nat) -> Parsed<ExprView> {
    level(t, pos, 0)
}

/// The arguments of a call, up to the closing parenthesis.
pub open spec fn args(t: Seq<TokenView>, pos: nat) -> Parsed<Seq<ExprView>>
    decreases left(t, pos), 11int,
{
    if peek(t, pos) == TokenView::RParen {
        ok(Seq::empty(), 0)
    } else {
        let first = level(t, pos, 0);
        match first.result {
            Err(e) => fail(e, first.used),
            Ok(e) => args_rest(t, pos + first.used, seq![e]).shift(first.used),
        }
    }
}

/// The arguments after those in `acc`: each after a comma.
pub open spec fn args_rest(t: Seq<TokenView>, pos: nat, acc: Seq<ExprView>) -> Parsed<
    Seq<ExprView>,
>
    decreases left(t, pos), 10int,
{
    if peek(t, pos) == TokenView::Comma {
        let next = level(t, pos + 1, 0);
        match next.result {
            Err(e) => fail(e, 1 + next.used),
            Ok(e) => args_rest(t, pos + 1 + next.used, acc.push(e)).shift(1 + next.used),
        }
    } else {
        ok(acc, 0)
    }
}

/// How many semicolons stand at `pos` in a row.
pub open spec fn semicolons(t: Seq<TokenView>, pos: nat) -> nat
    decreases left(t, pos),
{
    if peek(t, pos) == TokenView::Semicolon {
        1 + semicolons(t, pos + 1)
    } else {
        0
    }
}

/// A declaration, `var name = expr ;`, where `var` stands at `pos`.
pub open spec fn var_decl(t: Seq<TokenView>, pos: nat) -> Parsed<NodeView> {
    match peek(t, pos + 1) {
        TokenView::Ident(name) => {
            if peek(t, pos + 2) != TokenView::Eq {
                fail(
                    SyntaxErrorView::Expected { expected: TokenView::Eq, found: peek(t, pos + 2) },
                    2,
                )
            } else {
                let v = expr(t, pos + 3);
                match v.result {
                    Err(e) => fail(e, 3 + v.used),
                    Ok(value) => expecting(
                        t,
                        pos + 3 + v.used,
                        TokenView::Semicolon,
                        NodeView::VarDecl { name, value },
                    ).shift(3 + v.used),
                }
            }
        },
        _ => fail(SyntaxErrorView::ExpectedIdentifier, 1 + step(t, pos + 1)),
    }
}

/// An assignment, `name = expr ;`, or a call, `name ( args ) ;`, where the
/// name stands at `pos`.
pub open spec fn call_or_assign(t: Seq<TokenView>, pos: nat) -> Parsed<NodeView> {
    match peek(t, pos) {
        TokenView::Ident(name) => {
            if peek(t, pos + 1) == TokenView::Eq {
                let v = expr(t, pos + 2);
                match v.result {
                    Err(e) => fail(e, 2 + v.used),
                    Ok(value) => expecting(
                        t,
                        pos + 2 + v.used,
                        TokenView::Semicolon,
                        NodeView::Assign { name, value },
                    ).shift(2 + v.used),
                }
            } else if peek(t, pos + 1) == TokenView::LParen {
                let a = args(t, pos + 2);
                match a.result {
                    Err(e) => fail(e, 2 + a.used),
                    Ok(list) => {
                        if peek(t, pos + 2 + a.used) != TokenView::RParen {
                            fail(
                                SyntaxErrorView::Expected {
                                    expected: TokenView::RParen,
                                    found: peek(t, pos + 2 + a.used),
                                },
                                2 + a.used,
                            )
                        } else {
                            expecting(
                                t,
                                pos + 3 + a.used,
                                TokenView::Semicolon,
                                NodeView::Call { name, args: list },
                            ).shift(3 + a.used)
                        }
                    },
                }
            } else {
                fail(
                    SyntaxErrorView::Expected {
                        expected: TokenView::LParen,
                        found: peek(t, pos + 1),
                    },
                    1,
                )
            }
        },
        _ => fail(SyntaxErrorView::ExpectedIdentifier, step(t, pos)),
    }
}

/// An expression in parentheses after a keyword that stands at `pos`.
pub open spec fn head(t: Seq<TokenView>, pos: nat) -> Parsed<ExprView> {
    if peek(t, pos + 1) != TokenView::LParen {
        fail(
            SyntaxErrorView::Expected { expected: TokenView::LParen, found: peek(t, pos + 1) },
            1,
        )
    } else {
        let c = expr(t, pos + 2);
        match c.result {
            Err(e) => fail(e, 2 + c.used),
            Ok(e) => expecting(t, pos + 2 + c.used, TokenView::RParen, e).shift(2 + c.used),
        }
    }
}

/// A conditional, `if ( expr ) block`, with `else block` after it or not,
/// where `if` stands at `pos`.
pub open spec fn if_stmt(t: Seq<TokenView>, pos: nat) -> Parsed<NodeView>
    decreases left(t, pos), 12int,
{
    let h = head(t, pos);
    match h.result {
        Err(e) => fail(e, h.used),
        Ok(cond) => {
            let b = block(t, pos + h.used);
            match b.result {
                Err(e) => fail(e, h.used + b.used),
                Ok(then_body) => {
                    let q = pos + h.used + b.used;
                    if peek(t, q) == TokenView::Else {
                        let e = block(t, q + 1);
                        match e.result {
                            Err(x) => fail(x, h.used + b.used + 1 + e.used),
                            Ok(else_body) => ok(
                                NodeView::If { cond, then_body, else_body: Some(else_body) },
                                h.used + b.used + 1 + e.used,
                            ),
                        }
                    } else {
                        ok(NodeView::If { cond, then_body, else_body: None }, h.used + b.used)
                    }
                },
            }
        },
    }
}

/// A counted loop, `loop ( expr ) block`, where `loop` stands at `pos`.
pub open spec fn loop_stmt(t: Seq<TokenView>, pos: nat) -> Parsed<NodeView>
    decreases left(t, pos), 12int,
{
    let h = head(t, pos);
    match h.result {
        Err(e) => fail(e, h.used),
        Ok(times) => {
            let b = block(t, pos + h.used);
            match b.result {
                Err(e) => fail(e, h.used + b.used),
                Ok(body) => ok(NodeView::Loop { times, body }, h.used + b.used),
            }
        },
    }
}

/// Statements between braces.
pub open spec fn block(t: Seq<TokenView>, pos: nat) -> Parsed<Seq<NodeView>>
    decreases left(t, pos), 12int,
{
    if peek(t, pos) != TokenView::LBrace {
        fail(SyntaxErrorView::Expected { expected: TokenView::LBrace, found: peek(t, pos) }, 0)
    } else {
        let inner = items(t, pos + 1, true, Seq::empty());
        match inner.result {
            Err(e) => fail(e, 1 + inner.used),
            Ok(nodes) => expecting(t, pos + 1 + inner.used, TokenView::RBrace, nodes).shift(
                1 + inner.used,
            ),
        }
    }
}

/// One statement, after any semicolons before it.
pub open spec fn stmt(t: Seq<TokenView>, pos: nat) -> Parsed<NodeView>
    decreases left(t, pos), 13int,
{
    let skipped = semicolons(t, pos);
    let p = pos + skipped;
    match peek(t, p) {
        TokenView::Var => var_decl(t, p).shift(skipped),
        TokenView::If => if_stmt(t, p).shift(skipped),
        TokenView::Loop => loop_stmt(t, p).shift(skipped),
        TokenView::Ident(_) => call_or_assign(t, p).shift(skipped),
        other => fail(SyntaxErrorView::Unexpected(other), skipped),
    }
}

/// The statements after those in `acc`, up to the end marker or, where
/// `nested` holds, up to a closing brace. After each statement the list goes
/// on behind it; a statement always takes a token
/// (`lemma_stmt_takes_tokens`), so the other branch is never taken and stands
/// only to show that the definition ends.
pub open spec fn items(t: Seq<TokenView>, pos: nat, nested: bool, acc: Seq<NodeView>) -> Parsed<
    Seq<NodeView>,
>
    decreases left(t, pos), 14int,
{
    if peek(t, pos) == TokenView::Eof || (nested && peek(t, pos) == TokenView::RBrace) {
        ok(acc, 0)
    } else {
        let s = stmt(t, pos);
        match s.result {
            Err(e) => fail(e, s.used),
            Ok(n) => if s.used > 0 {
                items(t, pos + s.used, nested, acc.push(n)).shift(s.used)
            } else {
                ok(acc.push(n), 0)
            },
        }
    }
}

/// A program: statements up to the end marker.
pub open spec fn program(t: Seq<TokenView>, pos: nat) -> Parsed<Seq<NodeView>> {
    items(t, pos, false, Seq::empty())
}

/// A statement that parses takes at least one token, so that `items` always
/// goes on behind the statement it has read.
pub proof fn lemma_stmt_takes_tokens(t: Seq<TokenView>, pos: nat)
    ensures
        stmt(t, pos).result is Ok ==> stmt(t, pos).used > 0,
{
    let p = pos + semicolons(t, pos);
    match peek(t, p) {
        TokenView::If => {
            assert(if_stmt(t, p).result is Ok ==> if_stmt(t, p).used > 0);
        },
        TokenView::Loop => {
            assert(loop_stmt(t, p).result is Ok ==> loop_stmt(t, p).used > 0);
        },
        _ => {},
    }
}

spec fn expr_outcome(r: Result<Expr, SyntaxError>) -> Result<ExprView, SyntaxErrorView> {
    match r {
        Ok(e) => Ok(e@),
        Err(e) => Err(e@),
    }
}

spec fn exprs_outcome(r: Result<Vec<Expr>, SyntaxError>) -> Result<
    Seq<ExprView>,
    SyntaxErrorView,
> {
    match r {
        Ok(v) => Ok(exprs_view(v@)),
        Err(e) => Err(e@),
    }
}

spec fn node_outcome(r: Result<Node, SyntaxError>) -> Result<NodeView, SyntaxErrorView> {
    match r {
        Ok(n) => Ok(n@),
        Err(e) => Err(e@),
    }
}

/// What `r` says in terms of views: the statements, or the fault.
pub open spec fn nodes_outcome(r: Result<Vec<Node>, SyntaxError>) -> Result<
    Seq<NodeView>,
    SyntaxErrorView,
> {
    match r {
        Ok(v) => Ok(nodes_view(v@)),
        Err(e) => Err(e@),
    }
}

/// Builds statements from tokens by recursive descent.
pub struct Parser {
    tokens: Vec<Token>,
    pos: usize,
}

impl Parser {
    #[verifier::type_invariant]
    spec fn in_tokens(&self) -> bool {
        self.pos <= self.tokens.len()
    }

    /// The tokens being parsed.
    pub closed spec fn tokens(&self) -> Seq<TokenView> {
        tokens_view(self.tokens@)
    }

    /// How many tokens have been taken.
    pub closed spec fn position(&self) -> nat {
        self.pos as nat
    }

    spec fn advanced(&self, before: &Parser, used: nat) -> bool {
        self.tokens@ == before.tokens@ && self.pos == before.pos + used
    }

    /// A parser at the first of `tokens`.
    pub fn new(tokens: Vec<Token>) -> (parser: Self)
        ensures
            parser.tokens() == tokens_view(tokens@),
            parser.position() == 0,
    {
        Self { tokens, pos: 0 }
    }

    /// The statements from the current position up to the end marker, or the
    /// first syntax error on the way.
    #[verifier::rlimit(50)]
    #[verifier::loop_isolation(false)]
    pub fn parse(&mut self) -> (r: Result<Vec<Node>, SyntaxError>)
        ensures
            final(self).tokens() == old(self).tokens(),
            final(self).position() == old(self).position() + program(
                old(self).tokens(),
                old(self).position(),
            ).used,
            nodes_outcome(r) == program(old(self).tokens(), old(self).position()).result,
        decreases left(old(self).tokens(), old(self).position()), 14int,
    {
        let ghost t = self.tokens();
        let ghost start = self.pos as nat;
        let mut nodes: Vec<Node> = Vec::new();
        assert(nodes_view(nodes@) =~= Seq::empty());
        loop
            invariant
                self.tokens@ == old(self).tokens@,
                start <= self.pos,
                program(t, start) == items(t, self.pos as nat, false, nodes_view(nodes@)).shift(
                    (self.pos - start) as nat,
                ),
            decreases left(t, self.pos as nat),
        {
            proof {
                use_type_invariant(&*self);
                lemma_stmt_takes_tokens(t, self.pos as nat);
            }
            if self.check(Token::Eof) {
                return Ok(nodes);
            }
            let ghost acc = nodes_view(nodes@);
            match self.stmt() {
                Err(e) => {
                    return Err(e);
                },
                Ok(n) => {
                    nodes.push(n);
                    assert(nodes_view(nodes@) =~= acc.push(n@));
                },
            }
        }
    }

    #[verifier::rlimit(50)]
    #[verifier::loop_isolation(false)]
    fn stmt(&mut self) -> (r: Result<Node, SyntaxError>)
        ensures
            final(self).advanced(old(self), stmt(old(self).tokens(), old(self).position()).used),
            node_outcome(r) == stmt(old(self).tokens(), old(self).position()).result,
        decreases left(old(self).tokens(), old(self).position()), 13int,
    {
        let ghost t = self.tokens();
        let ghost start = self.pos as nat;
        proof {
            use_type_invariant(&*self);
        }
        while self.match_tok(Token::Semicolon)
            invariant
                self.tokens@ == old(self).tokens@,
                start <= self.pos <= t.len(),
                self.pos + semicolons(t, self.pos as nat) == start + semicolons(t, start),
            decreases left(t, self.pos as nat),
        {
        }
        match self.peek() {
            Token::Var => self.var_decl(),
            Token::If => self.if_stmt(),
            Token::Loop => self.loop_stmt(),
            Token::Ident(_) => self.call_or_assign(),
            t => Err(SyntaxError::Unexpected(t)),
        }
    }

    #[verifier::rlimit(50)]
    fn var_decl(&mut self) -> (r: Result<Node, SyntaxError>)
        requires
            peek(old(self).tokens(), old(self).position()) == TokenView::Var,
        ensures
            final(self).advanced(old(self), var_decl(old(self).tokens(), old(self).position()).used),
            node_outcome(r) == var_decl(old(self).tokens(), old(self).position()).result,
        decreases left(old(self).tokens(), old(self).position()), 12int,
    {
        self.advance();
        let name = match self.ident() {
            Ok(name) => name,
            Err(e) => {
                return Err(e);
            },
        };
        match self.expect(Token::Eq) {
            Ok(()) => {},
            Err(e) => {
                return Err(e);
            },
        }
        let value = match self.expr() {
            Ok(value) => value,
            Err(e) => {
                return Err(e);
            },
        };
        match self.expect(Token::Semicolon) {
            Ok(()) => {},
            Err(e) => {
                return Err(e);
            },
        }
        Ok(Node::VarDecl { name, value })
    }

    #[verifier::rlimit(50)]
    fn call_or_assign(&mut self) -> (r: Result<Node, SyntaxError>)
        ensures
            final(self).advanced(
                old(self),
                call_or_assign(old(self).tokens(), old(self).position()).used,
            ),
            node_outcome(r) == call_or_assign(old(self).tokens(), old(self).position()).result,
        decreases left(old(self).tokens(), old(self).position()), 12int,
    {
        let name = match self.ident() {
            Ok(name) => name,
            Err(e) => {
                return Err(e);
            },
        };
        if self.match_tok(Token::Eq) {
            let value = match self.expr() {
                Ok(value) => value,
                Err(e) => {
                    return Err(e);
                },
            };
            match self.expect(Token::Semicolon) {
                Ok(()) => {},
                Err(e) => {
                    return Err(e);
                },
            }
            Ok(Node::Assign { name, value })
        } else {
            match self.expect(Token::LParen) {
                Ok(()) => {},
                Err(e) => {
                    return Err(e);
                },
            }
            let args = match self.args() {
                Ok(args) => args,
                Err(e) => {
                    return Err(e);
                },
            };
            match self.expect(Token::RParen) {
                Ok(()) => {},
                Err(e) => {
                    return Err(e);
                },
            }
            match self.expect(Token::Semicolon) {
                Ok(()) => {},
                Err(e) => {
                    return Err(e);
                },
            }
            Ok(Node::Call { name, args })
        }
    }

    #[verifier::rlimit(50)]
    fn head(&mut self) -> (r: Result<Expr, SyntaxError>)
        requires
            old(self).position() < old(self).tokens().len(),
        ensures
            final(self).advanced(old(self), head(old(self).tokens(), old(self).position()).used),
            expr_outcome(r) == head(old(self).tokens(), old(self).position()).result,
        decreases left(old(self).tokens(), old(self).position()), 11int,
    {
        self.advance();
        match self.expect(Token::LParen) {
            Ok(()) => {},
            Err(e) => {
                return Err(e);
            },
        }
        let e = match self.expr() {
            Ok(e) => e,
            Err(e) => {
                return Err(e);
            },
        };
        match self.expect(Token::RParen) {
            Ok(()) => {},
            Err(e) => {
                return Err(e);
            },
        }
        Ok(e)
    }

    #[verifier::rlimit(50)]
    fn if_stmt(&mut self) -> (r: Result<Node, SyntaxError>)
        requires
            peek(old(self).tokens(), old(self).position()) == TokenView::If,
        ensures
            final(self).advanced(old(self), if_stmt(old(self).tokens(), old(self).position()).used),
            node_outcome(r) == if_stmt(old(self).tokens(), old(self).position()).result,
        decreases left(old(self).tokens(), old(self).position()), 12int,
    {
        let cond = match self.head() {
            Ok(cond) => cond,
            Err(e) => {
                return Err(e);
            },
        };
        let then_body = match self.block() {
            Ok(body) => body,
            Err(e) => {
                return Err(e);
            },
        };
        let else_body = if self.match_tok(Token::Else) {
            match self.block() {
                Ok(body) => Some(body),
                Err(e) => {
                    return Err(e);
                },
            }
        } else {
            None
        };
        Ok(Node::If { cond, then_body, else_body })
    }

    #[verifier::rlimit(50)]
    fn loop_stmt(&mut self) -> (r: Result<Node, SyntaxError>)
        requires
            peek(old(self).tokens(), old(self).position()) == TokenView::Loop,
        ensures
            final(self).advanced(
                old(self),
                loop_stmt(old(self).tokens(), old(self).position()).used,
            ),
            node_outcome(r) == loop_stmt(old(self).tokens(), old(self).position()).result,
        decreases left(old(self).tokens(), old(self).position()), 12int,
    {
        let times = match self.head() {
            Ok(times) => times,
            Err(e) => {
                return Err(e);
            },
        };
        let body = match self.block() {
            Ok(body) => body,
            Err(e) => {
                return Err(e);
            },
        };
        Ok(Node::Loop { times, body })
    }

    #[verifier::rlimit(50)]
    fn block(&mut self) -> (r: Result<Vec<Node>, SyntaxError>)
        ensures
            final(self).advanced(old(self), block(old(self).tokens(), old(self).position()).used),
            nodes_outcome(r) == block(old(self).tokens(), old(self).position()).result,
        decreases left(old(self).tokens(), old(self).position()), 12int,
    {
        match self.expect(Token::LBrace) {
            Ok(()) => {},
            Err(e) => {
                return Err(e);
            },
        }
        let nodes = match self.block_body() {
            Ok(nodes) => nodes,
            Err(e) => {
                return Err(e);
            },
        };
        match self.expect(Token::RBrace) {
            Ok(()) => {},
            Err(e) => {
                return Err(e);
            },
        }
        Ok(nodes)
    }

    #[verifier::rlimit(50)]
    #[verifier::loop_isolation(false)]
    fn block_body(&mut self) -> (r: Result<Vec<Node>, SyntaxError>)
        ensures
            final(self).advanced(
                old(self),
                items(old(self).tokens(), old(self).position(), true, Seq::empty()).used,
            ),
            nodes_outcome(r) == items(
                old(self).tokens(),
                old(self).position(),
                true,
                Seq::empty(),
            ).result,
        decreases left(old(self).tokens(), old(self).position()), 14int,
    {
        let ghost t = self.tokens();
        let ghost start = self.pos as nat;
        let mut nodes: Vec<Node> = Vec::new();
        assert(nodes_view(nodes@) =~= Seq::empty());
        while !self.check(Token::RBrace) && !self.check(Token::Eof)
            invariant
                self.tokens@ == old(self).tokens@,
                start <= self.pos,
                items(t, start, true, Seq::empty()) == items(
                    t,
                    self.pos as nat,
                    true,
                    nodes_view(nodes@),
                ).shift((self.pos - start) as nat),
            decreases left(t, self.pos as nat),
        {
            proof {
                use_type_invariant(&*self);
                lemma_stmt_takes_tokens(t, self.pos as nat);
            }
            let ghost acc = nodes_view(nodes@);
            match self.stmt() {
                Err(e) => {
                    return Err(e);
                },
                Ok(n) => {
                    nodes.push(n);
                    assert(nodes_view(nodes@) =~= acc.push(n@));
                },
            }
        }
        Ok(nodes)
    }

    fn expr(&mut self) -> (r: Result<Expr, SyntaxError>)
        ensures
            final(self).advanced(old(self), expr(old(self).tokens(), old(self).position()).used),
            expr_outcome(r) == expr(old(self).tokens(), old(self).position()).result,
        decreases left(old(self).tokens(), old(self).position()), 10int,
    {
        self.logic_or()
    }

    #[verifier::rlimit(50)]
    #[verifier::loop_isolation(false)]
    fn logic_or(&mut self) -> (r: Result<Expr, SyntaxError>)
        ensures
            final(self).advanced(old(self), level(old(self).tokens(), old(self).position(), 0).used),
            expr_outcome(r) == level(old(self).tokens(), old(self).position(), 0).result,
        decreases left(old(self).tokens(), old(self).position()), 9int,
    {
        let ghost t = self.tokens();
        let ghost start = self.pos as nat;
        let mut e = match self.logic_and() {
            Ok(e) => e,
            Err(x) => {
                return Err(x);
            },
        };
        loop
            invariant
                self.tokens@ == old(self).tokens@,
                start <= self.pos,
                level(t, start, 0) == chain(t, self.pos as nat, 0, e@).shift(
                    (self.pos - start) as nat,
                ),
            decreases left(t, self.pos as nat),
        {
            proof {
                use_type_invariant(&*self);
            }
            if !self.match_tok(Token::OrOr) {
                return Ok(e);
            }
            match self.logic_and() {
                Err(x) => {
                    return Err(x);
                },
                Ok(r) => {
                    e = Expr::Binary(Box::new(e), Op::Or, Box::new(r));
                },
            }
        }
    }

    #[verifier::rlimit(50)]
    #[verifier::loop_isolation(false)]
    fn logic_and(&mut self) -> (r: Result<Expr, SyntaxError>)
        ensures
            final(self).advanced(old(self), level(old(self).tokens(), old(self).position(), 1).used),
            expr_outcome(r) == level(old(self).tokens(), old(self).position(), 1).result,
        decreases left(old(self).tokens(), old(self).position()), 7int,
    {
        let ghost t = self.tokens();
        let ghost start = self.pos as nat;
        let mut e = match self.equality() {
            Ok(e) => e,
            Err(x) => {
                return Err(x);
            },
        };
        loop
            invariant
                self.tokens@ == old(self).tokens@,
                start <= self.pos,
                level(t, start, 1) == chain(t, self.pos as nat, 1, e@).shift(
                    (self.pos - start) as nat,
                ),
            decreases left(t, self.pos as nat),
        {
            proof {
                use_type_invariant(&*self);
            }
            if !self.match_tok(Token::AndAnd) {
                return Ok(e);
            }
            match self.equality() {
                Err(x) => {
                    return Err(x);
                },
                Ok(r) => {
                    e = Expr::Binary(Box::new(e), Op::And, Box::new(r));
                },
            }
        }
    }

    #[verifier::rlimit(50)]
    #[verifier::loop_isolation(false)]
    fn equality(&mut self) -> (r: Result<Expr, SyntaxError>)
        ensures
            final(self).advanced(old(self), level(old(self).tokens(), old(self).position(), 2).used),
            expr_outcome(r) == level(old(self).tokens(), old(self).position(), 2).result,
        decreases left(old(self).tokens(), old(self).position()), 5int,
    {
        let ghost t = self.tokens();
        let ghost start = self.pos as nat;
        let mut e = match self.compare() {
            Ok(e) => e,
            Err(x) => {
                return Err(x);
            },
        };
        loop
            invariant
                self.tokens@ == old(self).tokens@,
                start <= self.pos,
                level(t, start, 2) == chain(t, self.pos as nat, 2, e@).shift(
                    (self.pos - start) as nat,
                ),
            decreases left(t, self.pos as nat),
        {
            proof {
                use_type_invariant(&*self);
            }
            let op = match self.peek() {
                Token::EqEq => Op::Eq,
                Token::Ne => Op::Ne,
                _ => {
                    return Ok(e);
                },
            };
            self.advance();
            match self.compare() {
                Err(x) => {
                    return Err(x);
                },
                Ok(r) => {
                    e = Expr::Binary(Box::new(e), op, Box::new(r));
                },
            }
        }
    }

    #[verifier::rlimit(50)]
    #[verifier::loop_isolation(false)]
    fn compare(&mut self) -> (r: Result<Expr, SyntaxError>)
        ensures
            final(self).advanced(old(self), level(old(self).tokens(), old(self).position(), 3).used),
            expr_outcome(r) == level(old(self).tokens(), old(self).position(), 3).result,
        decreases left(old(self).tokens(), old(self).position()), 3int,
    {
        let ghost t = self.tokens();
        let ghost start = self.pos as nat;
        assert(level(t, start, 4) == primary(t, start));
        let mut e = match self.primary() {
            Ok(e) => e,
            Err(x) => {
                return Err(x);
            },
        };
        loop
            invariant
                self.tokens@ == old(self).tokens@,
                start <= self.pos,
                level(t, start, 3) == chain(t, self.pos as nat, 3, e@).shift(
                    (self.pos - start) as nat,
                ),
            decreases left(t, self.pos as nat),
        {
            proof {
                use_type_invariant(&*self);
                assert(level(t, (self.pos + 1) as nat, 4) == primary(t, (self.pos + 1) as nat));
            }
            let op = match self.peek() {
                Token::Gt => Op::Gt,
                Token::Lt => Op::Lt,
                Token::Ge => Op::Ge,
                Token::Le => Op::Le,
                _ => {
                    return Ok(e);
                },
            };
            self.advance();
            match self.primary() {
                Err(x) => {
                    return Err(x);
                },
                Ok(r) => {
                    e = Expr::Binary(Box::new(e), op, Box::new(r));
                },
            }
        }
    }

    #[verifier::rlimit(50)]
    fn primary(&mut self) -> (r: Result<Expr, SyntaxError>)
        ensures
            final(self).advanced(old(self), primary(old(self).tokens(), old(self).position()).used),
            expr_outcome(r) == primary(old(self).tokens(), old(self).position()).result,
        decreases left(old(self).tokens(), old(self).position()), 0int,
    {
        match self.advance() {
            Token::Number(n) => Ok(Expr::Number(n)),
            Token::Str(s) => Ok(Expr::Str(s)),
            Token::Ident(s) => Ok(Expr::Var(s)),
            Token::LParen => {
                let e = match self.expr() {
                    Ok(e) => e,
                    Err(x) => {
                        return Err(x);
                    },
                };
                match self.expect(Token::RParen) {
                    Ok(()) => {},
                    Err(x) => {
                        return Err(x);
                    },
                }
                Ok(e)
            },
            t => Err(SyntaxError::Unexpected(t)),
        }
    }

    #[verifier::rlimit(50)]
    #[verifier::loop_isolation(false)]
    fn args(&mut self) -> (r: Result<Vec<Expr>, SyntaxError>)
        ensures
            final(self).advanced(old(self), args(old(self).tokens(), old(self).position()).used),
            exprs_outcome(r) == args(old(self).tokens(), old(self).position()).result,
        decreases left(old(self).tokens(), old(self).position()), 11int,
    {
        let ghost t = self.tokens();
        let ghost start = self.pos as nat;
        let mut a: Vec<Expr> = Vec::new();
        if self.check(Token::RParen) {
            assert(exprs_view(a@) =~= Seq::empty());
            return Ok(a);
        }
        match self.expr() {
            Err(x) => {
                return Err(x);
            },
            Ok(e) => {
                a.push(e);
                assert(exprs_view(a@) =~= seq![e@]);
            },
        }
        loop
            invariant
                self.tokens@ == old(self).tokens@,
                start <= self.pos,
                args(t, start) == args_rest(t, self.pos as nat, exprs_view(a@)).shift(
                    (self.pos - start) as nat,
                ),
            decreases left(t, self.pos as nat),
        {
            proof {
                use_type_invariant(&*self);
            }
            if !self.match_tok(Token::Comma) {
                return Ok(a);
            }
            let ghost acc = exprs_view(a@);
            match self.expr() {
                Err(x) => {
                    return Err(x);
                },
                Ok(e) => {
                    a.push(e);
                    assert(exprs_view(a@) =~= acc.push(e@));
                },
            }
        }
    }

    fn ident(&mut self) -> (r: Result<String, SyntaxError>)
        ensures
            final(self).tokens@ == old(self).tokens@,
            match peek(old(self).tokens(), old(self).position()) {
                TokenView::Ident(name) => {
                    &&& r matches Ok(s)
                    &&& s@ == name
                    &&& final(self).pos == old(self).pos + 1
                },
                _ => {
                    &&& r matches Err(e)
                    &&& e@ == SyntaxErrorView::ExpectedIdentifier
                    &&& final(self).pos == old(self).pos + step(
                        old(self).tokens(),
                        old(self).position(),
                    )
                },
            },
    {
        match self.advance() {
            Token::Ident(s) => Ok(s),
            _ => Err(SyntaxError::ExpectedIdentifier),
        }
    }

    fn expect(&mut self, t: Token) -> (r: Result<(), SyntaxError>)
        requires
            t@ != TokenView::Eof,
        ensures
            final(self).tokens@ == old(self).tokens@,
            match r {
                Ok(_) => {
                    &&& peek(old(self).tokens(), old(self).position()) == t@
                    &&& final(self).pos == old(self).pos + 1
                },
                Err(e) => {
                    &&& peek(old(self).tokens(), old(self).position()) != t@
                    &&& final(self).pos == old(self).pos
                    &&& e@ == SyntaxErrorView::Expected {
                        expected: t@,
                        found: peek(old(self).tokens(), old(self).position()),
                    }
                },
            },
    {
        if self.match_tok(t.clone()) {
            Ok(())
        } else {
            Err(SyntaxError::Expected { expected: t, found: self.peek() })
        }
    }

    fn peek(&self) -> (t: Token)
        ensures
            t@ == peek(self.tokens(), self.position()),
    {
        if self.pos < self.tokens.len() {
            self.tokens[self.pos].clone()
        } else {
            Token::Eof
        }
    }

    fn advance(&mut self) -> (t: Token)
        ensures
            t@ == peek(old(self).tokens(), old(self).position()),
            final(self).advanced(old(self), step(old(self).tokens(), old(self).position())),
    {
        let t = self.peek();
        if self.pos < self.tokens.len() {
            self.pos += 1;
        }
        t
    }

    fn check(&self, t: Token) -> (r: bool)
        ensures
            r == (peek(self.tokens(), self.position()) == t@),
    {
        self.peek() == t
    }

    fn match_tok(&mut self, t: Token) -> (r: bool)
        ensures
            r == (peek(old(self).tokens(), old(self).position()) == t@),
            final(self).advanced(
                old(self),
                if r {
                    step(old(self).tokens(), old(self).position())
                } else {
                    0
                },
            ),
    {
        if self.check(t.clone()) {
            self.advance();
            true
        } else {
            false
        }
    }
}

} // verus!
