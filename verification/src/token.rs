use vstd::prelude::*;

verus! {

/// A lexical atom of the language.
#[derive(Debug)]
pub enum Token {
    Var,
    If,
    Else,
    Loop,
    Ident(String),
    Number(i64),
    Str(String),
    LParen,
    RParen,
    LBrace,
    RBrace,
    Comma,
    Semicolon,
    Eq,
    EqEq,
    Ne,
    Gt,
    Lt,
    Ge,
    Le,
    AndAnd,
    OrOr,
    Eof,
}

/// What a token stands for: its text as a sequence of characters, its number
/// as a mathematical integer.
pub enum TokenView {
    Var,
    If,
    Else,
    Loop,
    Ident(Seq<char>),
    Number(int),
    Str(Seq<char>),
    LParen,
    RParen,
    LBrace,
    RBrace,
    Comma,
    Semicolon,
    Eq,
    EqEq,
    Ne,
    Gt,
    Lt,
    Ge,
    Le,
    AndAnd,
    OrOr,
    Eof,
}

impl View for Token {
    type V = TokenView;

    open spec fn view(&self) -> TokenView {
        match self {
            Token::Var => TokenView::Var,
            Token::If => TokenView::If,
            Token::Else => TokenView::Else,
            Token::Loop => TokenView::Loop,
            Token::Ident(s) => TokenView::Ident(s@),
            Token::Number(n) => TokenView::Number(*n as int),
            Token::Str(s) => TokenView::Str(s@),
            Token::LParen => TokenView::LParen,
            Token::RParen => TokenView::RParen,
            Token::LBrace => TokenView::LBrace,
            Token::RBrace => TokenView::RBrace,
            Token::Comma => TokenView::Comma,
            Token::Semicolon => TokenView::Semicolon,
            Token::Eq => TokenView::Eq,
            Token::EqEq => TokenView::EqEq,
            Token::Ne => TokenView::Ne,
            Token::Gt => TokenView::Gt,
            Token::Lt => TokenView::Lt,
            Token::Ge => TokenView::Ge,
            Token::Le => TokenView::Le,
            Token::AndAnd => TokenView::AndAnd,
            Token::OrOr => TokenView::OrOr,
            Token::Eof => TokenView::Eof,
        }
    }
}

/// The views of a run of tokens, in order.
pub open spec fn tokens_view(tokens: Seq<Token>) -> Seq<TokenView> {
    tokens.map_values(|t: Token| t@)
}

/// Whether a token can end an operand: a name, a literal or a closing
/// parenthesis. A line break after such a token ends the statement.
pub open spec fn closes_operand(t: TokenView) -> bool {
    t is Ident || t is Number || t is Str || t is RParen
}

impl Clone for Token {
    fn clone(&self) -> (r: Self)
        ensures
            r@ == self@,
    {
        match self {
            Token::Var => Token::Var,
            Token::If => Token::If,
            Token::Else => Token::Else,
            Token::Loop => Token::Loop,
            Token::Ident(s) => Token::Ident(s.clone()),
            Token::Number(n) => Token::Number(*n),
            Token::Str(s) => Token::Str(s.clone()),
            Token::LParen => Token::LParen,
            Token::RParen => Token::RParen,
            Token::LBrace => Token::LBrace,
            Token::RBrace => Token::RBrace,
            Token::Comma => Token::Comma,
            Token::Semicolon => Token::Semicolon,
            Token::Eq => Token::Eq,
            Token::EqEq => Token::EqEq,
            Token::Ne => Token::Ne,
            Token::Gt => Token::Gt,
            Token::Lt => Token::Lt,
            Token::Ge => Token::Ge,
            Token::Le => Token::Le,
            Token::AndAnd => Token::AndAnd,
            Token::OrOr => Token::OrOr,
            Token::Eof => Token::Eof,
        }
    }
}

impl PartialEq for Token {
    fn eq(&self, other: &Self) -> (r: bool) {
        match (self, other) {
            (Token::Var, Token::Var) => true,
            (Token::If, Token::If) => true,
            (Token::Else, Token::Else) => true,
            (Token::Loop, Token::Loop) => true,
            (Token::Ident(a), Token::Ident(b)) => *a == *b,
            (Token::Number(a), Token::Number(b)) => *a == *b,
            (Token::Str(a), Token::Str(b)) => *a == *b,
            (Token::LParen, Token::LParen) => true,
            (Token::RParen, Token::RParen) => true,
            (Token::LBrace, Token::LBrace) => true,
            (Token::RBrace, Token::RBrace) => true,
            (Token::Comma, Token::Comma) => true,
            (Token::Semicolon, Token::Semicolon) => true,
            (Token::Eq, Token::Eq) => true,
            (Token::EqEq, Token::EqEq) => true,
            (Token::Ne, Token::Ne) => true,
            (Token::Gt, Token::Gt) => true,
            (Token::Lt, Token::Lt) => true,
            (Token::Ge, Token::Ge) => true,
            (Token::Le, Token::Le) => true,
            (Token::AndAnd, Token::AndAnd) => true,
            (Token::OrOr, Token::OrOr) => true,
            (Token::Eof, Token::Eof) => true,
            _ => false,
        }
    }
}

impl vstd::std_specs::cmp::PartialEqSpecImpl for Token {
    open spec fn obeys_eq_spec() -> bool {
        true
    }

    open spec fn eq_spec(&self, other: &Self) -> bool {
        self@ == other@
    }
}

impl Token {
    /// Whether a line break after this token ends a statement.
    pub fn closes_operand(&self) -> (r: bool)
        ensures
            r == closes_operand(self@),
    {
        match self {
            Token::Ident(_) => true,
            Token::Number(_) => true,
            Token::Str(_) => true,
            Token::RParen => true,
            _ => false,
        }
    }
}

} // verus!
