use crate::chars::{
    blank, digit, in_word, is_blank, is_digit, letter, starts_word, word_char,
};
use crate::token::{closes_operand, tokens_view, Token, TokenView};
use vstd::prelude::*;

verus! {

/// The kinds of character runs that the scanner reads in one piece.
pub enum Class {
    /// Line breaks and white space.
    Blank,
    /// Decimal digits.
    Digit,
    /// Letters, digits and the underscore.
    Word,
    /// Everything but a double quote.
    Text,
}

/// Whether `c` is of class `k`.
pub open spec fn in_class(k: Class, c: char) -> bool {
    match k {
        Class::Blank => is_blank(c),
        Class::Digit => is_digit(c),
        Class::Word => in_word(c),
        Class::Text => c != '"',
    }
}

/// Where the longest run of characters of class `k` that starts at `pos` ends.
pub open spec fn run_end(src: Seq<char>, pos: int, k: Class) -> int
    decreases src.len() - pos,
{
    if 0 <= pos < src.len() && in_class(k, src[pos]) {
        run_end(src, pos + 1, k)
    } else {
        pos
    }
}

/// A run ends at or after its start and inside the text; every character in it
/// is of the class, and the character after it, if any, is not.
pub proof fn lemma_run_end(src: Seq<char>, pos: int, k: Class)
    ensures
        pos <= run_end(src, pos, k),
        0 <= pos <= src.len() ==> run_end(src, pos, k) <= src.len(),
        forall|i: int| pos <= i < run_end(src, pos, k) ==> 0 <= i < src.len() && in_class(k, src[i]),
        0 <= run_end(src, pos, k) < src.len() ==> !in_class(k, src[run_end(src, pos, k)]),
    decreases src.len() - pos,
{
    if 0 <= pos < src.len() && in_class(k, src[pos]) {
        lemma_run_end(src, pos + 1, k);
    }
}

/// The number that a run of decimal digits writes.
pub open spec fn decimal(digits: Seq<char>) -> int
    decreases digits.len(),
{
    if digits.len() == 0 {
        0
    } else {
        decimal(digits.drop_last()) * 10 + (digits.last() as int - '0' as int)
    }
}

/// The token that a word is: one of the four reserved words, or a name.
pub open spec fn word_token(w: Seq<char>) -> TokenView {
    if w == seq!['v', 'a', 'r'] {
        TokenView::Var
    } else if w == seq!['i', 'f'] {
        TokenView::If
    } else if w == seq!['e', 'l', 's', 'e'] {
        TokenView::Else
    } else if w == seq!['l', 'o', 'o', 'p'] {
        TokenView::Loop
    } else {
        TokenView::Ident(w)
    }
}

/// Whether the character after `pos` is `c`.
pub open spec fn follows(src: Seq<char>, pos: int, c: char) -> bool {
    pos + 1 < src.len() && src[pos + 1] == c
}

/// A token together with the position after it.
pub struct Scan {
    pub token: TokenView,
    pub next: int,
}

/// The token that starts at `p`, where `src[p]` is no blank; `None` where the
/// character there starts no token and is dropped.
pub open spec fn scan_at(src: Seq<char>, p: int) -> Option<Scan> {
    let c = src[p];
    if c == '(' {
        Some(Scan { token: TokenView::LParen, next: p + 1 })
    } else if c == ')' {
        Some(Scan { token: TokenView::RParen, next: p + 1 })
    } else if c == '{' {
        Some(Scan { token: TokenView::LBrace, next: p + 1 })
    } else if c == '}' {
        Some(Scan { token: TokenView::RBrace, next: p + 1 })
    } else if c == ',' {
        Some(Scan { token: TokenView::Comma, next: p + 1 })
    } else if c == ';' {
        Some(Scan { token: TokenView::Semicolon, next: p + 1 })
    } else if c == '=' {
        if follows(src, p, '=') {
            Some(Scan { token: TokenView::EqEq, next: p + 2 })
        } else {
            Some(Scan { token: TokenView::Eq, next: p + 1 })
        }
    } else if c == '!' && follows(src, p, '=') {
        Some(Scan { token: TokenView::Ne, next: p + 2 })
    } else if c == '>' {
        if follows(src, p, '=') {
            Some(Scan { token: TokenView::Ge, next: p + 2 })
        } else {
            Some(Scan { token: TokenView::Gt, next: p + 1 })
        }
    } else if c == '<' {
        if follows(src, p, '=') {
            Some(Scan { token: TokenView::Le, next: p + 2 })
        } else {
            Some(Scan { token: TokenView::Lt, next: p + 1 })
        }
    } else if c == '&' && follows(src, p, '&') {
        Some(Scan { token: TokenView::AndAnd, next: p + 2 })
    } else if c == '|' && follows(src, p, '|') {
        Some(Scan { token: TokenView::OrOr, next: p + 2 })
    } else if c == '"' {
        let e = run_end(src, p + 1, Class::Text);
        Some(
            Scan {
                token: TokenView::Str(src.subrange(p + 1, e)),
                next: if e < src.len() {
                    e + 1
                } else {
                    e
                },
            },
        )
    } else if is_digit(c) {
        let e = run_end(src, p, Class::Digit);
        Some(Scan { token: TokenView::Number(decimal(src.subrange(p, e))), next: e })
    } else if starts_word(c) {
        let e = run_end(src, p, Class::Word);
        Some(Scan { token: word_token(src.subrange(p, e)), next: e })
    } else {
        None
    }
}

/// Whether a line break stands in `src` from `from` up to, not including, `to`.
pub open spec fn has_newline(src: Seq<char>, from: int, to: int) -> bool {
    exists|i: int| from <= i < to && 0 <= i < src.len() && src[i] == '\n'
}

/// The next token from `pos` on. `after_operand` says whether the token before
/// it could end an operand: then a line break among the blanks skipped ends the
/// statement, and the token is a semicolon that the text does not hold.
pub open spec fn next_token(src: Seq<char>, pos: int, after_operand: bool) -> Scan
    decreases src.len() - pos,
{
    let p = run_end(src, pos, Class::Blank);
    if after_operand && has_newline(src, pos, p) {
        Scan { token: TokenView::Semicolon, next: p }
    } else if 0 <= p < src.len() {
        match scan_at(src, p) {
            Some(s) => s,
            None => {
                proof {
                    lemma_run_end(src, pos, Class::Blank);
                }
                next_token(src, p + 1, after_operand)
            },
        }
    } else {
        Scan { token: TokenView::Eof, next: p }
    }
}

/// A token other than the end marker takes at least one character, and no
/// token ends outside the text.
pub proof fn lemma_next_token(src: Seq<char>, pos: int, after_operand: bool)
    requires
        0 <= pos <= src.len(),
    ensures
        pos <= next_token(src, pos, after_operand).next <= src.len(),
        next_token(src, pos, after_operand).token != TokenView::Eof ==> pos < next_token(
            src,
            pos,
            after_operand,
        ).next,
        next_token(src, pos, after_operand).token == TokenView::Eof ==> next_token(
            src,
            pos,
            after_operand,
        ).next == src.len(),
    decreases src.len() - pos,
{
    let p = run_end(src, pos, Class::Blank);
    lemma_run_end(src, pos, Class::Blank);
    if after_operand && has_newline(src, pos, p) {
    } else if 0 <= p < src.len() {
        lemma_run_end(src, p + 1, Class::Text);
        lemma_run_end(src, p, Class::Digit);
        lemma_run_end(src, p, Class::Word);
        match scan_at(src, p) {
            Some(s) => {
                if is_digit(src[p]) {
                    assert(run_end(src, p, Class::Digit) > p);
                }
                if starts_word(src[p]) {
                    assert(run_end(src, p, Class::Word) > p);
                    let w = src.subrange(p, run_end(src, p, Class::Word));
                    assert(w.len() > 0);
                }
            },
            None => {
                lemma_next_token(src, p + 1, after_operand);
            },
        }
    }
}

/// The tokens of `src` from `pos` on, up to and with the end marker.
pub open spec fn lex_from(src: Seq<char>, pos: int, after_operand: bool) -> Seq<TokenView>
    decreases src.len() - pos,
{
    let s = next_token(src, pos, after_operand);
    if s.token != TokenView::Eof && 0 <= pos <= src.len() {
        proof {
            lemma_next_token(src, pos, after_operand);
        }
        seq![s.token] + lex_from(src, s.next, closes_operand(s.token))
    } else {
        seq![TokenView::Eof]
    }
}

/// The tokens of a whole text.
pub open spec fn lex(src: Seq<char>) -> Seq<TokenView> {
    lex_from(src, 0, false)
}

/// Whether a token's number, if it is one, fits the 64-bit signed integers.
pub open spec fn fits(t: TokenView) -> bool {
    t matches TokenView::Number(n) ==> n <= i64::MAX
}

/// Whether every number among the tokens fits the 64-bit signed integers.
pub open spec fn all_fit(tokens: Seq<TokenView>) -> bool {
    forall|i: int| 0 <= i < tokens.len() ==> fits(#[trigger] tokens[i])
}

/// Whether the token before the end marker could end an operand; `before`
/// where the end marker stands alone.
pub open spec fn trailing_operand(tokens: Seq<TokenView>, before: bool) -> bool {
    if tokens.len() >= 2 {
        closes_operand(tokens[tokens.len() - 2])
    } else {
        before
    }
}

/// Digits written after a number do not make it smaller.
pub proof fn lemma_decimal_prefix(digits: Seq<char>, n: int)
    requires
        0 <= n <= digits.len(),
        forall|i: int| 0 <= i < digits.len() ==> is_digit(digits[i]),
    ensures
        0 <= decimal(digits.take(n)) <= decimal(digits),
    decreases digits.len(),
{
    if digits.len() == 0 {
        assert(digits.take(n) =~= digits);
    } else if n == digits.len() {
        assert(digits.take(n) =~= digits);
        lemma_decimal_prefix(digits.drop_last(), n - 1);
        assert(digits.drop_last().take(n - 1) =~= digits.drop_last());
    } else {
        lemma_decimal_prefix(digits.drop_last(), n);
        assert(digits.drop_last().take(n) =~= digits.take(n));
    }
}

/// Turns source text into tokens, reading from left to right.
pub struct Lexer {
    src: Vec<char>,
    pos: usize,
    last_token: Option<Token>,
}

impl Lexer {
    #[verifier::type_invariant]
    spec fn in_text(&self) -> bool {
        self.pos <= self.src@.len()
    }

    /// The text being read.
    pub closed spec fn source(&self) -> Seq<char> {
        self.src@
    }

    /// How many characters have been read.
    pub closed spec fn position(&self) -> int {
        self.pos as int
    }

    /// Whether the token read last could end an operand.
    pub closed spec fn after_operand(&self) -> bool {
        match self.last_token {
            Some(t) => closes_operand(t@),
            None => false,
        }
    }

    /// A lexer at the start of `input`.
    pub fn new(input: &str) -> (lexer: Self)
        ensures
            lexer.source() == input@,
            lexer.position() == 0,
            !lexer.after_operand(),
    {
        let mut src: Vec<char> = Vec::new();
        let chars = input.chars();
        for c in it: chars
            invariant
                src@ == it.seq().take(it.index()),
        {
            src.push(c);
        }
        Self { src, pos: 0, last_token: None }
    }

    /// All tokens from the current position on, ending with the end marker.
    /// A line break after a name, a literal or a closing parenthesis gives a
    /// semicolon; a character that starts no token is dropped.
    pub fn tokenize(&mut self) -> (tokens: Vec<Token>)
        requires
            all_fit(lex_from(old(self).source(), old(self).position(), old(self).after_operand())),
        ensures
            tokens_view(tokens@) == lex_from(
                old(self).source(),
                old(self).position(),
                old(self).after_operand(),
            ),
            final(self).source() == old(self).source(),
            final(self).position() == old(self).source().len(),
            final(self).after_operand() == trailing_operand(
                tokens_view(tokens@),
                old(self).after_operand(),
            ),
    {
        match self.try_tokenize() {
            Some(tokens) => tokens,
            None => {
                assert(false);
                Vec::new()
            },
        }
    }

    /// As `tokenize`, for any text: `None` where a number in it does not fit
    /// the 64-bit signed integers.
    #[verifier::rlimit(50)]
    #[verifier::loop_isolation(false)]
    pub fn try_tokenize(&mut self) -> (r: Option<Vec<Token>>)
        ensures
            final(self).source() == old(self).source(),
            r is Some <==> all_fit(
                lex_from(old(self).source(), old(self).position(), old(self).after_operand()),
            ),
            r matches Some(tokens) ==> {
                &&& tokens_view(tokens@) == lex_from(
                    old(self).source(),
                    old(self).position(),
                    old(self).after_operand(),
                )
                &&& final(self).position() == old(self).source().len()
                &&& final(self).after_operand() == trailing_operand(
                    tokens_view(tokens@),
                    old(self).after_operand(),
                )
            },
    {
        proof {
            use_type_invariant(&*self);
        }
        let ghost src = self.src@;
        assert(src.len() <= usize::MAX) by {
            assert(self.src@.len() == self.src.len());
        }
        let ghost all = lex_from(src, self.pos as int, self.after_operand());
        let ghost before = self.after_operand();
        let mut tokens: Vec<Token> = Vec::new();
        loop
            invariant
                self.src@ == src,
                self.pos <= src.len(),
                all == tokens_view(tokens@) + lex_from(src, self.pos as int, self.after_operand()),
                all_fit(tokens_view(tokens@)),
                self.after_operand() == (if tokens@.len() >= 1 {
                    closes_operand(tokens@.last()@)
                } else {
                    before
                }),
            decreases src.len() - self.pos,
        {
            let ghost pos = self.pos as int;
            let ghost after = self.after_operand();
            let ghost done = tokens_view(tokens@);
            proof {
                lemma_next_token(src, pos, after);
            }
            match self.next_token() {
                None => {
                    proof {
                        let rest = lex_from(src, pos, after);
                        assert(!fits(rest[0]));
                        assert(all[done.len() as int] == rest[0]);
                    }
                    return None;
                },
                Some(t) => {
                    let end = t == Token::Eof;
                    tokens.push(t);
                    proof {
                        let rest = lex_from(src, pos, after);
                        assert(tokens_view(tokens@) =~= done.push(t@));
                        if end {
                            assert(rest =~= seq![TokenView::Eof]);
                            assert(all =~= tokens_view(tokens@));
                        } else {
                            let more = lex_from(src, self.pos as int, self.after_operand());
                            assert(rest =~= seq![t@] + more);
                            assert(all =~= tokens_view(tokens@) + more);
                        }
                    }
                    if end {
                        return Some(tokens);
                    }
                },
            }
        }
    }

    fn emit(&mut self, t: Token) -> (r: Option<Token>)
        ensures
            final(self).src@ == old(self).src@,
            final(self).pos == old(self).pos,
            final(self).after_operand() == closes_operand(t@),
            r matches Some(out) && out@ == t@,
    {
        proof {
            use_type_invariant(&*self);
        }
        self.last_token = Some(t.clone());
        Some(t)
    }

    #[verifier::rlimit(50)]
    #[verifier::loop_isolation(false)]
    fn next_token(&mut self) -> (r: Option<Token>)
        ensures
            final(self).src@ == old(self).src@,
            ({
                let s = next_token(old(self).src@, old(self).pos as int, old(self).after_operand());
                match r {
                    Some(t) => {
                        &&& fits(s.token)
                        &&& t@ == s.token
                        &&& final(self).pos == s.next
                        &&& final(self).after_operand() == (if s.token == TokenView::Eof {
                            old(self).after_operand()
                        } else {
                            closes_operand(s.token)
                        })
                    },
                    None => !fits(s.token),
                }
            }),
    {
        proof {
            use_type_invariant(&*self);
        }
        let ghost src = self.src@;
        assert(src.len() <= usize::MAX) by {
            assert(self.src@.len() == self.src.len());
        }
        let ghost start = self.pos as int;
        let ghost after = self.after_operand();
        loop
            invariant
                self.src@ == src,
                self.after_operand() == after,
                start <= self.pos <= src.len(),
                next_token(src, self.pos as int, after) == next_token(src, start, after),
            decreases src.len() - self.pos,
        {
            let ghost here = self.pos as int;
            if let Some(t) = self.skip_ws() {
                return self.emit(t);
            }
            proof {
                lemma_run_end(src, here, Class::Blank);
            }
            let c = match self.peek() {
                Some(c) => c,
                None => {
                    return Some(Token::Eof);
                },
            };
            if c == '(' {
                self.pos += 1;
                return self.emit(Token::LParen);
            } else if c == ')' {
                self.pos += 1;
                return self.emit(Token::RParen);
            } else if c == '{' {
                self.pos += 1;
                return self.emit(Token::LBrace);
            } else if c == '}' {
                self.pos += 1;
                return self.emit(Token::RBrace);
            } else if c == ',' {
                self.pos += 1;
                return self.emit(Token::Comma);
            } else if c == ';' {
                self.pos += 1;
                return self.emit(Token::Semicolon);
            } else if c == '=' {
                if self.peek2('=') {
                    self.pos += 2;
                    return self.emit(Token::EqEq);
                } else {
                    self.pos += 1;
                    return self.emit(Token::Eq);
                }
            } else if c == '!' && self.peek2('=') {
                self.pos += 2;
                return self.emit(Token::Ne);
            } else if c == '>' {
                if self.peek2('=') {
                    self.pos += 2;
                    return self.emit(Token::Ge);
                } else {
                    self.pos += 1;
                    return self.emit(Token::Gt);
                }
            } else if c == '<' {
                if self.peek2('=') {
                    self.pos += 2;
                    return self.emit(Token::Le);
                } else {
                    self.pos += 1;
                    return self.emit(Token::Lt);
                }
            } else if c == '&' && self.peek2('&') {
                self.pos += 2;
                return self.emit(Token::AndAnd);
            } else if c == '|' && self.peek2('|') {
                self.pos += 2;
                return self.emit(Token::OrOr);
            } else if c == '"' {
                let t = self.read_string();
                return self.emit(t);
            } else if digit(c) {
                match self.read_number() {
                    Some(t) => {
                        return self.emit(t);
                    },
                    None => {
                        return None;
                    },
                }
            } else if letter(c) || c == '_' {
                let t = self.read_ident();
                return self.emit(t);
            } else {
                self.pos += 1;
            }
        }
    }

    #[verifier::rlimit(50)]
    #[verifier::loop_isolation(false)]
    fn skip_ws(&mut self) -> (r: Option<Token>)
        ensures
            final(self).src@ == old(self).src@,
            final(self).last_token == old(self).last_token,
            final(self).pos == run_end(old(self).src@, old(self).pos as int, Class::Blank),
            r matches Some(t) ==> t@ == TokenView::Semicolon,
            r is Some <==> old(self).after_operand() && has_newline(
                old(self).src@,
                old(self).pos as int,
                final(self).pos as int,
            ),
    {
        proof {
            use_type_invariant(&*self);
        }
        let ghost src = self.src@;
        assert(src.len() <= usize::MAX) by {
            assert(self.src@.len() == self.src.len());
        }
        let ghost start = self.pos as int;
        let mut saw_newline = false;
        while self.pos < self.src.len() && blank(self.src[self.pos])
            invariant
                self.src@ == src,
                self.last_token == old(self).last_token,
                start <= self.pos <= src.len(),
                run_end(src, self.pos as int, Class::Blank) == run_end(src, start, Class::Blank),
                saw_newline == has_newline(src, start, self.pos as int),
            decreases src.len() - self.pos,
        {
            if self.src[self.pos] == '\n' {
                saw_newline = true;
            } else {
                assert(has_newline(src, start, self.pos + 1) ==> has_newline(
                    src,
                    start,
                    self.pos as int,
                ));
            }
            self.pos += 1;
        }
        if saw_newline {
            match &self.last_token {
                Some(t) => {
                    if t.closes_operand() {
                        return Some(Token::Semicolon);
                    }
                },
                None => {},
            }
        }
        None
    }

    fn peek(&self) -> (r: Option<char>)
        ensures
            r == (if self.pos < self.src@.len() {
                Some(self.src@[self.pos as int])
            } else {
                None
            }),
    {
        if self.pos < self.src.len() {
            Some(self.src[self.pos])
        } else {
            None
        }
    }

    fn peek2(&self, c: char) -> (r: bool)
        ensures
            r == follows(self.src@, self.pos as int, c),
    {
        proof {
            use_type_invariant(self);
        }
        self.pos < self.src.len() && self.pos + 1 < self.src.len() && self.src[self.pos + 1] == c
    }

    #[verifier::loop_isolation(false)]
    fn read_string(&mut self) -> (r: Token)
        requires
            old(self).pos < old(self).src@.len(),
            old(self).src@[old(self).pos as int] == '"',
        ensures
            final(self).src@ == old(self).src@,
            final(self).last_token == old(self).last_token,
            scan_at(old(self).src@, old(self).pos as int) == Some(
                Scan { token: r@, next: final(self).pos as int },
            ),
    {
        let ghost src = self.src@;
        assert(src.len() <= usize::MAX) by {
            assert(self.src@.len() == self.src.len());
        }
        self.pos += 1;
        let ghost start = self.pos as int;
        let ghost end = run_end(src, start, Class::Text);
        proof {
            lemma_run_end(src, start, Class::Text);
        }
        let mut s = String::new();
        while self.pos < self.src.len() && self.src[self.pos] != '"'
            invariant
                self.src@ == src,
                self.last_token == old(self).last_token,
                start <= self.pos <= src.len(),
                s@ == src.subrange(start, self.pos as int),
                run_end(src, self.pos as int, Class::Text) == end,
            decreases src.len() - self.pos,
        {
            s.push(self.src[self.pos]);
            self.pos += 1;
            assert(s@ =~= src.subrange(start, self.pos as int));
        }
        if self.pos < self.src.len() {
            self.pos += 1;
        }
        Token::Str(s)
    }

    #[verifier::rlimit(50)]
    #[verifier::loop_isolation(false)]
    fn read_number(&mut self) -> (r: Option<Token>)
        requires
            old(self).pos < old(self).src@.len(),
            is_digit(old(self).src@[old(self).pos as int]),
        ensures
            final(self).src@ == old(self).src@,
            final(self).last_token == old(self).last_token,
            ({
                let end = run_end(old(self).src@, old(self).pos as int, Class::Digit);
                let n = decimal(old(self).src@.subrange(old(self).pos as int, end));
                match r {
                    Some(t) => t@ == TokenView::Number(n) && final(self).pos == end,
                    None => n > i64::MAX,
                }
            }),
    {
        let ghost src = self.src@;
        assert(src.len() <= usize::MAX) by {
            assert(self.src@.len() == self.src.len());
        }
        let ghost start = self.pos as int;
        let ghost end = run_end(src, start, Class::Digit);
        proof {
            lemma_run_end(src, start, Class::Digit);
        }
        let mut value: i64 = 0;
        while self.pos < self.src.len() && digit(self.src[self.pos])
            invariant
                self.src@ == src,
                self.last_token == old(self).last_token,
                start <= self.pos <= end <= src.len(),
                run_end(src, self.pos as int, Class::Digit) == end,
                forall|i: int| start <= i < end ==> is_digit(src[i]),
                0 <= value == decimal(src.subrange(start, self.pos as int)),
            decreases src.len() - self.pos,
        {
            let c = self.src[self.pos];
            let d: i64 = (c as u32 - '0' as u32) as i64;
            proof {
                let upto = src.subrange(start, self.pos + 1);
                assert(upto.drop_last() =~= src.subrange(start, self.pos as int));
                assert(decimal(upto) == value * 10 + d);
                let whole = src.subrange(start, end);
                lemma_decimal_prefix(whole, self.pos + 1 - start);
                assert(whole.take(self.pos + 1 - start) =~= upto);
            }
            if value > (i64::MAX - d) / 10 {
                return None;
            }
            value = value * 10 + d;
            self.pos += 1;
        }
        Some(Token::Number(value))
    }

    #[verifier::loop_isolation(false)]
    fn spells(&self, start: usize, end: usize, word: &str) -> (r: bool)
        requires
            start <= end <= self.src@.len(),
        ensures
            r == (self.src@.subrange(start as int, end as int) == word@),
    {
        let n = word.unicode_len();
        if end - start != n {
            return false;
        }
        let mut i: usize = 0;
        while i < n
            invariant
                start <= end <= self.src@.len(),
                n == end - start,
                n == word@.len(),
                i <= n,
                forall|j: int| 0 <= j < i ==> self.src@[start + j] == word@[j],
            decreases n - i,
        {
            if self.src[start + i] != word.get_char(i) {
                assert(self.src@.subrange(start as int, end as int)[i as int] != word@[i as int]);
                return false;
            }
            i += 1;
        }
        assert(self.src@.subrange(start as int, end as int) =~= word@);
        true
    }

    #[verifier::loop_isolation(false)]
    fn read_ident(&mut self) -> (r: Token)
        requires
            old(self).pos < old(self).src@.len(),
            starts_word(old(self).src@[old(self).pos as int]),
        ensures
            final(self).src@ == old(self).src@,
            final(self).last_token == old(self).last_token,
            final(self).pos == run_end(old(self).src@, old(self).pos as int, Class::Word),
            r@ == word_token(old(self).src@.subrange(old(self).pos as int, final(self).pos as int)),
    {
        let ghost src = self.src@;
        assert(src.len() <= usize::MAX) by {
            assert(self.src@.len() == self.src.len());
        }
        let start = self.pos;
        let mut s = String::new();
        while self.pos < self.src.len() && word_char(self.src[self.pos])
            invariant
                self.src@ == src,
                self.last_token == old(self).last_token,
                start <= self.pos <= src.len(),
                run_end(src, self.pos as int, Class::Word) == run_end(src, start as int, Class::Word),
                s@ == src.subrange(start as int, self.pos as int),
            decreases src.len() - self.pos,
        {
            s.push(self.src[self.pos]);
            self.pos += 1;
            assert(s@ =~= src.subrange(start as int, self.pos as int));
        }
        proof {
            reveal_strlit("var");
            reveal_strlit("if");
            reveal_strlit("else");
            reveal_strlit("loop");
            assert("var"@ =~= seq!['v', 'a', 'r']);
            assert("if"@ =~= seq!['i', 'f']);
            assert("else"@ =~= seq!['e', 'l', 's', 'e']);
            assert("loop"@ =~= seq!['l', 'o', 'o', 'p']);
        }
        if self.spells(start, self.pos, "var") {
            Token::Var
        } else if self.spells(start, self.pos, "if") {
            Token::If
        } else if self.spells(start, self.pos, "else") {
            Token::Else
        } else if self.spells(start, self.pos, "loop") {
            Token::Loop
        } else {
            Token::Ident(s)
        }
    }
}

} // verus!
