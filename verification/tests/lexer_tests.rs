use scriptlet::lexer::Lexer;
use scriptlet::token::Token;

fn lex(src: &str) -> Vec<Token> {
    Lexer::new(src).tokenize()
}

fn ident(s: &str) -> Token {
    Token::Ident(s.to_string())
}

#[test]
fn empty_source_is_only_the_end_marker() {
    assert_eq!(lex(""), vec![Token::Eof]);
}

#[test]
fn blank_source_is_only_the_end_marker() {
    assert_eq!(lex("  \n\t \n"), vec![Token::Eof]);
}

#[test]
fn newline_after_number_gives_semicolon() {
    assert_eq!(
        lex("var x = 1\nprint(x);"),
        vec![
            Token::Var,
            ident("x"),
            Token::Eq,
            Token::Number(1),
            Token::Semicolon,
            ident("print"),
            Token::LParen,
            ident("x"),
            Token::RParen,
            Token::Semicolon,
            Token::Eof,
        ]
    );
}

#[test]
fn newline_source_lexes_like_semicolon_source() {
    assert_eq!(lex("var x = 1\nprint(x);"), lex("var x = 1; print(x);"));
}

#[test]
fn newline_after_identifier_string_and_paren_gives_semicolon() {
    assert_eq!(lex("x\n"), vec![ident("x"), Token::Semicolon, Token::Eof]);
    assert_eq!(
        lex("\"a\"\n"),
        vec![Token::Str("a".to_string()), Token::Semicolon, Token::Eof]
    );
    assert_eq!(lex(")\n"), vec![Token::RParen, Token::Semicolon, Token::Eof]);
}

#[test]
fn newline_after_other_tokens_gives_nothing() {
    assert_eq!(lex("{\n}\n"), vec![Token::LBrace, Token::RBrace, Token::Eof]);
    assert_eq!(lex("x;\n"), vec![ident("x"), Token::Semicolon, Token::Eof]);
    assert_eq!(lex("var\nx"), vec![Token::Var, ident("x"), Token::Eof]);
    assert_eq!(lex("x =\n1"), vec![ident("x"), Token::Eq, Token::Number(1), Token::Eof]);
}

#[test]
fn several_newlines_give_one_semicolon() {
    assert_eq!(lex("x\n\n \n y"), vec![ident("x"), Token::Semicolon, ident("y"), Token::Eof]);
}

#[test]
fn spaces_alone_give_no_semicolon() {
    assert_eq!(lex("x y"), vec![ident("x"), ident("y"), Token::Eof]);
}

#[test]
fn keywords_are_told_from_names() {
    assert_eq!(
        lex("var if else loop vars iff _else loop1 If"),
        vec![
            Token::Var,
            Token::If,
            Token::Else,
            Token::Loop,
            ident("vars"),
            ident("iff"),
            ident("_else"),
            ident("loop1"),
            ident("If"),
            Token::Eof,
        ]
    );
}

#[test]
fn punctuation_and_operators() {
    assert_eq!(
        lex("( ) { } , ; = == != > < >= <= && ||"),
        vec![
            Token::LParen,
            Token::RParen,
            Token::LBrace,
            Token::RBrace,
            Token::Comma,
            Token::Semicolon,
            Token::Eq,
            Token::EqEq,
            Token::Ne,
            Token::Gt,
            Token::Lt,
            Token::Ge,
            Token::Le,
            Token::AndAnd,
            Token::OrOr,
            Token::Eof,
        ]
    );
}

#[test]
fn operators_need_no_spaces() {
    assert_eq!(
        lex("a>=b==c"),
        vec![ident("a"), Token::Ge, ident("b"), Token::EqEq, ident("c"), Token::Eof]
    );
    assert_eq!(lex("==="), vec![Token::EqEq, Token::Eq, Token::Eof]);
}

#[test]
fn lone_halves_of_operators_are_dropped() {
    assert_eq!(lex("a ! b"), vec![ident("a"), ident("b"), Token::Eof]);
    assert_eq!(lex("a & b | c"), vec![ident("a"), ident("b"), ident("c"), Token::Eof]);
    assert_eq!(lex("!"), vec![Token::Eof]);
}

#[test]
fn unknown_characters_are_dropped() {
    assert_eq!(lex("x @ # $ 1"), vec![ident("x"), Token::Number(1), Token::Eof]);
    assert_eq!(lex("1+2"), vec![Token::Number(1), Token::Number(2), Token::Eof]);
    assert_eq!(lex("é"), vec![Token::Eof]);
}

#[test]
fn dropped_character_keeps_the_pending_line_end() {
    assert_eq!(lex("x @\ny"), vec![ident("x"), Token::Semicolon, ident("y"), Token::Eof]);
}

#[test]
fn numbers_are_runs_of_digits() {
    assert_eq!(lex("0 007 42"), vec![
        Token::Number(0),
        Token::Number(7),
        Token::Number(42),
        Token::Eof
    ]);
    assert_eq!(lex("12ab"), vec![Token::Number(12), ident("ab"), Token::Eof]);
    assert_eq!(lex("-5"), vec![Token::Number(5), Token::Eof]);
}

#[test]
fn largest_number_fits() {
    assert_eq!(
        lex("9223372036854775807"),
        vec![Token::Number(i64::MAX), Token::Eof]
    );
}

#[test]
fn number_too_large_is_refused() {
    assert_eq!(Lexer::new("9223372036854775808").try_tokenize(), None);
    assert_eq!(Lexer::new("x = 99999999999999999999999;").try_tokenize(), None);
}

#[test]
fn digits_in_text_and_names_are_no_numbers() {
    assert_eq!(
        Lexer::new("\"99999999999999999999999\" a99999999999999999999999").try_tokenize(),
        Some(vec![
            Token::Str("99999999999999999999999".to_string()),
            ident("a99999999999999999999999"),
            Token::Eof
        ])
    );
}

#[test]
fn try_tokenize_agrees_with_tokenize() {
    let src = "var a = 5; if (a > 3) { print(\"big\"); } else { print(\"small\"); }";
    assert_eq!(Lexer::new(src).try_tokenize(), Some(lex(src)));
}

#[test]
fn strings_keep_their_characters() {
    assert_eq!(
        lex("\"a b\\n;\""),
        vec![Token::Str("a b\\n;".to_string()), Token::Eof]
    );
    assert_eq!(lex("\"\""), vec![Token::Str(String::new()), Token::Eof]);
    assert_eq!(
        lex("\"line\nbreak\""),
        vec![Token::Str("line\nbreak".to_string()), Token::Eof]
    );
}

#[test]
fn unterminated_string_runs_to_the_end() {
    assert_eq!(lex("\"abc"), vec![Token::Str("abc".to_string()), Token::Eof]);
    assert_eq!(lex("x \""), vec![ident("x"), Token::Str(String::new()), Token::Eof]);
}

#[test]
fn tokenize_again_gives_the_end_marker() {
    let mut lexer = Lexer::new("x y");
    assert_eq!(lexer.tokenize(), vec![ident("x"), ident("y"), Token::Eof]);
    assert_eq!(lexer.tokenize(), vec![Token::Eof]);
}

#[test]
fn every_token_list_ends_with_one_end_marker() {
    for src in ["", "x", "var x = 1\n", "\"open", "@@@", "if (a) { b(); }"] {
        let tokens = lex(src);
        assert_eq!(tokens.last(), Some(&Token::Eof));
        assert_eq!(tokens.iter().filter(|t| **t == Token::Eof).count(), 1);
    }
}

#[test]
fn token_clone_is_equal() {
    for t in lex("var x = 1; \"s\" ( ) >= ||") {
        assert_eq!(t.clone(), t);
    }
}
