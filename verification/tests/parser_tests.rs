use scriptlet::ast::{Expr, Node, Op};
use scriptlet::lexer::Lexer;
use scriptlet::parser::{Parser, SyntaxError};
use scriptlet::token::Token;

fn parse(src: &str) -> Result<Vec<Node>, SyntaxError> {
    Parser::new(Lexer::new(src).tokenize()).parse()
}

fn num(n: i64) -> Expr {
    Expr::Number(n)
}

fn var(s: &str) -> Expr {
    Expr::Var(s.to_string())
}

fn bin(a: Expr, op: Op, b: Expr) -> Expr {
    Expr::Binary(Box::new(a), op, Box::new(b))
}

fn call(name: &str, args: Vec<Expr>) -> Node {
    Node::Call { name: name.to_string(), args }
}

fn expr_of(src: &str) -> Expr {
    match parse(&format!("x = {src};")) {
        Ok(mut nodes) => match nodes.pop() {
            Some(Node::Assign { value, .. }) => value,
            other => panic!("no assignment: {other:?}"),
        },
        Err(e) => panic!("no parse: {e:?}"),
    }
}

#[test]
fn empty_program_has_no_statements() {
    assert_eq!(parse(""), Ok(vec![]));
    assert_eq!(Parser::new(vec![]).parse(), Ok(vec![]));
}

#[test]
fn declaration_and_call() {
    assert_eq!(
        parse("var x = 1; print(x);"),
        Ok(vec![
            Node::VarDecl { name: "x".to_string(), value: num(1) },
            call("print", vec![var("x")]),
        ])
    );
}

#[test]
fn newline_program_parses_like_semicolon_program() {
    assert_eq!(parse("var x = 1\nprint(x);"), parse("var x = 1; print(x);"));
    assert!(parse("var x = 1\nprint(x);").is_ok());
    assert_eq!(parse("var x = 1\nprint(x)\n"), parse("var x = 1; print(x);"));
}

#[test]
fn condition_with_two_operands_and_no_operator_fails() {
    assert_eq!(
        parse("if ( 1 2 ) { }"),
        Err(SyntaxError::Expected { expected: Token::RParen, found: Token::Number(2) })
    );
    let tokens = vec![Token::If, Token::LParen, Token::Number(1), Token::Number(2), Token::RParen];
    assert!(Parser::new(tokens).parse().is_err());
}

#[test]
fn assignment() {
    assert_eq!(
        parse("x = \"s\";"),
        Ok(vec![Node::Assign { name: "x".to_string(), value: Expr::Str("s".to_string()) }])
    );
}

#[test]
fn call_arguments() {
    assert_eq!(parse("f();"), Ok(vec![call("f", vec![])]));
    assert_eq!(parse("f(1);"), Ok(vec![call("f", vec![num(1)])]));
    assert_eq!(
        parse("f(1, a, \"b\", 2 > 1);"),
        Ok(vec![call(
            "f",
            vec![num(1), var("a"), Expr::Str("b".to_string()), bin(num(2), Op::Gt, num(1))]
        )])
    );
}

#[test]
fn call_with_trailing_comma_fails() {
    assert_eq!(parse("f(1,);"), Err(SyntaxError::Unexpected(Token::RParen)));
}

#[test]
fn loop_statement() {
    assert_eq!(
        parse("loop (3) { print(1); }"),
        Ok(vec![Node::Loop { times: num(3), body: vec![call("print", vec![num(1)])] }])
    );
}

#[test]
fn conditional_with_and_without_else() {
    assert_eq!(
        parse("if (a > 3) { print(\"big\"); } else { print(\"small\"); }"),
        Ok(vec![Node::If {
            cond: bin(var("a"), Op::Gt, num(3)),
            then_body: vec![call("print", vec![Expr::Str("big".to_string())])],
            else_body: Some(vec![call("print", vec![Expr::Str("small".to_string())])]),
        }])
    );
    assert_eq!(
        parse("if (a) { }"),
        Ok(vec![Node::If { cond: var("a"), then_body: vec![], else_body: None }])
    );
}

#[test]
fn nested_blocks() {
    assert_eq!(
        parse("loop (2) { if (a) { loop (b) { f(); } } else { } }"),
        Ok(vec![Node::Loop {
            times: num(2),
            body: vec![Node::If {
                cond: var("a"),
                then_body: vec![Node::Loop { times: var("b"), body: vec![call("f", vec![])] }],
                else_body: Some(vec![]),
            }],
        }])
    );
}

#[test]
fn operators_bind_by_level() {
    assert_eq!(
        expr_of("a || b && c == d > e"),
        bin(
            var("a"),
            Op::Or,
            bin(var("b"), Op::And, bin(var("c"), Op::Eq, bin(var("d"), Op::Gt, var("e"))))
        )
    );
    assert_eq!(
        expr_of("a > b == c && d || e"),
        bin(
            bin(bin(bin(var("a"), Op::Gt, var("b")), Op::Eq, var("c")), Op::And, var("d")),
            Op::Or,
            var("e")
        )
    );
}

#[test]
fn operators_of_one_level_group_to_the_left() {
    assert_eq!(expr_of("1 < 2 <= 3"), bin(bin(num(1), Op::Lt, num(2)), Op::Le, num(3)));
    assert_eq!(expr_of("1 == 2 != 3"), bin(bin(num(1), Op::Eq, num(2)), Op::Ne, num(3)));
    assert_eq!(expr_of("a || b || c"), bin(bin(var("a"), Op::Or, var("b")), Op::Or, var("c")));
    assert_eq!(expr_of("a && b && c"), bin(bin(var("a"), Op::And, var("b")), Op::And, var("c")));
    assert_eq!(expr_of("1 >= 2 > 3"), bin(bin(num(1), Op::Ge, num(2)), Op::Gt, num(3)));
}

#[test]
fn parentheses_group() {
    assert_eq!(expr_of("a && (b || c)"), bin(var("a"), Op::And, bin(var("b"), Op::Or, var("c"))));
    assert_eq!(expr_of("((1))"), num(1));
}

#[test]
fn semicolons_before_a_statement_are_skipped() {
    assert_eq!(parse(";;f();"), Ok(vec![call("f", vec![])]));
    assert_eq!(parse("f();;;g();"), Ok(vec![call("f", vec![]), call("g", vec![])]));
}

#[test]
fn semicolons_with_no_statement_after_them_fail() {
    assert_eq!(parse("f();;"), Err(SyntaxError::Unexpected(Token::Eof)));
    assert_eq!(parse("loop (1) { f();; }"), Err(SyntaxError::Unexpected(Token::RBrace)));
}

#[test]
fn statement_cannot_start_with_other_tokens() {
    assert_eq!(parse("1;"), Err(SyntaxError::Unexpected(Token::Number(1))));
    assert_eq!(parse("else { }"), Err(SyntaxError::Unexpected(Token::Else)));
    assert_eq!(parse("}"), Err(SyntaxError::Unexpected(Token::RBrace)));
    assert_eq!(parse("\"s\";"), Err(SyntaxError::Unexpected(Token::Str("s".to_string()))));
}

#[test]
fn declaration_needs_a_name() {
    assert_eq!(parse("var 1 = 2;"), Err(SyntaxError::ExpectedIdentifier));
    assert_eq!(parse("var"), Err(SyntaxError::ExpectedIdentifier));
    assert_eq!(parse("var if = 2;"), Err(SyntaxError::ExpectedIdentifier));
}

#[test]
fn missing_tokens_are_named() {
    assert_eq!(
        parse("var x 1;"),
        Err(SyntaxError::Expected { expected: Token::Eq, found: Token::Number(1) })
    );
    assert_eq!(
        parse("x = 1 y = 2;"),
        Err(SyntaxError::Expected { expected: Token::Semicolon, found: Token::Ident("y".to_string()) })
    );
    assert_eq!(
        parse("x y;"),
        Err(SyntaxError::Expected { expected: Token::LParen, found: Token::Ident("y".to_string()) })
    );
    assert_eq!(
        parse("f(1;"),
        Err(SyntaxError::Expected { expected: Token::RParen, found: Token::Semicolon })
    );
    assert_eq!(
        parse("if a { }"),
        Err(SyntaxError::Expected { expected: Token::LParen, found: Token::Ident("a".to_string()) })
    );
    assert_eq!(
        parse("loop (1) f();"),
        Err(SyntaxError::Expected { expected: Token::LBrace, found: Token::Ident("f".to_string()) })
    );
    assert_eq!(
        parse("loop (1) { f();"),
        Err(SyntaxError::Expected { expected: Token::RBrace, found: Token::Eof })
    );
    assert_eq!(
        parse("x = (1;"),
        Err(SyntaxError::Expected { expected: Token::RParen, found: Token::Semicolon })
    );
}

#[test]
fn expression_needs_an_operand() {
    assert_eq!(parse("x = ;"), Err(SyntaxError::Unexpected(Token::Semicolon)));
    assert_eq!(parse("x = 1 > ;"), Err(SyntaxError::Unexpected(Token::Semicolon)));
    assert_eq!(parse("x ="), Err(SyntaxError::Unexpected(Token::Eof)));
    assert_eq!(parse("x = var;"), Err(SyntaxError::Unexpected(Token::Var)));
}

#[test]
fn first_error_wins() {
    assert_eq!(parse("f(); 1; var;"), Err(SyntaxError::Unexpected(Token::Number(1))));
}

#[test]
fn statement_on_one_line_needs_its_semicolon() {
    assert_eq!(
        parse("x = 1 f();"),
        Err(SyntaxError::Expected { expected: Token::Semicolon, found: Token::Ident("f".to_string()) })
    );
    assert_eq!(
        parse("f()"),
        Err(SyntaxError::Expected { expected: Token::Semicolon, found: Token::Eof })
    );
}

#[test]
fn parsing_stops_at_an_end_marker_inside_the_tokens() {
    let tokens = vec![Token::Eof, Token::Var];
    assert_eq!(Parser::new(tokens).parse(), Ok(vec![]));
}

#[test]
fn tokens_without_end_marker_parse_too() {
    let tokens = vec![
        Token::Ident("f".to_string()),
        Token::LParen,
        Token::RParen,
        Token::Semicolon,
    ];
    assert_eq!(Parser::new(tokens).parse(), Ok(vec![call("f", vec![])]));
}

#[test]
fn parse_again_after_the_end_gives_nothing() {
    let mut parser = Parser::new(Lexer::new("f();").tokenize());
    assert_eq!(parser.parse(), Ok(vec![call("f", vec![])]));
    assert_eq!(parser.parse(), Ok(vec![]));
}

#[test]
fn parse_again_after_an_error_goes_on_from_there() {
    let mut parser = Parser::new(Lexer::new("1; f();").tokenize());
    assert_eq!(parser.parse(), Err(SyntaxError::Unexpected(Token::Number(1))));
    assert_eq!(parser.parse(), Err(SyntaxError::Unexpected(Token::Number(1))));
}

#[test]
fn node_clone_is_equal() {
    let nodes = parse("var a = 5; if (a > 3) { loop (2) { print(\"big\", a); } } else { a = 1; }")
        .unwrap();
    for n in &nodes {
        assert_eq!(&n.clone(), n);
    }
}

#[test]
fn operands_in_parentheses_parse_to_the_tree_they_spell() {
    assert_eq!(expr_of("(a) > (1)"), bin(var("a"), Op::Gt, num(1)));
    assert_eq!(
        expr_of("((a) || (b)) == ((c) && (\"d\"))"),
        bin(
            bin(var("a"), Op::Or, var("b")),
            Op::Eq,
            bin(var("c"), Op::And, Expr::Str("d".to_string()))
        )
    );
    assert_eq!(
        expr_of("(1) < ((2) < (3))"),
        bin(num(1), Op::Lt, bin(num(2), Op::Lt, num(3)))
    );
}
