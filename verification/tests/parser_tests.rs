use expr_compiler::ast::{BlockExpr, CmpOp, Expr, MathOp};
use expr_compiler::parser::{Error, ErrorKind, Parser};
use expr_compiler::scanner::Scanner;
use expr_compiler::token::{Token, TokenKind};

fn parse(source: &str) -> Result<Expr<'_>, Error<'_>> {
    let tokens: Vec<Token> =
        Scanner::new(source).scan().into_iter().map(|result| result.expect("a token")).collect();
    Parser::new(tokens).parse()
}

/// The tree of a program that is the single expression `ret`.
fn program(ret: Expr<'_>) -> Expr<'_> {
    Expr::Block(BlockExpr { exprs: vec![], ret: Box::new(ret) })
}

fn num(text: &str) -> Box<Expr<'_>> {
    Box::new(Expr::Number(text))
}

fn primary_starts() -> Vec<TokenKind<'static>> {
    vec![
        TokenKind::Number("0"),
        TokenKind::True,
        TokenKind::False,
        TokenKind::Minus,
        TokenKind::Bang,
        TokenKind::Ident(""),
        TokenKind::Dollar,
        TokenKind::LBrace,
        TokenKind::LParen,
        TokenKind::If,
    ]
}

fn unexpected<'a>(token: Token<'a>, expected: Vec<TokenKind<'a>>) -> Error<'a> {
    Error::new(ErrorKind::UnexpectedToken(token, expected), token.line, token.col)
}

fn eof() -> Error<'static> {
    Error::new(ErrorKind::UnexpectedEof, 0, 0)
}

#[test]
fn parses_literals() {
    assert_eq!(parse("42"), Ok(program(Expr::Number("42"))));
    assert_eq!(parse("4.25"), Ok(program(Expr::Number("4.25"))));
    assert_eq!(parse("true"), Ok(program(Expr::Bool(true))));
    assert_eq!(parse("false"), Ok(program(Expr::Bool(false))));
}

#[test]
fn parses_variables() {
    assert_eq!(parse("x"), Ok(program(Expr::Var("x"))));
    assert_eq!(parse("$x"), Ok(program(Expr::UserVar("x"))));
}

#[test]
fn sum_binds_tighter_than_product() {
    assert_eq!(
        parse("1 + 2 * 3"),
        Ok(program(Expr::MathBin(
            MathOp::Mul,
            Box::new(Expr::MathBin(MathOp::Add, num("1"), num("2"))),
            num("3"),
        )))
    );
    assert_eq!(
        parse("1 * 2 + 3"),
        Ok(program(Expr::MathBin(
            MathOp::Mul,
            num("1"),
            Box::new(Expr::MathBin(MathOp::Add, num("2"), num("3"))),
        )))
    );
}

#[test]
fn parentheses_group() {
    assert_eq!(
        parse("1 + (2 * 3)"),
        Ok(program(Expr::MathBin(
            MathOp::Add,
            num("1"),
            Box::new(Expr::MathBin(MathOp::Mul, num("2"), num("3"))),
        )))
    );
    assert_eq!(parse("((7))"), Ok(program(Expr::Number("7"))));
}

#[test]
fn subtraction_groups_to_the_left() {
    assert_eq!(
        parse("8 - 3 - 2"),
        Ok(program(Expr::MathBin(
            MathOp::Sub,
            Box::new(Expr::MathBin(MathOp::Sub, num("8"), num("3"))),
            num("2"),
        )))
    );
}

#[test]
fn every_tier_groups_to_the_left() {
    assert_eq!(
        parse("8 / 4 * 2"),
        Ok(program(Expr::MathBin(
            MathOp::Mul,
            Box::new(Expr::MathBin(MathOp::Div, num("8"), num("4"))),
            num("2"),
        )))
    );
    assert_eq!(
        parse("1 < 2 >= 3"),
        Ok(program(Expr::Compare(
            CmpOp::GreaterEqual,
            Box::new(Expr::Compare(CmpOp::Less, num("1"), num("2"))),
            num("3"),
        )))
    );
    assert_eq!(
        parse("1 == 2 != 3"),
        Ok(program(Expr::Compare(
            CmpOp::NotEqual,
            Box::new(Expr::Compare(CmpOp::Equal, num("1"), num("2"))),
            num("3"),
        )))
    );
}

#[test]
fn equality_binds_looser_than_relational() {
    assert_eq!(
        parse("1 < 2 == true"),
        Ok(program(Expr::Compare(
            CmpOp::Equal,
            Box::new(Expr::Compare(CmpOp::Less, num("1"), num("2"))),
            Box::new(Expr::Bool(true)),
        )))
    );
}

#[test]
fn relational_binds_looser_than_arithmetic() {
    assert_eq!(
        parse("1 * 2 > 3 + 4"),
        Ok(program(Expr::Compare(
            CmpOp::Greater,
            Box::new(Expr::MathBin(MathOp::Mul, num("1"), num("2"))),
            Box::new(Expr::MathBin(MathOp::Add, num("3"), num("4"))),
        )))
    );
    assert_eq!(
        parse("1 <= 2"),
        Ok(program(Expr::Compare(CmpOp::LessEqual, num("1"), num("2"))))
    );
}

#[test]
fn unary_operators_stack() {
    assert_eq!(
        parse("--5"),
        Ok(program(Expr::Negate(Box::new(Expr::Negate(num("5"))))))
    );
    assert_eq!(
        parse("!!true"),
        Ok(program(Expr::Not(Box::new(Expr::Not(Box::new(Expr::Bool(true)))))))
    );
    assert_eq!(
        parse("-!$x"),
        Ok(program(Expr::Negate(Box::new(Expr::Not(Box::new(Expr::UserVar("x")))))))
    );
}

#[test]
fn unary_operator_takes_a_primary_operand() {
    assert_eq!(
        parse("-1 - 2"),
        Ok(program(Expr::MathBin(MathOp::Sub, Box::new(Expr::Negate(num("1"))), num("2"))))
    );
}

#[test]
fn block_holds_statements_and_a_value() {
    assert_eq!(
        parse("{ $x = 1; $x + 1 }"),
        Ok(program(Expr::Block(BlockExpr {
            exprs: vec![Expr::Assign("x", num("1"))],
            ret: Box::new(Expr::MathBin(MathOp::Add, Box::new(Expr::UserVar("x")), num("1"))),
        })))
    );
}

#[test]
fn program_is_a_block() {
    assert_eq!(
        parse("$a = 1; $b = 2; $a + $b"),
        Ok(Expr::Block(BlockExpr {
            exprs: vec![Expr::Assign("a", num("1")), Expr::Assign("b", num("2"))],
            ret: Box::new(Expr::MathBin(
                MathOp::Add,
                Box::new(Expr::UserVar("a")),
                Box::new(Expr::UserVar("b")),
            )),
        }))
    );
}

#[test]
fn tokens_behind_the_program_are_not_read() {
    assert_eq!(parse("1 2"), Ok(program(Expr::Number("1"))));
    assert_eq!(parse("1 )"), Ok(program(Expr::Number("1"))));
}

#[test]
fn if_needs_else() {
    assert_eq!(parse("if (true) 1"), Err(eof()));
    assert_eq!(
        parse("if (true) 1 2"),
        Err(unexpected(Token::new(TokenKind::Number("2"), 1, 13, "2"), vec![TokenKind::Else]))
    );
}

#[test]
fn parses_if_else() {
    assert_eq!(
        parse("if ($a < 1) 13 else { $c = 10; $c }"),
        Ok(program(Expr::IfElse {
            cond: Box::new(Expr::Compare(CmpOp::Less, Box::new(Expr::UserVar("a")), num("1"))),
            yes: num("13"),
            no: Box::new(Expr::Block(BlockExpr {
                exprs: vec![Expr::Assign("c", num("10"))],
                ret: Box::new(Expr::UserVar("c")),
            })),
        }))
    );
}

#[test]
fn if_needs_parentheses_round_its_condition() {
    assert_eq!(
        parse("if true 1 else 2"),
        Err(unexpected(Token::new(TokenKind::True, 1, 4, "true"), vec![TokenKind::LParen]))
    );
    assert_eq!(
        parse("if (true 1 else 2"),
        Err(unexpected(Token::new(TokenKind::Number("1"), 1, 10, "1"), vec![TokenKind::RParen]))
    );
}

#[test]
fn parses_calls() {
    assert_eq!(
        parse("f($a, $b)"),
        Ok(program(Expr::Call("f", vec![Expr::UserVar("a"), Expr::UserVar("b")])))
    );
    assert_eq!(parse("f()"), Ok(program(Expr::Call("f", vec![]))));
    assert_eq!(
        parse("f(g(1), 2 + 3)"),
        Ok(program(Expr::Call(
            "f",
            vec![
                Expr::Call("g", vec![Expr::Number("1")]),
                Expr::MathBin(MathOp::Add, num("2"), num("3")),
            ],
        )))
    );
}

#[test]
fn call_may_end_in_a_comma() {
    assert_eq!(parse("f(1,)"), Ok(program(Expr::Call("f", vec![Expr::Number("1")]))));
}

#[test]
fn call_arguments_need_commas_between_them() {
    assert_eq!(
        parse("f(1 2)"),
        Err(unexpected(Token::new(TokenKind::Number("2"), 1, 5, "2"), vec![TokenKind::Comma]))
    );
    assert_eq!(
        parse("f(,)"),
        Err(unexpected(Token::new(TokenKind::Comma, 1, 3, ","), primary_starts()))
    );
}

#[test]
fn call_needs_its_closing_parenthesis() {
    assert_eq!(parse("f("), Err(eof()));
    assert_eq!(parse("f(1"), Err(eof()));
    assert_eq!(parse("f(1,"), Err(eof()));
}

#[test]
fn parses_assignments() {
    assert_eq!(parse("$x = 1"), Ok(program(Expr::Assign("x", num("1")))));
    assert_eq!(
        parse("$x = $y = 2"),
        Ok(program(Expr::Assign("x", Box::new(Expr::Assign("y", num("2"))))))
    );
    assert_eq!(
        parse("$x = 1 == 2"),
        Ok(program(Expr::Assign(
            "x",
            Box::new(Expr::Compare(CmpOp::Equal, num("1"), num("2"))),
        )))
    );
}

#[test]
fn parses_compound_assignments() {
    assert_eq!(parse("$x += 1"), Ok(program(Expr::MathAssign(MathOp::Add, "x", num("1")))));
    assert_eq!(parse("$x -= 1"), Ok(program(Expr::MathAssign(MathOp::Sub, "x", num("1")))));
    assert_eq!(parse("$x *= 1"), Ok(program(Expr::MathAssign(MathOp::Mul, "x", num("1")))));
    assert_eq!(parse("$x /= 1"), Ok(program(Expr::MathAssign(MathOp::Div, "x", num("1")))));
}

#[test]
fn dollar_needs_an_identifier() {
    assert_eq!(
        parse("$1"),
        Err(unexpected(Token::new(TokenKind::Number("1"), 1, 2, "1"), vec![TokenKind::Ident("")]))
    );
    assert_eq!(
        parse("$if"),
        Err(unexpected(Token::new(TokenKind::If, 1, 2, "if"), vec![TokenKind::Ident("")]))
    );
    assert_eq!(parse("$"), Err(eof()));
}

#[test]
fn plain_variable_cannot_be_assigned() {
    assert_eq!(parse("x = 1"), Ok(program(Expr::Var("x"))));
}

#[test]
fn empty_block_fails() {
    assert_eq!(
        parse("{}"),
        Err(unexpected(Token::new(TokenKind::RBrace, 1, 2, "}"), primary_starts()))
    );
}

#[test]
fn block_needs_a_value_behind_its_last_semicolon() {
    assert_eq!(
        parse("{ 1; }"),
        Err(unexpected(Token::new(TokenKind::RBrace, 1, 6, "}"), primary_starts()))
    );
    assert_eq!(parse("1;"), Err(eof()));
}

#[test]
fn block_needs_its_closing_brace() {
    assert_eq!(parse("{ 1"), Err(eof()));
    assert_eq!(
        parse("{ 1 )"),
        Err(unexpected(Token::new(TokenKind::RParen, 1, 5, ")"), vec![TokenKind::RBrace]))
    );
}

#[test]
fn parenthesis_needs_closing() {
    assert_eq!(parse("(1"), Err(eof()));
    assert_eq!(
        parse("(1 }"),
        Err(unexpected(Token::new(TokenKind::RBrace, 1, 4, "}"), vec![TokenKind::RParen]))
    );
}

#[test]
fn empty_token_list_fails_with_eof() {
    assert_eq!(Parser::new(vec![]).parse(), Err(eof()));
}

#[test]
fn operator_needs_a_right_operand() {
    assert_eq!(parse("1 +"), Err(eof()));
    assert_eq!(
        parse("1 + * 2"),
        Err(unexpected(Token::new(TokenKind::Star, 1, 5, "*"), primary_starts()))
    );
    assert_eq!(
        parse("1 == )"),
        Err(unexpected(Token::new(TokenKind::RParen, 1, 6, ")"), primary_starts()))
    );
}

#[test]
fn error_carries_the_position_of_its_token() {
    let error = parse("$a = 1;\n\t$b = ;").unwrap_err();
    assert_eq!((error.line, error.col), (2, 10));
    assert_eq!(
        error.kind,
        ErrorKind::UnexpectedToken(Token::new(TokenKind::Semicolon, 2, 10, ";"), primary_starts())
    );
}

#[test]
fn first_error_ends_the_parse() {
    assert_eq!(
        parse("(1 + ) + (2 + )"),
        Err(unexpected(Token::new(TokenKind::RParen, 1, 6, ")"), primary_starts()))
    );
}

#[test]
fn parser_error_new_keeps_its_fields() {
    let error = Error::new(ErrorKind::UnexpectedEof, 4, 2);
    assert_eq!(error.kind, ErrorKind::UnexpectedEof);
    assert_eq!((error.line, error.col), (4, 2));
}

#[test]
fn parsing_does_not_depend_on_token_positions() {
    let spread = parse("f (\n\t$a ,\n 1 )");
    assert_eq!(spread, Ok(program(Expr::Call("f", vec![Expr::UserVar("a"), Expr::Number("1")]))));
    assert_eq!(spread, parse("f($a,1)"));
}

#[test]
fn parses_the_sample_program() {
    assert_eq!(
        parse("5 + 5 * 10 / $a > a($b = if (true) 13 else { $c = 10; $c })"),
        Ok(program(Expr::Compare(
            CmpOp::Greater,
            Box::new(Expr::MathBin(
                MathOp::Div,
                Box::new(Expr::MathBin(
                    MathOp::Mul,
                    Box::new(Expr::MathBin(MathOp::Add, num("5"), num("5"))),
                    num("10"),
                )),
                Box::new(Expr::UserVar("a")),
            )),
            Box::new(Expr::Call(
                "a",
                vec![Expr::Assign(
                    "b",
                    Box::new(Expr::IfElse {
                        cond: Box::new(Expr::Bool(true)),
                        yes: num("13"),
                        no: Box::new(Expr::Block(BlockExpr {
                            exprs: vec![Expr::Assign("c", num("10"))],
                            ret: Box::new(Expr::UserVar("c")),
                        })),
                    }),
                )],
            )),
        )))
    );
}

#[test]
fn parses_tokens_given_by_hand() {
    let tokens = vec![
        Token::new(TokenKind::Bang, 1, 1, "!"),
        Token::new(TokenKind::Ident("ready"), 1, 2, "ready"),
        Token::new(TokenKind::BangEqual, 1, 8, "!="),
        Token::new(TokenKind::False, 1, 11, "false"),
    ];
    assert_eq!(
        Parser::new(tokens).parse(),
        Ok(program(Expr::Compare(
            CmpOp::NotEqual,
            Box::new(Expr::Not(Box::new(Expr::Var("ready")))),
            Box::new(Expr::Bool(false)),
        )))
    );
}

#[test]
fn nested_blocks_and_calls() {
    assert_eq!(
        parse("{ { 1 }; f({ 2 }) }"),
        Ok(program(Expr::Block(BlockExpr {
            exprs: vec![Expr::Block(BlockExpr { exprs: vec![], ret: num("1") })],
            ret: Box::new(Expr::Call(
                "f",
                vec![Expr::Block(BlockExpr { exprs: vec![], ret: num("2") })],
            )),
        })))
    );
}
