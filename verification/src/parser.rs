//! The parser: builds the tree of a token sequence by recursive descent.

use crate::ast::{
    exprs_view, lemma_block_view, lemma_call_view, BlockExpr, BlockView, CmpOp, Expr, ExprView,
    MathOp,
};
use crate::grammar::{
    after, arguments, block, block_from, chain, conditional, expect, expect_ident, expr, kind_at,
    level, next_token, operand, primary, primary_starts, program, remaining, user_variable, Tier,
};
use crate::token::{tokens_view, KindView, Token, TokenKind, TokenView};
use vstd::prelude::*;

verus! {

/// Why the parser stopped.
#[derive(Debug, PartialEq)]
pub enum ErrorKind<'a> {
    /// The tokens ended where one was needed.
    UnexpectedEof,
    /// The token stands where one of the listed kinds was needed. In the
    /// list, `Number` and `Ident` stand for any number and any identifier.
    UnexpectedToken(Token<'a>, Vec<TokenKind<'a>>),
}

/// A structural error, with the line and column of the offending token
/// (both 0 at the end of input).
#[derive(Debug, PartialEq)]
pub struct Error<'a> {
    pub kind: ErrorKind<'a>,
    pub line: u32,
    pub col: u32,
}

/// The mathematical value of an [`ErrorKind`].
pub enum ErrorKindView {
    UnexpectedEof,
    UnexpectedToken(TokenView, Seq<KindView>),
}

/// The mathematical value of an [`Error`].
pub struct ErrorView {
    pub kind: ErrorKindView,
    pub line: int,
    pub col: int,
}

/// The values of a sequence of token kinds, in order.
pub open spec fn kinds_view(kinds: Seq<TokenKind>) -> Seq<KindView> {
    kinds.map_values(|kind: TokenKind| kind@)
}

impl<'a> View for ErrorKind<'a> {
    type V = ErrorKindView;

    open spec fn view(&self) -> ErrorKindView {
        match self {
            ErrorKind::UnexpectedEof => ErrorKindView::UnexpectedEof,
            ErrorKind::UnexpectedToken(token, expected) => ErrorKindView::UnexpectedToken(
                token@,
                kinds_view(expected@),
            ),
        }
    }
}

impl<'a> View for Error<'a> {
    type V = ErrorView;

    open spec fn view(&self) -> ErrorView {
        ErrorView { kind: self.kind@, line: self.line as int, col: self.col as int }
    }
}

impl<'a> Error<'a> {
    /// The error with these fields.
    pub fn new(kind: ErrorKind<'a>, line: u32, col: u32) -> (error: Self)
        ensures
            error.kind == kind,
            error.line == line,
            error.col == col,
    {
        Error { kind, line, col }
    }
}

/// The value of what a parse returns.
pub open spec fn outcome_view(result: Result<Expr, Error>) -> Result<ExprView, ErrorView> {
    match result {
        Ok(tree) => Ok(tree@),
        Err(error) => Err(error@),
    }
}

/// A cursor over a sequence of tokens.
pub struct Parser<'a> {
    tokens: Vec<Token<'a>>,
    index: usize,
}

impl<'a> Parser<'a> {
    /// The tokens to parse.
    pub closed spec fn tokens(&self) -> Seq<TokenView> {
        tokens_view(self.tokens@)
    }

    /// The index of the token that the parser stands at.
    pub closed spec fn position(&self) -> nat {
        self.index as nat
    }

    /// The number of tokens from the cursor on.
    spec fn left(&self) -> nat {
        remaining(self.tokens(), self.position())
    }

    /// Since `before`, the parser has come to `result` as `parsed` says:
    /// on success it stands behind the tokens of the tree.
    spec fn reads<T, V>(
        &self,
        before: &Self,
        result: Result<T, Error>,
        parsed: Result<(V, nat), ErrorView>,
    ) -> bool where T: View<V = V> {
        &&& self.tokens == before.tokens
        &&& self.index >= before.index
        &&& match result {
            Ok(tree) => parsed == Ok::<(V, nat), ErrorView>(
                (tree@, (self.index - before.index) as nat),
            ),
            Err(error) => parsed == Err::<(V, nat), ErrorView>(error@),
        }
    }

    /// A parser at the first of `tokens`.
    pub fn new(tokens: Vec<Token<'a>>) -> (parser: Self)
        ensures
            parser.tokens() == tokens_view(tokens@),
            parser.position() == 0,
    {
        Parser { tokens, index: 0 }
    }

    /// Parses the tokens from the cursor on as a program: one block, whose
    /// tree is returned, or the first error that the block runs into.
    pub fn parse(self) -> (result: Result<Expr<'a>, Error<'a>>)
        ensures
            outcome_view(result) == program(self.tokens(), self.position()),
            result matches Ok(tree) ==> tree is Block,
    {
        let mut parser = self;
        match parser.eat_compound() {
            Ok(body) => Ok(Expr::Block(body)),
            Err(error) => Err(error),
        }
    }

    /// Reads a block: expressions with a `;` behind each, then the one
    /// that gives the block its value.
    fn eat_compound(&mut self) -> (result: Result<BlockExpr<'a>, Error<'a>>)
        ensures
            final(self).reads(old(self), result, block(old(self).tokens(), old(self).position())),
        decreases old(self).left(), 11nat,
    {
        let mut exprs: Vec<Expr<'a>> = Vec::new();
        let ret: Expr<'a>;

        assert(exprs_view(exprs@) =~= Seq::empty());
        loop
            invariant_except_break
                block(old(self).tokens(), old(self).position()) == after(
                    (self.index - old(self).index) as nat,
                    block_from(self.tokens(), exprs_view(exprs@), self.position()),
                ),
            invariant
                self.tokens == old(self).tokens,
                self.index >= old(self).index,
            ensures
                self.tokens == old(self).tokens,
                self.index >= old(self).index,
                block(old(self).tokens(), old(self).position()) == Ok::<
                    (BlockView, nat),
                    ErrorView,
                >(
                    (
                        BlockView { exprs: exprs_view(exprs@), ret: Box::new(ret@) },
                        (self.index - old(self).index) as nat,
                    ),
                ),
            decreases self.left(),
        {
            let ghost done = exprs@;
            let expr = self.eat_expr()?;

            if self.cur_is(TokenKind::Semicolon) {
                self.eat_token()?;
                exprs.push(expr);
                assert(exprs_view(exprs@) =~= exprs_view(done).push(expr@));
            } else {
                ret = expr;
                break;
            }
        }

        let body = BlockExpr { exprs, ret: Box::new(ret) };
        proof {
            lemma_block_view(body);
        }
        Ok(body)
    }

    /// Reads an expression: operands joined by `==` and `!=`.
    fn eat_expr(&mut self) -> (result: Result<Expr<'a>, Error<'a>>)
        ensures
            final(self).reads(old(self), result, expr(old(self).tokens(), old(self).position())),
        decreases old(self).left(), 9nat,
    {
        assert(operand(self.tokens(), Tier::Equality, self.position()) == level(
            self.tokens(),
            Tier::Relational,
            self.position(),
        ));
        let mut expr = self.eat_expr2()?;

        loop
            invariant_except_break
                level(old(self).tokens(), Tier::Equality, old(self).position()) == after(
                    (self.index - old(self).index) as nat,
                    chain(self.tokens(), Tier::Equality, expr@, self.position()),
                ),
            invariant
                self.tokens == old(self).tokens,
                self.index >= old(self).index,
            ensures
                self.tokens == old(self).tokens,
                self.index >= old(self).index,
                level(old(self).tokens(), Tier::Equality, old(self).position()) == Ok::<
                    (ExprView, nat),
                    ErrorView,
                >((expr@, (self.index - old(self).index) as nat)),
            decreases self.left(),
        {
            let op = match self.cur_token_kind() {
                Some(TokenKind::EqualEqual) => CmpOp::Equal,
                Some(TokenKind::BangEqual) => CmpOp::NotEqual,
                _ => break,
            };
            self.eat_token()?;
            assert(operand(self.tokens(), Tier::Equality, self.position()) == level(
                self.tokens(),
                Tier::Relational,
                self.position(),
            ));
            let right = self.eat_expr2()?;
            expr = Expr::Compare(op, Box::new(expr), Box::new(right));
        }

        Ok(expr)
    }

    /// Reads operands joined by `>`, `>=`, `<` and `<=`.
    fn eat_expr2(&mut self) -> (result: Result<Expr<'a>, Error<'a>>)
        ensures
            final(self).reads(
                old(self),
                result,
                level(old(self).tokens(), Tier::Relational, old(self).position()),
            ),
        decreases old(self).left(), 6nat,
    {
        assert(operand(self.tokens(), Tier::Relational, self.position()) == level(
            self.tokens(),
            Tier::Multiplicative,
            self.position(),
        ));
        let mut expr = self.eat_expr3()?;

        loop
            invariant_except_break
                level(old(self).tokens(), Tier::Relational, old(self).position()) == after(
                    (self.index - old(self).index) as nat,
                    chain(self.tokens(), Tier::Relational, expr@, self.position()),
                ),
            invariant
                self.tokens == old(self).tokens,
                self.index >= old(self).index,
            ensures
                self.tokens == old(self).tokens,
                self.index >= old(self).index,
                level(old(self).tokens(), Tier::Relational, old(self).position()) == Ok::<
                    (ExprView, nat),
                    ErrorView,
                >((expr@, (self.index - old(self).index) as nat)),
            decreases self.left(),
        {
            let op = match self.cur_token_kind() {
                Some(TokenKind::Greater) => CmpOp::Greater,
                Some(TokenKind::GreaterEqual) => CmpOp::GreaterEqual,
                Some(TokenKind::Less) => CmpOp::Less,
                Some(TokenKind::LessEqual) => CmpOp::LessEqual,
                _ => break,
            };
            self.eat_token()?;
            assert(operand(self.tokens(), Tier::Relational, self.position()) == level(
                self.tokens(),
                Tier::Multiplicative,
                self.position(),
            ));
            let right = self.eat_expr3()?;
            expr = Expr::Compare(op, Box::new(expr), Box::new(right));
        }

        Ok(expr)
    }

    /// Reads operands joined by `*` and `/`.
    fn eat_expr3(&mut self) -> (result: Result<Expr<'a>, Error<'a>>)
        ensures
            final(self).reads(
                old(self),
                result,
                level(old(self).tokens(), Tier::Multiplicative, old(self).position()),
            ),
        decreases old(self).left(), 4nat,
    {
        assert(operand(self.tokens(), Tier::Multiplicative, self.position()) == level(
            self.tokens(),
            Tier::Additive,
            self.position(),
        ));
        let mut expr = self.eat_expr4()?;

        loop
            invariant_except_break
                level(old(self).tokens(), Tier::Multiplicative, old(self).position()) == after(
                    (self.index - old(self).index) as nat,
                    chain(self.tokens(), Tier::Multiplicative, expr@, self.position()),
                ),
            invariant
                self.tokens == old(self).tokens,
                self.index >= old(self).index,
            ensures
                self.tokens == old(self).tokens,
                self.index >= old(self).index,
                level(old(self).tokens(), Tier::Multiplicative, old(self).position()) == Ok::<
                    (ExprView, nat),
                    ErrorView,
                >((expr@, (self.index - old(self).index) as nat)),
            decreases self.left(),
        {
            let math = match self.cur_token_kind() {
                Some(TokenKind::Star) => MathOp::Mul,
                Some(TokenKind::Slash) => MathOp::Div,
                _ => break,
            };
            self.eat_token()?;
            assert(operand(self.tokens(), Tier::Multiplicative, self.position()) == level(
                self.tokens(),
                Tier::Additive,
                self.position(),
            ));
            let right = self.eat_expr4()?;
            expr = Expr::MathBin(math, Box::new(expr), Box::new(right));
        }

        Ok(expr)
    }

    /// Reads operands joined by `+` and `-`.
    fn eat_expr4(&mut self) -> (result: Result<Expr<'a>, Error<'a>>)
        ensures
            final(self).reads(
                old(self),
                result,
                level(old(self).tokens(), Tier::Additive, old(self).position()),
            ),
        decreases old(self).left(), 2nat,
    {
        assert(operand(self.tokens(), Tier::Additive, self.position()) == primary(
            self.tokens(),
            self.position(),
        ));
        let mut expr = self.eat_expr5()?;

        loop
            invariant_except_break
                level(old(self).tokens(), Tier::Additive, old(self).position()) == after(
                    (self.index - old(self).index) as nat,
                    chain(self.tokens(), Tier::Additive, expr@, self.position()),
                ),
            invariant
                self.tokens == old(self).tokens,
                self.index >= old(self).index,
            ensures
                self.tokens == old(self).tokens,
                self.index >= old(self).index,
                level(old(self).tokens(), Tier::Additive, old(self).position()) == Ok::<
                    (ExprView, nat),
                    ErrorView,
                >((expr@, (self.index - old(self).index) as nat)),
            decreases self.left(),
        {
            let math = match self.cur_token_kind() {
                Some(TokenKind::Plus) => MathOp::Add,
                Some(TokenKind::Minus) => MathOp::Sub,
                _ => break,
            };
            self.eat_token()?;
            assert(operand(self.tokens(), Tier::Additive, self.position()) == primary(
                self.tokens(),
                self.position(),
            ));
            let right = self.eat_expr5()?;
            expr = Expr::MathBin(math, Box::new(expr), Box::new(right));
        }

        Ok(expr)
    }

    /// Reads a primary expression.
    fn eat_expr5(&mut self) -> (result: Result<Expr<'a>, Error<'a>>)
        ensures
            final(self).reads(
                old(self),
                result,
                primary(old(self).tokens(), old(self).position()),
            ),
        decreases old(self).left(), 0nat,
    {
        let token = self.eat_token()?;
        match token.kind {
            TokenKind::Number(num) => Ok(Expr::Number(num)),
            TokenKind::True => Ok(Expr::Bool(true)),
            TokenKind::False => Ok(Expr::Bool(false)),
            TokenKind::Minus => {
                let inner = self.eat_expr5()?;
                Ok(Expr::Negate(Box::new(inner)))
            },
            TokenKind::Bang => {
                let inner = self.eat_expr5()?;
                Ok(Expr::Not(Box::new(inner)))
            },
            TokenKind::Ident(var) => {
                if self.cur_is(TokenKind::LParen) {
                    self.eat_token()?;
                    let args = self.eat_args()?;
                    proof {
                        lemma_call_view(var, args);
                    }
                    Ok(Expr::Call(var, args))
                } else {
                    Ok(Expr::Var(var))
                }
            },
            TokenKind::Dollar => self.eat_user_var(),
            TokenKind::LBrace => {
                let body = self.eat_compound()?;
                self.eat_token_kind(TokenKind::RBrace)?;
                Ok(Expr::Block(body))
            },
            TokenKind::LParen => {
                let inner = self.eat_expr()?;
                self.eat_token_kind(TokenKind::RParen)?;
                Ok(inner)
            },
            TokenKind::If => self.eat_if(),
            _ => {
                let line = token.line;
                let col = token.col;
                let expected = vec![
                    TokenKind::Number("0"),
                    TokenKind::True,
                    TokenKind::False,
                    TokenKind::Minus,
                    TokenKind::Bang,
                    TokenKind::Ident(""),
                    TokenKind::Dollar,
                    TokenKind::LBrace,
                    TokenKind::LParen,
                    TokenKind::If,
                ];
                proof {
                    reveal_strlit("0");
                    reveal_strlit("");
                    assert("0"@ =~= seq!['0']);
                    assert(""@ =~= Seq::<char>::empty());
                    assert(kinds_view(expected@) =~= primary_starts());
                }
                Err(Error::new(ErrorKind::UnexpectedToken(token, expected), line, col))
            },
        }
    }

    /// Reads the arguments of a call and the `)` behind them; the `(` has
    /// been read.
    fn eat_args(&mut self) -> (result: Result<Vec<Expr<'a>>, Error<'a>>)
        ensures
            final(self).tokens == old(self).tokens,
            final(self).index >= old(self).index,
            match result {
                Ok(args) => arguments(old(self).tokens(), Seq::empty(), old(self).position())
                    == Ok::<(Seq<ExprView>, nat), ErrorView>(
                    (exprs_view(args@), (final(self).index - old(self).index) as nat),
                ),
                Err(error) => arguments(old(self).tokens(), Seq::empty(), old(self).position())
                    == Err::<(Seq<ExprView>, nat), ErrorView>(error@),
            },
        decreases old(self).left(), 10nat,
    {
        let mut args: Vec<Expr<'a>> = Vec::new();
        assert(exprs_view(args@) =~= Seq::empty());
        while !self.cur_is(TokenKind::RParen)
            invariant
                self.tokens == old(self).tokens,
                self.index >= old(self).index,
                arguments(old(self).tokens(), Seq::empty(), old(self).position()) == after(
                    (self.index - old(self).index) as nat,
                    arguments(self.tokens(), exprs_view(args@), self.position()),
                ),
            decreases self.left(),
        {
            let ghost done = args@;
            let arg = self.eat_expr()?;
            args.push(arg);
            assert(exprs_view(args@) =~= exprs_view(done).push(arg@));
            if !self.cur_is(TokenKind::RParen) {
                self.eat_token_kind(TokenKind::Comma)?;
            }
        }
        self.eat_token()?;
        Ok(args)
    }

    /// Reads what follows a `$`: the variable's name, and an assignment to
    /// it where one follows.
    fn eat_user_var(&mut self) -> (result: Result<Expr<'a>, Error<'a>>)
        ensures
            final(self).reads(
                old(self),
                result,
                user_variable(old(self).tokens(), old(self).position()),
            ),
        decreases old(self).left(), 10nat,
    {
        let uvar = self.eat_ident()?;
        let math_op = match self.cur_token_kind() {
            Some(TokenKind::Equal) => {
                self.eat_token()?;
                let value = self.eat_expr()?;
                return Ok(Expr::Assign(uvar, Box::new(value)));
            },
            Some(TokenKind::PlusEqual) => MathOp::Add,
            Some(TokenKind::MinusEqual) => MathOp::Sub,
            Some(TokenKind::MultiplyEqual) => MathOp::Mul,
            Some(TokenKind::DivideEqual) => MathOp::Div,
            _ => {
                return Ok(Expr::UserVar(uvar));
            },
        };

        self.eat_token()?;
        let value = self.eat_expr()?;
        Ok(Expr::MathAssign(math_op, uvar, Box::new(value)))
    }

    /// Reads what follows an `if`: the condition in parentheses and the
    /// two branches with `else` between them.
    fn eat_if(&mut self) -> (result: Result<Expr<'a>, Error<'a>>)
        ensures
            final(self).reads(
                old(self),
                result,
                conditional(old(self).tokens(), old(self).position()),
            ),
        decreases old(self).left(), 10nat,
    {
        self.eat_token_kind(TokenKind::LParen)?;
        let cond = self.eat_expr()?;
        self.eat_token_kind(TokenKind::RParen)?;
        let yes = self.eat_expr()?;
        self.eat_token_kind(TokenKind::Else)?;
        let no = self.eat_expr()?;
        Ok(Expr::IfElse { cond: Box::new(cond), yes: Box::new(yes), no: Box::new(no) })
    }

    /// Reads an identifier and returns its name.
    fn eat_ident(&mut self) -> (result: Result<&'a str, Error<'a>>)
        ensures
            final(self).tokens == old(self).tokens,
            match result {
                Ok(name) => expect_ident(old(self).tokens(), old(self).position()) == Ok::<
                    Seq<char>,
                    ErrorView,
                >(name@) && final(self).index == old(self).index + 1,
                Err(error) => expect_ident(old(self).tokens(), old(self).position()) == Err::<
                    Seq<char>,
                    ErrorView,
                >(error@) && final(self).index >= old(self).index,
            },
    {
        let token = self.eat_token()?;
        let line = token.line;
        let col = token.col;
        match token.kind {
            TokenKind::Ident(var) => Ok(var),
            _ => {
                let expected = vec![TokenKind::Ident("")];
                proof {
                    reveal_strlit("");
                    assert(""@ =~= Seq::<char>::empty());
                    assert(kinds_view(expected@) =~= seq![KindView::Ident(Seq::empty())]);
                }
                Err(Error::new(ErrorKind::UnexpectedToken(token, expected), line, col))
            },
        }
    }

    /// Reads a token, which has to be of kind `kind`.
    fn eat_token_kind(&mut self, kind: TokenKind<'a>) -> (result: Result<Token<'a>, Error<'a>>)
        ensures
            final(self).tokens == old(self).tokens,
            match result {
                Ok(token) => expect(old(self).tokens(), old(self).position(), kind@) == Ok::<
                    TokenView,
                    ErrorView,
                >(token@) && final(self).index == old(self).index + 1,
                Err(error) => expect(old(self).tokens(), old(self).position(), kind@) == Err::<
                    TokenView,
                    ErrorView,
                >(error@) && final(self).index >= old(self).index,
            },
    {
        let token = self.eat_token()?;
        if token.kind == kind {
            Ok(token)
        } else {
            let line = token.line;
            let col = token.col;
            let expected = vec![kind];
            assert(kinds_view(expected@) =~= seq![kind@]);
            Err(Error::new(ErrorKind::UnexpectedToken(token, expected), line, col))
        }
    }

    /// Reads a token.
    fn eat_token(&mut self) -> (result: Result<Token<'a>, Error<'a>>)
        ensures
            final(self).tokens == old(self).tokens,
            match result {
                Ok(token) => next_token(old(self).tokens(), old(self).position()) == Ok::<
                    TokenView,
                    ErrorView,
                >(token@) && final(self).index == old(self).index + 1,
                Err(error) => next_token(old(self).tokens(), old(self).position()) == Err::<
                    TokenView,
                    ErrorView,
                >(error@) && final(self).index == old(self).index,
            },
    {
        match self.cur_token() {
            Some(token) => {
                self.index += 1;
                Ok(token)
            },
            None => Err(Error::new(ErrorKind::UnexpectedEof, 0, 0)),
        }
    }

    /// The token at the cursor, if any.
    fn cur_token(&self) -> (token: Option<Token<'a>>)
        ensures
            match token {
                Some(token) => self.index < self.tokens.len() && next_token(
                    self.tokens(),
                    self.position(),
                ) == Ok::<TokenView, ErrorView>(token@),
                None => self.index >= self.tokens.len(),
            },
    {
        if self.index < self.tokens.len() {
            Some(self.tokens[self.index])
        } else {
            None
        }
    }

    /// The kind of the token at the cursor, if any.
    fn cur_token_kind(&self) -> (kind: Option<TokenKind<'a>>)
        ensures
            match kind {
                Some(kind) => kind_at(self.tokens(), self.position()) == Some(kind@),
                None => kind_at(self.tokens(), self.position()) is None,
            },
    {
        match self.cur_token() {
            Some(token) => Some(token.kind),
            None => None,
        }
    }

    /// Whether the parser stands at a token of kind `kind`.
    fn cur_is(&self, kind: TokenKind<'a>) -> (yes: bool)
        ensures
            yes == (kind_at(self.tokens(), self.position()) == Some(kind@)),
    {
        match self.cur_token_kind() {
            Some(found) => found == kind,
            None => false,
        }
    }
}

} // verus!
