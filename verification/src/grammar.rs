//! What parsing means: the tree that a sequence of tokens stands for, or
//! the error it runs into.
//!
//! Each function here reads `toks` from an index on and gives the tree it
//! finds there together with the number of tokens that the tree takes up.
//! Binary operators come in four tiers, the first binding loosest:
//!
//! | tier           | operators         |
//! |----------------|-------------------|
//! | equality       | `==` `!=`         |
//! | relational     | `>` `>=` `<` `<=` |
//! | multiplicative | `*` `/`           |
//! | additive       | `+` `-`           |
//!
//! An operand of a tier is an expression of the tier below it in this
//! table, and an operand of the additive tier is a primary expression.
//! Every tier is left-associative.

use crate::ast::{BlockView, CmpOp, ExprView, MathOp};
use crate::parser::{ErrorKindView, ErrorView};
use crate::token::{KindView, TokenView};
use vstd::prelude::*;

verus! {

/// A tree and the number of tokens it was read from, or an error.
pub type Parsed = Result<(ExprView, nat), ErrorView>;

/// A block and the number of tokens it was read from, or an error.
pub type ParsedBlock = Result<(BlockView, nat), ErrorView>;

/// A call's arguments and the number of tokens up to and with the closing
/// parenthesis, or an error.
pub type ParsedArgs = Result<(Seq<ExprView>, nat), ErrorView>;

/// A tier of binary operators.
pub enum Tier {
    Equality,
    Relational,
    Multiplicative,
    Additive,
}

/// The tier that binds next tighter than `tier`, if there is one.
pub open spec fn tighter(tier: Tier) -> Option<Tier> {
    match tier {
        Tier::Equality => Some(Tier::Relational),
        Tier::Relational => Some(Tier::Multiplicative),
        Tier::Multiplicative => Some(Tier::Additive),
        Tier::Additive => None,
    }
}

/// How many tiers bind at least as tight as `tier`.
pub open spec fn depth(tier: Tier) -> nat {
    match tier {
        Tier::Equality => 4,
        Tier::Relational => 3,
        Tier::Multiplicative => 2,
        Tier::Additive => 1,
    }
}

/// A binary operator of either sort.
pub enum BinOp {
    Math(MathOp),
    Cmp(CmpOp),
}

/// The number of tokens from index `i` on.
pub open spec fn remaining(toks: Seq<TokenView>, i: nat) -> nat {
    if i < toks.len() {
        (toks.len() - i) as nat
    } else {
        0
    }
}

/// The kind of the token at index `i`, if there is one.
pub open spec fn kind_at(toks: Seq<TokenView>, i: nat) -> Option<KindView> {
    if i < toks.len() {
        Some(toks[i as int].kind)
    } else {
        None
    }
}

/// The error for a token sequence that ends where a token is needed.
pub open spec fn eof_error() -> ErrorView {
    ErrorView { kind: ErrorKindView::UnexpectedEof, line: 0, col: 0 }
}

/// The error for `token` standing where one of the kinds `expected` is
/// needed. It carries the position of `token`.
pub open spec fn unexpected(token: TokenView, expected: Seq<KindView>) -> ErrorView {
    ErrorView {
        kind: ErrorKindView::UnexpectedToken(token, expected),
        line: token.line,
        col: token.col,
    }
}

/// The token at index `i`, or the end-of-input error.
pub open spec fn next_token(toks: Seq<TokenView>, i: nat) -> Result<TokenView, ErrorView> {
    if i < toks.len() {
        Ok(toks[i as int])
    } else {
        Err(eof_error())
    }
}

/// The token at index `i` where its kind is `kind`; an error that names
/// `kind` as expected where it is of another kind.
pub open spec fn expect(toks: Seq<TokenView>, i: nat, kind: KindView) -> Result<
    TokenView,
    ErrorView,
> {
    match next_token(toks, i) {
        Err(error) => Err(error),
        Ok(token) => if token.kind == kind {
            Ok(token)
        } else {
            Err(unexpected(token, seq![kind]))
        },
    }
}

/// The name of the identifier at index `i`; an error that expects an
/// identifier where another token stands there.
pub open spec fn expect_ident(toks: Seq<TokenView>, i: nat) -> Result<Seq<char>, ErrorView> {
    match next_token(toks, i) {
        Err(error) => Err(error),
        Ok(token) => match token.kind {
            KindView::Ident(name) => Ok(name),
            _ => Err(unexpected(token, seq![KindView::Ident(Seq::empty())])),
        },
    }
}

/// The kinds that a primary expression can start with. `Number` and
/// `Ident` stand for any number and any identifier.
pub open spec fn primary_starts() -> Seq<KindView> {
    seq![
        KindView::Number(seq!['0']),
        KindView::True,
        KindView::False,
        KindView::Minus,
        KindView::Bang,
        KindView::Ident(Seq::empty()),
        KindView::Dollar,
        KindView::LBrace,
        KindView::LParen,
        KindView::If,
    ]
}

/// The binary operator of `tier` that a token of kind `kind` is, if any.
pub open spec fn operator(tier: Tier, kind: Option<KindView>) -> Option<BinOp> {
    match (tier, kind) {
        (Tier::Equality, Some(KindView::EqualEqual)) => Some(BinOp::Cmp(CmpOp::Equal)),
        (Tier::Equality, Some(KindView::BangEqual)) => Some(BinOp::Cmp(CmpOp::NotEqual)),
        (Tier::Relational, Some(KindView::Greater)) => Some(BinOp::Cmp(CmpOp::Greater)),
        (Tier::Relational, Some(KindView::GreaterEqual)) => Some(
            BinOp::Cmp(CmpOp::GreaterEqual),
        ),
        (Tier::Relational, Some(KindView::Less)) => Some(BinOp::Cmp(CmpOp::Less)),
        (Tier::Relational, Some(KindView::LessEqual)) => Some(BinOp::Cmp(CmpOp::LessEqual)),
        (Tier::Multiplicative, Some(KindView::Star)) => Some(BinOp::Math(MathOp::Mul)),
        (Tier::Multiplicative, Some(KindView::Slash)) => Some(BinOp::Math(MathOp::Div)),
        (Tier::Additive, Some(KindView::Plus)) => Some(BinOp::Math(MathOp::Add)),
        (Tier::Additive, Some(KindView::Minus)) => Some(BinOp::Math(MathOp::Sub)),
        _ => None,
    }
}

/// The arithmetic operator of a compound assignment token, if `kind` is one.
pub open spec fn assign_operator(kind: Option<KindView>) -> Option<MathOp> {
    match kind {
        Some(KindView::PlusEqual) => Some(MathOp::Add),
        Some(KindView::MinusEqual) => Some(MathOp::Sub),
        Some(KindView::MultiplyEqual) => Some(MathOp::Mul),
        Some(KindView::DivideEqual) => Some(MathOp::Div),
        _ => None,
    }
}

/// The tree of `left op right`.
pub open spec fn binary(op: BinOp, left: ExprView, right: ExprView) -> ExprView {
    match op {
        BinOp::Math(math) => ExprView::MathBin(math, Box::new(left), Box::new(right)),
        BinOp::Cmp(cmp) => ExprView::Compare(cmp, Box::new(left), Box::new(right)),
    }
}

/// `parsed`, counted from `by` tokens earlier.
pub open spec fn after<T>(by: nat, parsed: Result<(T, nat), ErrorView>) -> Result<
    (T, nat),
    ErrorView,
> {
    match parsed {
        Ok((tree, n)) => Ok((tree, by + n)),
        Err(error) => Err(error),
    }
}

/// A whole expression at index `i`: an expression of the loosest tier.
pub open spec fn expr(toks: Seq<TokenView>, i: nat) -> Parsed
    decreases remaining(toks, i), 9nat,
{
    level(toks, Tier::Equality, i)
}

/// An operand of `tier` at index `i`: an expression of the next tighter
/// tier, or a primary expression where there is no tighter tier.
pub open spec fn operand(toks: Seq<TokenView>, tier: Tier, i: nat) -> Parsed
    decreases remaining(toks, i), (2 * depth(tier) - 1) as nat,
{
    match tighter(tier) {
        Some(next) => level(toks, next, i),
        None => primary(toks, i),
    }
}

/// An expression of `tier` at index `i`: an operand, and then the chain of
/// operators of `tier` behind it.
pub open spec fn level(toks: Seq<TokenView>, tier: Tier, i: nat) -> Parsed
    decreases remaining(toks, i), 2 * depth(tier),
{
    match operand(toks, tier, i) {
        Err(error) => Err(error),
        Ok((left, n)) => after(n, chain(toks, tier, left, i + n)),
    }
}

/// What `left` grows into by the operators of `tier` that follow at index
/// `i`: with no such operator there, `left` itself; else the chain that
/// goes on from `left op right`, where `right` is the operand behind the
/// operator. So operators of one tier group to the left.
pub open spec fn chain(toks: Seq<TokenView>, tier: Tier, left: ExprView, i: nat) -> Parsed
    decreases remaining(toks, i), 0nat,
{
    match operator(tier, kind_at(toks, i)) {
        None => Ok((left, 0)),
        Some(op) => match operand(toks, tier, i + 1) {
            Err(error) => Err(error),
            Ok((right, n)) => after(
                1 + n,
                chain(toks, tier, binary(op, left, right), i + 1 + n),
            ),
        },
    }
}

/// A primary expression at index `i`: a literal, a prefix operator and its
/// operand, a name or a call, a `$` form, a block in braces, an expression
/// in parentheses, or a conditional.
pub open spec fn primary(toks: Seq<TokenView>, i: nat) -> Parsed
    decreases remaining(toks, i), 0nat,
{
    match next_token(toks, i) {
        Err(error) => Err(error),
        Ok(token) => match token.kind {
            KindView::Number(text) => Ok((ExprView::Number(text), 1)),
            KindView::True => Ok((ExprView::Bool(true), 1)),
            KindView::False => Ok((ExprView::Bool(false), 1)),
            KindView::Minus => match primary(toks, i + 1) {
                Err(error) => Err(error),
                Ok((inner, n)) => Ok((ExprView::Negate(Box::new(inner)), 1 + n)),
            },
            KindView::Bang => match primary(toks, i + 1) {
                Err(error) => Err(error),
                Ok((inner, n)) => Ok((ExprView::Not(Box::new(inner)), 1 + n)),
            },
            KindView::Ident(name) => if kind_at(toks, i + 1) == Some(KindView::LParen) {
                match arguments(toks, Seq::empty(), i + 2) {
                    Err(error) => Err(error),
                    Ok((args, n)) => Ok((ExprView::Call(name, args), 2 + n)),
                }
            } else {
                Ok((ExprView::Var(name), 1))
            },
            KindView::Dollar => after(1, user_variable(toks, i + 1)),
            KindView::LBrace => match block(toks, i + 1) {
                Err(error) => Err(error),
                Ok((body, n)) => match expect(toks, i + 1 + n, KindView::RBrace) {
                    Err(error) => Err(error),
                    Ok(_) => Ok((ExprView::Block(body), 2 + n)),
                },
            },
            KindView::LParen => match expr(toks, i + 1) {
                Err(error) => Err(error),
                Ok((inner, n)) => match expect(toks, i + 1 + n, KindView::RParen) {
                    Err(error) => Err(error),
                    Ok(_) => Ok((inner, 2 + n)),
                },
            },
            KindView::If => after(1, conditional(toks, i + 1)),
            _ => Err(unexpected(token, primary_starts())),
        },
    }
}

/// What follows a `$` at index `i`: a name, and then `=` and a value (an
/// assignment), a compound assignment operator and a value, or nothing
/// more (the variable is read).
pub open spec fn user_variable(toks: Seq<TokenView>, i: nat) -> Parsed
    decreases remaining(toks, i), 10nat,
{
    match expect_ident(toks, i) {
        Err(error) => Err(error),
        Ok(name) => if kind_at(toks, i + 1) == Some(KindView::Equal) {
            match expr(toks, i + 2) {
                Err(error) => Err(error),
                Ok((value, n)) => Ok((ExprView::Assign(name, Box::new(value)), 2 + n)),
            }
        } else {
            match assign_operator(kind_at(toks, i + 1)) {
                Some(op) => match expr(toks, i + 2) {
                    Err(error) => Err(error),
                    Ok((value, n)) => Ok(
                        (ExprView::MathAssign(op, name, Box::new(value)), 2 + n),
                    ),
                },
                None => Ok((ExprView::UserVar(name), 1)),
            }
        },
    }
}

/// What follows an `if` at index `i`: a condition in parentheses, an
/// expression, `else`, and another expression.
pub open spec fn conditional(toks: Seq<TokenView>, i: nat) -> Parsed
    decreases remaining(toks, i), 10nat,
{
    match expect(toks, i, KindView::LParen) {
        Err(error) => Err(error),
        Ok(_) => match expr(toks, i + 1) {
            Err(error) => Err(error),
            Ok((cond, a)) => match expect(toks, i + 1 + a, KindView::RParen) {
                Err(error) => Err(error),
                Ok(_) => match expr(toks, i + 2 + a) {
                    Err(error) => Err(error),
                    Ok((yes, b)) => match expect(toks, i + 2 + a + b, KindView::Else) {
                        Err(error) => Err(error),
                        Ok(_) => match expr(toks, i + 3 + a + b) {
                            Err(error) => Err(error),
                            Ok((no, c)) => Ok(
                                (
                                    ExprView::IfElse {
                                        cond: Box::new(cond),
                                        yes: Box::new(yes),
                                        no: Box::new(no),
                                    },
                                    3 + a + b + c,
                                ),
                            ),
                        },
                    },
                },
            },
        },
    }
}

/// The arguments of a call from index `i` on, behind the arguments `done`:
/// at a `)` the list is complete; else an expression is read, and behind it
/// a `)` ends the list or a `,` leads on to the rest. A `,` may stand
/// before the closing `)`.
pub open spec fn arguments(toks: Seq<TokenView>, done: Seq<ExprView>, i: nat) -> ParsedArgs
    decreases remaining(toks, i), 10nat,
{
    if kind_at(toks, i) == Some(KindView::RParen) {
        Ok((done, 1))
    } else {
        match expr(toks, i) {
            Err(error) => Err(error),
            Ok((arg, n)) => if kind_at(toks, i + n) == Some(KindView::RParen) {
                Ok((done.push(arg), n + 1))
            } else {
                match expect(toks, i + n, KindView::Comma) {
                    Err(error) => Err(error),
                    Ok(_) => after(n + 1, arguments(toks, done.push(arg), i + n + 1)),
                }
            },
        }
    }
}

/// A block at index `i`: expressions that each end in a `;`, then one that
/// does not, which gives the block its value.
pub open spec fn block(toks: Seq<TokenView>, i: nat) -> ParsedBlock
    decreases remaining(toks, i), 11nat,
{
    block_from(toks, Seq::empty(), i)
}

/// The block that goes on at index `i` behind the expressions `done`.
pub open spec fn block_from(toks: Seq<TokenView>, done: Seq<ExprView>, i: nat) -> ParsedBlock
    decreases remaining(toks, i), 10nat,
{
    match expr(toks, i) {
        Err(error) => Err(error),
        Ok((tree, n)) => if kind_at(toks, i + n) == Some(KindView::Semicolon) {
            after(n + 1, block_from(toks, done.push(tree), i + n + 1))
        } else {
            Ok((BlockView { exprs: done, ret: Box::new(tree) }, n))
        },
    }
}

/// The tree of a whole program: the block that starts at index `i`.
/// Tokens behind that block are not looked at.
pub open spec fn program(toks: Seq<TokenView>, i: nat) -> Result<ExprView, ErrorView> {
    match block(toks, i) {
        Err(error) => Err(error),
        Ok((body, _)) => Ok(ExprView::Block(body)),
    }
}

/// Whether `parsed`, read at index `i`, took at least `least` tokens and no
/// more than there were. An error meets this.
pub open spec fn within<T>(
    toks: Seq<TokenView>,
    i: nat,
    least: nat,
    parsed: Result<(T, nat), ErrorView>,
) -> bool {
    match parsed {
        Ok((_, n)) => least <= n <= remaining(toks, i),
        Err(_) => true,
    }
}

/// An expression takes at least one token, and only tokens that are there.
pub proof fn lemma_expr_within(toks: Seq<TokenView>, i: nat)
    ensures
        within(toks, i, 1, expr(toks, i)),
    decreases remaining(toks, i), 9nat,
{
    lemma_level_within(toks, Tier::Equality, i);
}

/// An operand takes at least one token, and only tokens that are there.
pub proof fn lemma_operand_within(toks: Seq<TokenView>, tier: Tier, i: nat)
    ensures
        within(toks, i, 1, operand(toks, tier, i)),
    decreases remaining(toks, i), (2 * depth(tier) - 1) as nat,
{
    match tighter(tier) {
        Some(next) => lemma_level_within(toks, next, i),
        None => lemma_primary_within(toks, i),
    }
}

/// An expression of any tier takes at least one token, and only tokens
/// that are there.
pub proof fn lemma_level_within(toks: Seq<TokenView>, tier: Tier, i: nat)
    ensures
        within(toks, i, 1, level(toks, tier, i)),
    decreases remaining(toks, i), 2 * depth(tier),
{
    lemma_operand_within(toks, tier, i);
    if let Ok((left, n)) = operand(toks, tier, i) {
        lemma_chain_within(toks, tier, left, i + n);
    }
}

/// A chain of operators takes only tokens that are there.
pub proof fn lemma_chain_within(toks: Seq<TokenView>, tier: Tier, left: ExprView, i: nat)
    ensures
        within(toks, i, 0, chain(toks, tier, left, i)),
    decreases remaining(toks, i), 0nat,
{
    if let Some(op) = operator(tier, kind_at(toks, i)) {
        lemma_operand_within(toks, tier, i + 1);
        if let Ok((right, n)) = operand(toks, tier, i + 1) {
            lemma_chain_within(toks, tier, binary(op, left, right), i + 1 + n);
        }
    }
}

/// A primary expression takes at least one token, and only tokens that
/// are there.
pub proof fn lemma_primary_within(toks: Seq<TokenView>, i: nat)
    ensures
        within(toks, i, 1, primary(toks, i)),
    decreases remaining(toks, i), 0nat,
{
    if let Ok(token) = next_token(toks, i) {
        match token.kind {
            KindView::Minus => lemma_primary_within(toks, i + 1),
            KindView::Bang => lemma_primary_within(toks, i + 1),
            KindView::Ident(_) => {
                if kind_at(toks, i + 1) == Some(KindView::LParen) {
                    lemma_arguments_within(toks, Seq::empty(), i + 2);
                }
            },
            KindView::Dollar => lemma_user_variable_within(toks, i + 1),
            KindView::LBrace => lemma_block_within(toks, Seq::empty(), i + 1),
            KindView::LParen => lemma_expr_within(toks, i + 1),
            KindView::If => lemma_conditional_within(toks, i + 1),
            _ => {},
        }
    }
}

/// What follows a `$` takes at least one token, and only tokens that are
/// there.
pub proof fn lemma_user_variable_within(toks: Seq<TokenView>, i: nat)
    ensures
        within(toks, i, 1, user_variable(toks, i)),
    decreases remaining(toks, i), 10nat,
{
    if expect_ident(toks, i) is Ok {
        lemma_expr_within(toks, i + 2);
    }
}

/// What follows an `if` takes at least six tokens, and only tokens that
/// are there.
pub proof fn lemma_conditional_within(toks: Seq<TokenView>, i: nat)
    ensures
        within(toks, i, 6, conditional(toks, i)),
    decreases remaining(toks, i), 10nat,
{
    if expect(toks, i, KindView::LParen) is Ok {
        lemma_expr_within(toks, i + 1);
        if let Ok((_, a)) = expr(toks, i + 1) {
            if expect(toks, i + 1 + a, KindView::RParen) is Ok {
                lemma_expr_within(toks, i + 2 + a);
                if let Ok((_, b)) = expr(toks, i + 2 + a) {
                    if expect(toks, i + 2 + a + b, KindView::Else) is Ok {
                        lemma_expr_within(toks, i + 3 + a + b);
                    }
                }
            }
        }
    }
}

/// The arguments of a call and its closing parenthesis take at least one
/// token, and only tokens that are there; the arguments `done` stay first.
pub proof fn lemma_arguments_within(toks: Seq<TokenView>, done: Seq<ExprView>, i: nat)
    ensures
        within(toks, i, 1, arguments(toks, done, i)),
        arguments(toks, done, i) matches Ok((args, _)) ==> done.is_prefix_of(args),
    decreases remaining(toks, i), 10nat,
{
    if kind_at(toks, i) != Some(KindView::RParen) {
        lemma_expr_within(toks, i);
        if let Ok((arg, n)) = expr(toks, i) {
            if kind_at(toks, i + n) != Some(KindView::RParen) && expect(
                toks,
                i + n,
                KindView::Comma,
            ) is Ok {
                lemma_arguments_within(toks, done.push(arg), i + n + 1);
            }
        }
    }
}

/// A block takes at least one token, and only tokens that are there; the
/// expressions `done` stay first among its statements.
pub proof fn lemma_block_within(toks: Seq<TokenView>, done: Seq<ExprView>, i: nat)
    ensures
        within(toks, i, 1, block_from(toks, done, i)),
        block_from(toks, done, i) matches Ok((body, _)) ==> done.is_prefix_of(body.exprs),
    decreases remaining(toks, i), 10nat,
{
    lemma_expr_within(toks, i);
    if let Ok((tree, n)) = expr(toks, i) {
        if kind_at(toks, i + n) == Some(KindView::Semicolon) {
            lemma_block_within(toks, done.push(tree), i + n + 1);
        }
    }
}

/// Whether a primary expression can start with a token of kind `kind`.
pub open spec fn starts_primary(kind: KindView) -> bool {
    match kind {
        KindView::Number(_) => true,
        KindView::True => true,
        KindView::False => true,
        KindView::Minus => true,
        KindView::Bang => true,
        KindView::Ident(_) => true,
        KindView::Dollar => true,
        KindView::LBrace => true,
        KindView::LParen => true,
        KindView::If => true,
        _ => false,
    }
}

/// Left-associativity: two operators of one tier in a row, with nothing of
/// that tier behind them, group to the left, as `(left op1 r1) op2 r2`.
pub proof fn lemma_chain_groups_left(
    toks: Seq<TokenView>,
    tier: Tier,
    left: ExprView,
    i: nat,
    op1: BinOp,
    r1: ExprView,
    n1: nat,
    op2: BinOp,
    r2: ExprView,
    n2: nat,
)
    requires
        operator(tier, kind_at(toks, i)) == Some(op1),
        operand(toks, tier, i + 1) == Ok::<(ExprView, nat), ErrorView>((r1, n1)),
        operator(tier, kind_at(toks, i + 1 + n1)) == Some(op2),
        operand(toks, tier, i + 2 + n1) == Ok::<(ExprView, nat), ErrorView>((r2, n2)),
        operator(tier, kind_at(toks, i + 2 + n1 + n2)) is None,
    ensures
        chain(toks, tier, left, i) == Ok::<(ExprView, nat), ErrorView>(
            (binary(op2, binary(op1, left, r1), r2), 2 + n1 + n2),
        ),
{
    let first = binary(op1, left, r1);
    let second = binary(op2, first, r2);
    assert(chain(toks, tier, second, i + 2 + n1 + n2) == Ok::<(ExprView, nat), ErrorView>(
        (second, 0),
    ));
    assert(chain(toks, tier, first, i + 1 + n1) == Ok::<(ExprView, nat), ErrorView>(
        (second, 1 + n2),
    ));
}

/// An expression needs a token that a primary expression can start with:
/// at any other token, an expression of every tier, and so a block, fails
/// with that token as unexpected, and at the end of the tokens with the
/// end-of-input error.
pub proof fn lemma_needs_primary_start(toks: Seq<TokenView>, i: nat)
    requires
        match kind_at(toks, i) {
            Some(kind) => !starts_primary(kind),
            None => true,
        },
    ensures
        ({
            let error = if i < toks.len() {
                unexpected(toks[i as int], primary_starts())
            } else {
                eof_error()
            };
            &&& primary(toks, i) == Err::<(ExprView, nat), ErrorView>(error)
            &&& forall|tier: Tier| #[trigger]
                level(toks, tier, i) == Err::<(ExprView, nat), ErrorView>(error)
            &&& expr(toks, i) == Err::<(ExprView, nat), ErrorView>(error)
            &&& block(toks, i) == Err::<(BlockView, nat), ErrorView>(error)
            &&& program(toks, i) == Err::<ExprView, ErrorView>(error)
        }),
{
    let error = if i < toks.len() {
        unexpected(toks[i as int], primary_starts())
    } else {
        eof_error()
    };
    let failed = Err::<(ExprView, nat), ErrorView>(error);
    assert(primary(toks, i) == failed);
    assert(operand(toks, Tier::Additive, i) == failed);
    assert(level(toks, Tier::Additive, i) == failed);
    assert(operand(toks, Tier::Multiplicative, i) == failed);
    assert(level(toks, Tier::Multiplicative, i) == failed);
    assert(operand(toks, Tier::Relational, i) == failed);
    assert(level(toks, Tier::Relational, i) == failed);
    assert(operand(toks, Tier::Equality, i) == failed);
    assert(level(toks, Tier::Equality, i) == failed);
    assert(expr(toks, i) == failed);
    assert(block_from(toks, Seq::empty(), i) == Err::<(BlockView, nat), ErrorView>(error));
}

/// `else` is mandatory: a conditional whose condition and first branch
/// parse fails where no `else` stands behind that branch, with the error
/// that expecting `else` there gives.
pub proof fn lemma_conditional_needs_else(
    toks: Seq<TokenView>,
    i: nat,
    cond: ExprView,
    a: nat,
    yes: ExprView,
    b: nat,
)
    requires
        expect(toks, i, KindView::LParen) is Ok,
        expr(toks, i + 1) == Ok::<(ExprView, nat), ErrorView>((cond, a)),
        expect(toks, i + 1 + a, KindView::RParen) is Ok,
        expr(toks, i + 2 + a) == Ok::<(ExprView, nat), ErrorView>((yes, b)),
        kind_at(toks, i + 2 + a + b) != Some(KindView::Else),
    ensures
        expect(toks, i + 2 + a + b, KindView::Else) is Err,
        conditional(toks, i) == Err::<(ExprView, nat), ErrorView>(
            expect(toks, i + 2 + a + b, KindView::Else)->Err_0,
        ),
{
}

/// Whether two token sequences hold tokens of the same kinds, in order.
/// Their positions and spans may differ.
pub open spec fn same_kinds(a: Seq<TokenView>, b: Seq<TokenView>) -> bool {
    &&& a.len() == b.len()
    &&& forall|k: int| 0 <= k < a.len() ==> (#[trigger] a[k]).kind == b[k].kind
}

/// Whether two parses agree: both give the same tree from equally many
/// tokens, or both fail.
pub open spec fn agree<T>(
    one: Result<(T, nat), ErrorView>,
    other: Result<(T, nat), ErrorView>,
) -> bool {
    match (one, other) {
        (Ok(found), Ok(same)) => found == same,
        (Err(_), Err(_)) => true,
        _ => false,
    }
}

/// Parsing goes by the kinds of the tokens alone: token sequences of the
/// same kinds give the same expression, or fail both.
pub proof fn lemma_expr_by_kinds(a: Seq<TokenView>, b: Seq<TokenView>, i: nat)
    requires
        same_kinds(a, b),
    ensures
        agree(expr(a, i), expr(b, i)),
    decreases remaining(a, i), 9nat,
{
    lemma_level_by_kinds(a, b, Tier::Equality, i);
}

/// Token sequences of the same kinds give the same operand, or fail both.
pub proof fn lemma_operand_by_kinds(a: Seq<TokenView>, b: Seq<TokenView>, tier: Tier, i: nat)
    requires
        same_kinds(a, b),
    ensures
        agree(operand(a, tier, i), operand(b, tier, i)),
    decreases remaining(a, i), (2 * depth(tier) - 1) as nat,
{
    match tighter(tier) {
        Some(next) => lemma_level_by_kinds(a, b, next, i),
        None => lemma_primary_by_kinds(a, b, i),
    }
}

/// Token sequences of the same kinds give the same expression of a tier,
/// or fail both.
pub proof fn lemma_level_by_kinds(a: Seq<TokenView>, b: Seq<TokenView>, tier: Tier, i: nat)
    requires
        same_kinds(a, b),
    ensures
        agree(level(a, tier, i), level(b, tier, i)),
    decreases remaining(a, i), 2 * depth(tier),
{
    lemma_operand_by_kinds(a, b, tier, i);
    if let Ok((left, n)) = operand(a, tier, i) {
        lemma_chain_by_kinds(a, b, tier, left, i + n);
    }
}

/// Token sequences of the same kinds give the same chain of operators, or
/// fail both.
pub proof fn lemma_chain_by_kinds(
    a: Seq<TokenView>,
    b: Seq<TokenView>,
    tier: Tier,
    left: ExprView,
    i: nat,
)
    requires
        same_kinds(a, b),
    ensures
        agree(chain(a, tier, left, i), chain(b, tier, left, i)),
    decreases remaining(a, i), 0nat,
{
    assert(kind_at(a, i) == kind_at(b, i));
    if let Some(op) = operator(tier, kind_at(a, i)) {
        lemma_operand_by_kinds(a, b, tier, i + 1);
        if let Ok((right, n)) = operand(a, tier, i + 1) {
            lemma_chain_by_kinds(a, b, tier, binary(op, left, right), i + 1 + n);
        }
    }
}

/// Token sequences of the same kinds give the same primary expression, or
/// fail both.
pub proof fn lemma_primary_by_kinds(a: Seq<TokenView>, b: Seq<TokenView>, i: nat)
    requires
        same_kinds(a, b),
    ensures
        agree(primary(a, i), primary(b, i)),
    decreases remaining(a, i), 0nat,
{
    assert(kind_at(a, i) == kind_at(b, i));
    assert(kind_at(a, i + 1) == kind_at(b, i + 1));
    if let Ok(token) = next_token(a, i) {
        match token.kind {
            KindView::Minus => {
                lemma_primary_by_kinds(a, b, i + 1);
            },
            KindView::Bang => {
                lemma_primary_by_kinds(a, b, i + 1);
            },
            KindView::Ident(_) => {
                if kind_at(a, i + 1) == Some(KindView::LParen) {
                    lemma_arguments_by_kinds(a, b, Seq::empty(), i + 2);
                }
            },
            KindView::Dollar => {
                lemma_user_variable_by_kinds(a, b, i + 1);
            },
            KindView::LBrace => {
                lemma_block_by_kinds(a, b, Seq::empty(), i + 1);
                assert(block(a, i + 1) == block_from(a, Seq::empty(), i + 1));
                assert(block(b, i + 1) == block_from(b, Seq::empty(), i + 1));
                if let Ok((_, n)) = block(a, i + 1) {
                    assert(kind_at(a, i + 1 + n) == kind_at(b, i + 1 + n));
                }
            },
            KindView::LParen => {
                lemma_expr_by_kinds(a, b, i + 1);
                if let Ok((_, n)) = expr(a, i + 1) {
                    assert(kind_at(a, i + 1 + n) == kind_at(b, i + 1 + n));
                }
            },
            KindView::If => {
                lemma_conditional_by_kinds(a, b, i + 1);
            },
            _ => {},
        }
    }
}

/// Token sequences of the same kinds give the same `$` form, or fail both.
pub proof fn lemma_user_variable_by_kinds(a: Seq<TokenView>, b: Seq<TokenView>, i: nat)
    requires
        same_kinds(a, b),
    ensures
        agree(user_variable(a, i), user_variable(b, i)),
    decreases remaining(a, i), 10nat,
{
    assert(kind_at(a, i) == kind_at(b, i));
    assert(kind_at(a, i + 1) == kind_at(b, i + 1));
    if expect_ident(a, i) is Ok {
        lemma_expr_by_kinds(a, b, i + 2);
    }
}

/// Token sequences of the same kinds give the same conditional, or fail
/// both.
pub proof fn lemma_conditional_by_kinds(a: Seq<TokenView>, b: Seq<TokenView>, i: nat)
    requires
        same_kinds(a, b),
    ensures
        agree(conditional(a, i), conditional(b, i)),
    decreases remaining(a, i), 10nat,
{
    assert(kind_at(a, i) == kind_at(b, i));
    if expect(a, i, KindView::LParen) is Ok {
        lemma_expr_by_kinds(a, b, i + 1);
        if let Ok((_, m)) = expr(a, i + 1) {
            assert(kind_at(a, i + 1 + m) == kind_at(b, i + 1 + m));
            if expect(a, i + 1 + m, KindView::RParen) is Ok {
                lemma_expr_by_kinds(a, b, i + 2 + m);
                if let Ok((_, n)) = expr(a, i + 2 + m) {
                    assert(kind_at(a, i + 2 + m + n) == kind_at(b, i + 2 + m + n));
                    if expect(a, i + 2 + m + n, KindView::Else) is Ok {
                        lemma_expr_by_kinds(a, b, i + 3 + m + n);
                    }
                }
            }
        }
    }
}

/// Token sequences of the same kinds give the same arguments, or fail
/// both.
pub proof fn lemma_arguments_by_kinds(
    a: Seq<TokenView>,
    b: Seq<TokenView>,
    done: Seq<ExprView>,
    i: nat,
)
    requires
        same_kinds(a, b),
    ensures
        agree(arguments(a, done, i), arguments(b, done, i)),
    decreases remaining(a, i), 10nat,
{
    assert(kind_at(a, i) == kind_at(b, i));
    if kind_at(a, i) != Some(KindView::RParen) {
        lemma_expr_by_kinds(a, b, i);
        if let Ok((arg, n)) = expr(a, i) {
            assert(kind_at(a, i + n) == kind_at(b, i + n));
            if kind_at(a, i + n) != Some(KindView::RParen) && expect(
                a,
                i + n,
                KindView::Comma,
            ) is Ok {
                lemma_arguments_by_kinds(a, b, done.push(arg), i + n + 1);
            }
        }
    }
}

/// Token sequences of the same kinds give the same block, or fail both.
pub proof fn lemma_block_by_kinds(
    a: Seq<TokenView>,
    b: Seq<TokenView>,
    done: Seq<ExprView>,
    i: nat,
)
    requires
        same_kinds(a, b),
    ensures
        agree(block_from(a, done, i), block_from(b, done, i)),
    decreases remaining(a, i), 10nat,
{
    lemma_expr_by_kinds(a, b, i);
    if let Ok((tree, n)) = expr(a, i) {
        assert(kind_at(a, i + n) == kind_at(b, i + n));
        if kind_at(a, i + n) == Some(KindView::Semicolon) {
            lemma_block_by_kinds(a, b, done.push(tree), i + n + 1);
        }
    }
}

/// A program's tree does not depend on where its tokens stand: token
/// sequences of the same kinds give the same program, or fail both.
pub proof fn lemma_program_by_kinds(a: Seq<TokenView>, b: Seq<TokenView>, i: nat)
    requires
        same_kinds(a, b),
    ensures
        match (program(a, i), program(b, i)) {
            (Ok(tree), Ok(same)) => tree == same,
            (Err(_), Err(_)) => true,
            _ => false,
        },
{
    lemma_block_by_kinds(a, b, Seq::empty(), i);
    assert(block(a, i) == block_from(a, Seq::empty(), i));
    assert(block(b, i) == block_from(b, Seq::empty(), i));
}

} // verus!
