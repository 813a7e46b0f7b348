//! The syntax tree that the parser builds.

use vstd::prelude::*;

verus! {

/// An arithmetic operator.
#[derive(Copy, Clone, Debug, PartialEq, Eq)]
pub enum MathOp {
    Add,
    Sub,
    Mul,
    Div,
}

/// A comparison operator.
#[derive(Copy, Clone, Debug, PartialEq, Eq)]
pub enum CmpOp {
    Equal,
    NotEqual,
    Greater,
    GreaterEqual,
    Less,
    LessEqual,
}

/// A block: expressions whose values are discarded, then the expression
/// whose value is the block's. A block always holds that last expression.
#[derive(Debug, PartialEq)]
pub struct BlockExpr<'a> {
    pub exprs: Vec<Expr<'a>>,
    pub ret: Box<Expr<'a>>,
}

/// An expression. `Number` carries the literal's text as written; names are
/// carried without the `$` of a user variable.
#[derive(Debug, PartialEq)]
pub enum Expr<'a> {
    Number(&'a str),
    Bool(bool),
    Var(&'a str),
    UserVar(&'a str),
    Block(BlockExpr<'a>),
    IfElse { cond: Box<Expr<'a>>, yes: Box<Expr<'a>>, no: Box<Expr<'a>> },
    Call(&'a str, Vec<Expr<'a>>),
    Assign(&'a str, Box<Expr<'a>>),
    MathAssign(MathOp, &'a str, Box<Expr<'a>>),
    Negate(Box<Expr<'a>>),
    Not(Box<Expr<'a>>),
    MathBin(MathOp, Box<Expr<'a>>, Box<Expr<'a>>),
    Compare(CmpOp, Box<Expr<'a>>, Box<Expr<'a>>),
}

/// The mathematical value of a [`BlockExpr`].
pub struct BlockView {
    pub exprs: Seq<ExprView>,
    pub ret: Box<ExprView>,
}

/// The mathematical value of an [`Expr`]: the same tree, with texts as
/// sequences of characters and lists as sequences.
pub enum ExprView {
    Number(Seq<char>),
    Bool(bool),
    Var(Seq<char>),
    UserVar(Seq<char>),
    Block(BlockView),
    IfElse { cond: Box<ExprView>, yes: Box<ExprView>, no: Box<ExprView> },
    Call(Seq<char>, Seq<ExprView>),
    Assign(Seq<char>, Box<ExprView>),
    MathAssign(MathOp, Seq<char>, Box<ExprView>),
    Negate(Box<ExprView>),
    Not(Box<ExprView>),
    MathBin(MathOp, Box<ExprView>, Box<ExprView>),
    Compare(CmpOp, Box<ExprView>, Box<ExprView>),
}

impl<'a> BlockExpr<'a> {
    /// The value of this block.
    pub open spec fn model(&self) -> BlockView
        decreases self,
    {
        BlockView {
            exprs: Seq::new(
                self.exprs@.len(),
                |i: int|
                    if 0 <= i < self.exprs@.len() {
                        self.exprs@[i].model()
                    } else {
                        ExprView::Bool(false)
                    },
            ),
            ret: Box::new(self.ret.model()),
        }
    }
}

impl<'a> Expr<'a> {
    /// The value of this expression.
    pub open spec fn model(&self) -> ExprView
        decreases self,
    {
        match self {
            Expr::Number(text) => ExprView::Number(text@),
            Expr::Bool(b) => ExprView::Bool(*b),
            Expr::Var(name) => ExprView::Var(name@),
            Expr::UserVar(name) => ExprView::UserVar(name@),
            Expr::Block(block) => ExprView::Block(block.model()),
            Expr::IfElse { cond, yes, no } => ExprView::IfElse {
                cond: Box::new(cond.model()),
                yes: Box::new(yes.model()),
                no: Box::new(no.model()),
            },
            Expr::Call(name, args) => ExprView::Call(
                name@,
                Seq::new(
                    args@.len(),
                    |i: int|
                        if 0 <= i < args@.len() {
                            args@[i].model()
                        } else {
                            ExprView::Bool(false)
                        },
                ),
            ),
            Expr::Assign(name, value) => ExprView::Assign(name@, Box::new(value.model())),
            Expr::MathAssign(op, name, value) => ExprView::MathAssign(
                *op,
                name@,
                Box::new(value.model()),
            ),
            Expr::Negate(inner) => ExprView::Negate(Box::new(inner.model())),
            Expr::Not(inner) => ExprView::Not(Box::new(inner.model())),
            Expr::MathBin(op, left, right) => ExprView::MathBin(
                *op,
                Box::new(left.model()),
                Box::new(right.model()),
            ),
            Expr::Compare(op, left, right) => ExprView::Compare(
                *op,
                Box::new(left.model()),
                Box::new(right.model()),
            ),
        }
    }
}

impl<'a> View for BlockExpr<'a> {
    type V = BlockView;

    open spec fn view(&self) -> BlockView {
        self.model()
    }
}

impl<'a> View for Expr<'a> {
    type V = ExprView;

    open spec fn view(&self) -> ExprView {
        self.model()
    }
}

/// The values of a sequence of expressions, in order.
pub open spec fn exprs_view(exprs: Seq<Expr>) -> Seq<ExprView> {
    exprs.map_values(|e: Expr| e@)
}

/// The value of a block is made of the values of its parts.
pub proof fn lemma_block_view(block: BlockExpr)
    ensures
        block@.exprs == exprs_view(block.exprs@),
        *block@.ret == block.ret@,
{
    assert(block@.exprs =~= exprs_view(block.exprs@));
}

/// The value of a call holds the values of its arguments.
pub proof fn lemma_call_view(name: &str, args: Vec<Expr>)
    ensures
        Expr::Call(name, args)@ == ExprView::Call(name@, exprs_view(args@)),
{
    let call = Expr::Call(name, args);
    assert(call@->Call_1 =~= exprs_view(args@));
}

} // verus!
