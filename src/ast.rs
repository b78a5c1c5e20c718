//! The syntax tree of the formula language. Every node and token carries the
//! byte offsets of the text it was read from.

use crate::rational::Natural;
use vstd::prelude::*;

verus! {

broadcast use vstd::std_specs::vec::axiom_vec_decreases_to_view, vstd::seq::axiom_seq_index_decreases, vstd::seq::axiom_seq_subrange_decreases;

/// Byte offsets `(start, end)` into the source text.
pub type Offsets = (usize, usize);

/// A value together with the offsets of the text it came from.
#[derive(Debug, PartialEq, Eq)]
pub struct Span<T>(pub T, pub (usize, usize));

impl<T: Clone> Clone for Span<T> {
    fn clone(&self) -> (r: Span<T>)
        ensures
            r.1 == self.1,
    {
        Span(self.0.clone(), self.1)
    }
}

impl<T> Span<T> {
    /// Applies `f` to the value and keeps the offsets.
    pub fn map<U, F: FnOnce(T) -> U>(self, f: F) -> (r: Span<U>)
        requires
            f.requires((self.0,)),
        ensures
            f.ensures((self.0,), r.0),
            r.1 == self.1,
    {
        Span(f(self.0), self.1)
    }

    /// A span that borrows the value and keeps the offsets.
    pub fn as_ref(&self) -> (r: Span<&T>)
        ensures
            *r.0 == self.0,
            r.1 == self.1,
    {
        Span(&self.0, self.1)
    }
}

impl<T> core::ops::Deref for Span<T> {
    type Target = T;

    fn deref(&self) -> (r: &T)
        ensures
            *r == self.0,
    {
        &self.0
    }
}

#[derive(Clone, Copy, Debug, PartialEq, Eq, Structural)]
pub enum BinOp {
    Add,
    Sub,
    Mul,
    Div,
    Mod,
}

#[derive(Clone, Copy, Debug, PartialEq, Eq, Structural)]
pub enum Cmp {
    Eq,
    Lt,
    Le,
    Gt,
    Ge,
}

/// What a single line of input parses as: a bare expression, or a comparison
/// of two expressions.
#[derive(Debug, PartialEq, Eq)]
pub enum Command {
    Pred(Pred),
    Expr(Expr),
}

#[derive(Debug, PartialEq, Eq)]
pub enum Expr {
    /// The called name, and the argument list with the offsets from `(` to `)`.
    Func(Span<String>, Span<Vec<Span<Expr>>>),
    Ident(Span<String>),
    If(Box<Span<Pred>>, Box<Span<Expr>>, Box<Span<Expr>>),
    BinOp(Box<Span<Expr>>, Span<BinOp>, Box<Span<Expr>>),
    Neg(Box<Span<Expr>>),
    Num(Span<Natural>),
}

#[derive(Debug, PartialEq, Eq)]
pub enum Pred {
    Cmp(Span<Expr>, Span<Cmp>, Span<Expr>),
}

/// The mathematical content of an [`Expr`]: names as characters, literals as
/// natural numbers, offsets kept.
pub enum ExprV {
    Func(Seq<char>, Offsets, Seq<(ExprV, Offsets)>, Offsets),
    Ident(Seq<char>, Offsets),
    If(Box<(PredV, Offsets)>, Box<(ExprV, Offsets)>, Box<(ExprV, Offsets)>),
    BinOp(Box<(ExprV, Offsets)>, BinOp, Offsets, Box<(ExprV, Offsets)>),
    Neg(Box<(ExprV, Offsets)>),
    Num(nat, Offsets),
}

/// The mathematical content of a [`Pred`].
pub enum PredV {
    Cmp((ExprV, Offsets), Cmp, Offsets, (ExprV, Offsets)),
}

/// The mathematical content of a [`Command`].
pub enum CommandV {
    Pred(PredV),
    Expr(ExprV),
}

/// The content of an expression.
pub open spec fn expr_view(e: Expr) -> ExprV
    decreases e,
{
    match e {
        Expr::Func(name, args) => ExprV::Func(name.0@, name.1, args_view(args.0@), args.1),
        Expr::Ident(name) => ExprV::Ident(name.0@, name.1),
        Expr::If(c, t, e) => ExprV::If(
            Box::new((pred_view(c.0), c.1)),
            Box::new((expr_view(t.0), t.1)),
            Box::new((expr_view(e.0), e.1)),
        ),
        Expr::BinOp(l, op, r) => ExprV::BinOp(
            Box::new((expr_view(l.0), l.1)),
            op.0,
            op.1,
            Box::new((expr_view(r.0), r.1)),
        ),
        Expr::Neg(e) => ExprV::Neg(Box::new((expr_view(e.0), e.1))),
        Expr::Num(n) => ExprV::Num(n.0@, n.1),
    }
}

/// The contents of a list of arguments, in order.
pub open spec fn args_view(args: Seq<Span<Expr>>) -> Seq<(ExprV, Offsets)>
    decreases args,
{
    if args.len() == 0 {
        seq![]
    } else {
        args_view(args.subrange(0, args.len() - 1)).push(
            (expr_view(args[args.len() - 1].0), args[args.len() - 1].1),
        )
    }
}

/// The content of a predicate.
pub open spec fn pred_view(p: Pred) -> PredV
    decreases p,
{
    match p {
        Pred::Cmp(l, op, r) => PredV::Cmp((expr_view(l.0), l.1), op.0, op.1, (expr_view(r.0), r.1)),
    }
}

pub(crate) proof fn lemma_args_view(args: Seq<Span<Expr>>)
    ensures
        args_view(args).len() == args.len(),
        forall|k: int|
            0 <= k < args.len() ==> #[trigger] args_view(args)[k] == (expr_view(args[k].0), args[k].1),
    decreases args.len(),
{
    if args.len() > 0 {
        lemma_args_view(args.subrange(0, args.len() - 1));
    }
}

pub(crate) proof fn lemma_args_view_push(args: Seq<Span<Expr>>, x: Span<Expr>)
    ensures
        args_view(args.push(x)) == args_view(args).push((expr_view(x.0), x.1)),
{
    assert(args.push(x).subrange(0, args.len() as int) =~= args);
}

impl View for Expr {
    type V = ExprV;

    open spec fn view(&self) -> ExprV {
        expr_view(*self)
    }
}

impl View for Pred {
    type V = PredV;

    open spec fn view(&self) -> PredV {
        pred_view(*self)
    }
}

impl View for Command {
    type V = CommandV;

    open spec fn view(&self) -> CommandV {
        match self {
            Command::Pred(p) => CommandV::Pred(p@),
            Command::Expr(e) => CommandV::Expr(e@),
        }
    }
}

} // verus!
