use vstd::prelude::*;
use crate::span::Span;
use super::tokens;

verus! {

/// One statement per non-blank line.
#[derive(Debug, PartialEq, Eq)]
pub struct Program<N = String> {
    pub stmts: Vec<Stmt<N>>,
}

#[derive(Debug, PartialEq, Eq)]
pub enum Stmt<N = String> {
    Macro(Macro<N>),
    Expr(Expr<N>),
}

/// `name = value`
#[derive(Debug, PartialEq, Eq)]
pub struct Macro<N = String> {
    pub name: tokens::Var<N>,
    pub eq_token: tokens::Equal,
    pub value: Expr<N>,
}

#[derive(Debug, PartialEq, Eq)]
pub enum Expr<N = String> {
    Lambda(Lambda<N>),
    Close(Close<N>),
    Appl(Appl<N>),
}

/// `\var. expr`
#[derive(Debug, PartialEq, Eq)]
pub struct Lambda<N = String> {
    pub lambda_token: tokens::Lambda,
    pub var: tokens::Var<N>,
    pub dot_token: tokens::Dot,
    pub expr: Box<Expr<N>>,
}

/// `lhs rhs`; a longer chain nests to the left through a synthetic group.
#[derive(Debug, PartialEq, Eq)]
pub struct Appl<N = String> {
    pub lhs: Close<N>,
    pub rhs: Close<N>,
}

/// A term that needs no parentheses to be an argument.
#[derive(Debug, PartialEq, Eq)]
pub enum Close<N = String> {
    Grouping(Box<Expr<N>>, tokens::Group),
    Var(tokens::Var<N>),
    Literal(tokens::Literal<N>),
}

pub open spec fn var_view(v: tokens::Var) -> tokens::Var<Seq<char>> {
    tokens::Var { span: v.span, name: v.name@ }
}

pub open spec fn expr_view(e: Expr) -> Expr<Seq<char>>
    decreases e,
{
    match e {
        Expr::Lambda(l) => Expr::Lambda(lambda_view(l)),
        Expr::Close(c) => Expr::Close(close_view(c)),
        Expr::Appl(a) => Expr::Appl(appl_view(a)),
    }
}

pub open spec fn lambda_view(l: Lambda) -> Lambda<Seq<char>>
    decreases l,
{
    Lambda {
        lambda_token: l.lambda_token,
        var: var_view(l.var),
        dot_token: l.dot_token,
        expr: Box::new(expr_view(*l.expr)),
    }
}

pub open spec fn appl_view(a: Appl) -> Appl<Seq<char>>
    decreases a,
{
    Appl { lhs: close_view(a.lhs), rhs: close_view(a.rhs) }
}

pub open spec fn close_view(c: Close) -> Close<Seq<char>>
    decreases c,
{
    match c {
        Close::Grouping(e, g) => Close::Grouping(Box::new(expr_view(*e)), g),
        Close::Var(v) => Close::Var(var_view(v)),
        Close::Literal(l) => Close::Literal(tokens::Literal { span: l.span, content: l.content@ }),
    }
}

pub open spec fn macro_view(m: Macro) -> Macro<Seq<char>> {
    Macro { name: var_view(m.name), eq_token: m.eq_token, value: expr_view(m.value) }
}

pub open spec fn stmt_view(s: Stmt) -> Stmt<Seq<char>> {
    match s {
        Stmt::Macro(m) => Stmt::Macro(macro_view(m)),
        Stmt::Expr(e) => Stmt::Expr(expr_view(e)),
    }
}

impl View for Expr {
    type V = Expr<Seq<char>>;

    open spec fn view(&self) -> Expr<Seq<char>> {
        expr_view(*self)
    }
}

impl View for Lambda {
    type V = Lambda<Seq<char>>;

    open spec fn view(&self) -> Lambda<Seq<char>> {
        lambda_view(*self)
    }
}

impl View for Appl {
    type V = Appl<Seq<char>>;

    open spec fn view(&self) -> Appl<Seq<char>> {
        appl_view(*self)
    }
}

impl View for Close {
    type V = Close<Seq<char>>;

    open spec fn view(&self) -> Close<Seq<char>> {
        close_view(*self)
    }
}

impl View for Macro {
    type V = Macro<Seq<char>>;

    open spec fn view(&self) -> Macro<Seq<char>> {
        macro_view(*self)
    }
}

impl View for Stmt {
    type V = Stmt<Seq<char>>;

    open spec fn view(&self) -> Stmt<Seq<char>> {
        stmt_view(*self)
    }
}

impl View for Program {
    type V = Seq<Stmt<Seq<char>>>;

    open spec fn view(&self) -> Seq<Stmt<Seq<char>>> {
        self.stmts@.map_values(|s: Stmt| stmt_view(s))
    }
}

impl Clone for Expr {
    fn clone(&self) -> (r: Expr)
        ensures
            r == *self,
        decreases self,
    {
        match self {
            Expr::Lambda(l) => Expr::Lambda(l.clone()),
            Expr::Close(c) => Expr::Close(c.clone()),
            Expr::Appl(a) => Expr::Appl(a.clone()),
        }
    }
}

impl Clone for Lambda {
    fn clone(&self) -> (r: Lambda)
        ensures
            r == *self,
        decreases self,
    {
        Lambda {
            lambda_token: self.lambda_token,
            var: self.var.clone(),
            dot_token: self.dot_token,
            expr: Box::new((*self.expr).clone()),
        }
    }
}

impl Clone for Appl {
    fn clone(&self) -> (r: Appl)
        ensures
            r == *self,
        decreases self,
    {
        Appl { lhs: self.lhs.clone(), rhs: self.rhs.clone() }
    }
}

impl Clone for Close {
    fn clone(&self) -> (r: Close)
        ensures
            r == *self,
        decreases self,
    {
        match self {
            Close::Grouping(e, g) => Close::Grouping(Box::new((**e).clone()), *g),
            Close::Var(v) => Close::Var(v.clone()),
            Close::Literal(l) => Close::Literal(l.clone()),
        }
    }
}

impl Clone for Macro {
    fn clone(&self) -> (r: Macro)
        ensures
            r == *self,
    {
        Macro { name: self.name.clone(), eq_token: self.eq_token, value: self.value.clone() }
    }
}

impl Clone for Stmt {
    fn clone(&self) -> (r: Stmt)
        ensures
            r == *self,
    {
        match self {
            Stmt::Macro(m) => Stmt::Macro(m.clone()),
            Stmt::Expr(e) => Stmt::Expr(e.clone()),
        }
    }
}

} // verus!
