use vstd::prelude::*;
use vstd::string::StringExecFns;
use crate::utils::push_char;
use std::rc::Rc;
use crate::error::RuntimeError;
use crate::compiler::{MacroTable, LiteralSet};

verus! {

/// How many times one level of the evaluation may reduce, and how deeply the
/// evaluation of function positions may nest.
pub const MAX_EVAL_DEPTH: usize = 64;

/// A compiled expression. Variables are numbered by the binders that enclose
/// them; literals and macros are shared.
#[derive(Debug, PartialEq, Eq)]
pub enum Expr {
    Lambda { param: usize, expr: Box<Expr> },
    Appl { f: Box<Expr>, arg: Box<Expr> },
    MacroRef(Rc<Macro>),
    Var(usize),
    Literal(Rc<String>),
    /// A placeholder that stands where an expression has been taken out.
    Nothing,
}

/// A named, compiled definition.
#[derive(Debug, PartialEq, Eq)]
pub struct Macro {
    pub expr: Expr,
    pub name: String,
}

impl Macro {
    pub fn new(expr: Expr, name: String) -> (r: Macro)
        ensures
            r.expr == expr,
            r.name == name,
    {
        Macro { expr, name }
    }
}

impl Clone for Expr {
    fn clone(&self) -> (r: Expr)
        ensures
            r == *self,
        decreases self,
    {
        match self {
            Expr::Lambda { param, expr } => Expr::Lambda { param: *param, expr: Box::new((**expr).clone()) },
            Expr::Appl { f, arg } => Expr::Appl { f: Box::new((**f).clone()), arg: Box::new((**arg).clone()) },
            Expr::MacroRef(m) => Expr::MacroRef(m.clone()),
            Expr::Var(v) => Expr::Var(*v),
            Expr::Literal(s) => Expr::Literal(s.clone()),
            Expr::Nothing => Expr::Nothing,
        }
    }
}

/// Whether variable `x` occurs free in `e`: a lambda whose parameter is `x`
/// binds it in its body (macro bodies are closed and not searched).
pub open spec fn occurs(e: Expr, x: usize) -> bool
    decreases e,
{
    match e {
        Expr::Lambda { param, expr } => param != x && occurs(*expr, x),
        Expr::Appl { f, arg } => occurs(*f, x) || occurs(*arg, x),
        Expr::Var(v) => v == x,
        _ => false,
    }
}

/// `λx. f x` where `x` does not occur free in `f`.
pub open spec fn eta_reducible(e: Expr) -> bool {
    match e {
        Expr::Lambda { param, expr } => match *expr {
            Expr::Appl { f, arg } => *arg == Expr::Var(param) && !occurs(*f, param),
            _ => false,
        },
        _ => false,
    }
}

/// `e` is a lambda, possibly behind macros.
pub open spec fn lambda_head(e: Expr) -> bool
    decreases e,
{
    match e {
        Expr::Lambda { .. } => true,
        Expr::MacroRef(m) => lambda_head(m.expr),
        _ => false,
    }
}

/// Nothing on the left spine, followed through macros, can be reduced: no
/// application of a lambda, and no eta-reducible lambda at the end.
pub open spec fn whnf(e: Expr) -> bool
    decreases e,
{
    match e {
        Expr::Appl { f, .. } => !lambda_head(*f) && whnf(*f),
        Expr::MacroRef(m) => whnf(m.expr),
        Expr::Lambda { .. } => !eta_reducible(e),
        _ => true,
    }
}

/// Fully reduced: no sub-expression, macro bodies included, applies a
/// lambda (possibly behind macros) or is eta-reducible.
pub open spec fn normal(e: Expr) -> bool
    decreases e,
{
    match e {
        Expr::Appl { f, arg } => !lambda_head(*f) && normal(*f) && normal(*arg),
        Expr::MacroRef(m) => normal(m.expr),
        Expr::Lambda { expr, .. } => !eta_reducible(e) && normal(*expr),
        _ => true,
    }
}

pub open spec fn max(a: int, b: int) -> int {
    if a >= b {
        a
    } else {
        b
    }
}

/// The largest variable or parameter number in `e`, macro bodies included.
pub open spec fn biggest(e: Expr) -> Option<int>
    decreases e,
{
    match e {
        Expr::Nothing | Expr::Literal(_) => None,
        Expr::MacroRef(m) => biggest(m.expr),
        Expr::Appl { f, arg } => match (biggest(*f), biggest(*arg)) {
            (Some(v), Some(v2)) => Some(max(v, v2)),
            (Some(v), None) => Some(v),
            (None, w) => w,
        },
        Expr::Lambda { param, expr } => match biggest(*expr) {
            Some(v) => Some(max(param as int, v)),
            None => Some(param as int),
        },
        Expr::Var(v) => Some(v as int),
    }
}

/// How deeply lambdas nest in `e` (macro bodies not counted).
pub open spec fn nesting(e: Expr) -> nat
    decreases e,
{
    match e {
        Expr::Lambda { expr, .. } => 1 + nesting(*expr),
        Expr::Appl { f, arg } => {
            let a = nesting(*f);
            let b = nesting(*arg);
            if a >= b {
                a
            } else {
                b
            }
        },
        _ => 0,
    }
}

/// The innermost position of `v` in the binder list `t`.
pub open spec fn binder_of(t: Seq<usize>, v: usize) -> Option<int>
    decreases t.len(),
{
    if t.len() == 0 {
        None
    } else if t.last() == v {
        Some(t.len() - 1)
    } else {
        binder_of(t.drop_last(), v)
    }
}

/// Renumbers `e` under the binders `t`: the binder at position `i` of the
/// path from the root becomes `start + i`, and each variable follows its
/// binder. Variables bound outside `t` stay as they are.
pub open spec fn alpha(e: Expr, t: Seq<usize>, start: int) -> Expr
    decreases e,
{
    match e {
        Expr::Appl { f, arg } => Expr::Appl {
            f: Box::new(alpha(*f, t, start)),
            arg: Box::new(alpha(*arg, t, start)),
        },
        Expr::Lambda { param, expr } => Expr::Lambda {
            param: (t.len() + start) as usize,
            expr: Box::new(alpha(*expr, t.push(param), start)),
        },
        Expr::Var(v) => match binder_of(t, v) {
            Some(i) => Expr::Var((i + start) as usize),
            None => e,
        },
        _ => e,
    }
}

/// `a` and `b` differ only in how their binders are numbered: under the
/// binder lists `t1` and `t2`, each variable refers to the binder at the
/// same position (or both are the same unbound variable).
pub open spec fn alpha_equiv(a: Expr, b: Expr, t1: Seq<usize>, t2: Seq<usize>) -> bool
    decreases a,
{
    match (a, b) {
        (Expr::Lambda { param: pa, expr: e1 }, Expr::Lambda { param: pb, expr: e2 }) =>
            alpha_equiv(*e1, *e2, t1.push(pa), t2.push(pb)),
        (Expr::Appl { f: f1, arg: a1 }, Expr::Appl { f: f2, arg: a2 }) =>
            alpha_equiv(*f1, *f2, t1, t2) && alpha_equiv(*a1, *a2, t1, t2),
        (Expr::Var(v1), Expr::Var(v2)) => match (binder_of(t1, v1), binder_of(t2, v2)) {
            (Some(i), Some(j)) => i == j,
            (None, None) => v1 == v2,
            _ => false,
        },
        (Expr::Literal(x), Expr::Literal(y)) => x == y,
        (Expr::MacroRef(x), Expr::MacroRef(y)) => x == y,
        (Expr::Nothing, Expr::Nothing) => true,
        _ => false,
    }
}

/// Expressions that differ only in the numbering of their binders are equal
/// once renumbered.
pub proof fn lemma_alpha_equiv_convert(a: Expr, b: Expr, t1: Seq<usize>, t2: Seq<usize>, start: int)
    requires
        alpha_equiv(a, b, t1, t2),
        t1.len() == t2.len(),
    ensures
        alpha(a, t1, start) == alpha(b, t2, start),
    decreases a,
{
    match (a, b) {
        (Expr::Lambda { param: pa, expr: e1 }, Expr::Lambda { param: pb, expr: e2 }) => {
            lemma_alpha_equiv_convert(*e1, *e2, t1.push(pa), t2.push(pb), start);
        },
        (Expr::Appl { f: f1, arg: a1 }, Expr::Appl { f: f2, arg: a2 }) => {
            lemma_alpha_equiv_convert(*f1, *f2, t1, t2, start);
            lemma_alpha_equiv_convert(*a1, *a2, t1, t2, start);
        },
        _ => {},
    }
}

/// Replaces variable `x` by `new` throughout `e` (macro bodies are closed).
pub open spec fn subst(e: Expr, x: usize, new: Expr) -> Expr
    decreases e,
{
    match e {
        Expr::Lambda { param, expr } => Expr::Lambda { param, expr: Box::new(subst(*expr, x, new)) },
        Expr::Appl { f, arg } => Expr::Appl {
            f: Box::new(subst(*f, x, new)),
            arg: Box::new(subst(*arg, x, new)),
        },
        Expr::Var(v) => if v == x {
            new
        } else {
            e
        },
        _ => e,
    }
}

/// Beta-reduction of `(λparam. body) arg` where `big` is the largest
/// variable of the function: `arg` is renumbered above `big` so that none of
/// its binders is captured, substituted, and the result renumbered from 0.
pub open spec fn beta(param: usize, body: Expr, arg: Expr, big: int) -> Expr {
    alpha(subst(body, param, alpha(arg, seq![], big + 1)), seq![], 0)
}

/// The evaluation at nesting `depth`: the expression it leaves and its outcome.
pub open spec fn eval_depth(e: Expr, depth: int, eval_macros: bool) -> (Expr, Result<(), RuntimeError>)
    decreases MAX_EVAL_DEPTH + 1 - depth, 1int, 0int,
{
    if depth > MAX_EVAL_DEPTH {
        (e, Err(RuntimeError::RecursionDepthExceeded))
    } else {
        eval_steps(e, depth, eval_macros, MAX_EVAL_DEPTH as nat)
    }
}

/// At most `n` further reduction steps at one level of the evaluation.
///
/// The depth check at the top is never taken from `eval_depth`; it keeps the
/// recursion visibly well-founded. A beta step whose renumbering would not fit
/// in a `usize` stops with `RuntimeError::Unknown`.
pub open spec fn eval_steps(e: Expr, depth: int, eval_macros: bool, n: nat) -> (Expr, Result<(), RuntimeError>)
    decreases MAX_EVAL_DEPTH + 1 - depth, 0int, n,
{
    if depth > MAX_EVAL_DEPTH {
        (e, Err(RuntimeError::RecursionDepthExceeded))
    } else if n == 0 {
        (e, Err(RuntimeError::IterationExceeded))
    } else {
        match e {
            Expr::Literal(_) | Expr::Var(_) | Expr::Lambda { .. } => (e, Ok(())),
            Expr::Nothing => (e, Err(RuntimeError::NothingEval)),
            Expr::MacroRef(m) => if !normal(m.expr) || eval_macros {
                eval_steps(m.expr, depth, eval_macros, (n - 1) as nat)
            } else {
                (e, Ok(()))
            },
            Expr::Appl { f, arg } => {
                let (f2, r) = eval_depth(*f, depth + 1, true);
                match r {
                    Err(x) => (Expr::Appl { f: Box::new(f2), arg }, Err(x)),
                    Ok(()) => match f2 {
                        Expr::Lambda { param, expr } => {
                            let big = match biggest(f2) {
                                Some(b) => b,
                                None => 0,
                            };
                            if big + 1 + nesting(*arg) > usize::MAX
                                || nesting(subst(*expr, param, alpha(*arg, seq![], big + 1))) > usize::MAX {
                                (Expr::Appl { f: Box::new(f2), arg }, Err(RuntimeError::Unknown))
                            } else {
                                eval_steps(beta(param, *expr, *arg, big), depth, eval_macros, (n - 1) as nat)
                            }
                        },
                        _ => (Expr::Appl { f: Box::new(f2), arg }, Ok(())),
                    },
                }
            },
        }
    }
}

/// The innermost position of `v` in the binder list `table`.
fn find_binder(table: &Vec<usize>, v: usize) -> (r: Option<usize>)
    ensures
        match binder_of(table@, v) {
            Some(i) => r == Some(i as usize) && 0 <= i < table@.len(),
            None => r is None,
        },
{
    let mut i = table.len();
    assert(table@.take(i as int) =~= table@);
    while i > 0
        invariant
            i <= table@.len(),
            binder_of(table@.take(i as int), v) == binder_of(table@, v),
        decreases i,
    {
        if table[i - 1] == v {
            assert(binder_of(table@.take(i as int), v) == Some(i - 1));
            return Some(i - 1);
        }
        assert(table@.take(i as int).drop_last() =~= table@.take(i - 1));
        i = i - 1;
    }
    None
}

pub open spec fn macro_body(m: Rc<Macro>) -> Expr {
    m.expr
}

/// The forms a successful evaluation ends in: nothing at the head is left
/// to reduce. An application's function is not a lambda, and a macro is
/// left only at the top level with a body in normal form.
pub open spec fn head_irreducible(e: Expr, eval_macros: bool) -> bool {
    match e {
        Expr::Appl { f, .. } => !(*f is Lambda),
        Expr::MacroRef(m) => !eval_macros && normal(m.expr),
        Expr::Nothing => false,
        _ => true,
    }
}

/// A successful evaluation leaves an expression whose head is irreducible.
pub proof fn lemma_eval_ok_head_irreducible(e: Expr, depth: int, eval_macros: bool)
    ensures
        eval_depth(e, depth, eval_macros).1 is Ok ==> head_irreducible(eval_depth(e, depth, eval_macros).0, eval_macros),
{
    if depth <= MAX_EVAL_DEPTH {
        lemma_eval_steps_head_irreducible(e, depth, eval_macros, MAX_EVAL_DEPTH as nat);
    }
}

proof fn lemma_eval_steps_head_irreducible(e: Expr, depth: int, eval_macros: bool, n: nat)
    ensures
        eval_steps(e, depth, eval_macros, n).1 is Ok ==> head_irreducible(eval_steps(e, depth, eval_macros, n).0, eval_macros),
    decreases n,
{
    if depth <= MAX_EVAL_DEPTH && n > 0 {
        match e {
            Expr::MacroRef(m) => {
                lemma_eval_steps_head_irreducible(macro_body(m), depth, eval_macros, (n - 1) as nat);
            },
            Expr::Appl { f, arg } => {
                let (f2, r) = eval_depth(*f, depth + 1, true);
                if let (Expr::Lambda { param, expr }, Ok(())) = (f2, r) {
                    let big = match biggest(f2) {
                        Some(b) => b,
                        None => 0,
                    };
                    lemma_eval_steps_head_irreducible(beta(param, *expr, *arg, big), depth, eval_macros, (n - 1) as nat);
                }
            },
            _ => {},
        }
    }
}

/// `λa. a a`, with its binder numbered from `p`.
pub open spec fn self_apply(p: usize) -> Expr {
    Expr::Lambda {
        param: p,
        expr: Box::new(Expr::Appl { f: Box::new(Expr::Var(p)), arg: Box::new(Expr::Var(p)) }),
    }
}

/// `(λa. a a) (λa. a a)`, as the compiler numbers it.
pub open spec fn omega() -> Expr {
    Expr::Appl { f: Box::new(self_apply(0)), arg: Box::new(self_apply(0)) }
}

proof fn lemma_omega_beta()
    ensures
        biggest(self_apply(0)) == Some(0int),
        nesting(self_apply(0)) == 1,
        alpha(self_apply(0), seq![], 1) == self_apply(1),
        subst(Expr::Appl { f: Box::new(Expr::Var(0)), arg: Box::new(Expr::Var(0)) }, 0, self_apply(1))
            == (Expr::Appl { f: Box::new(self_apply(1)), arg: Box::new(self_apply(1)) }),
        nesting(Expr::Appl { f: Box::new(self_apply(1)), arg: Box::new(self_apply(1)) }) == 1,
        beta(0, Expr::Appl { f: Box::new(Expr::Var(0)), arg: Box::new(Expr::Var(0)) }, self_apply(0), 0) == omega(),
{
    let t0: Seq<usize> = seq![];
    let t1: Seq<usize> = seq![0usize];
    let t2: Seq<usize> = seq![1usize];
    assert(t0.push(0usize) == t1);
    assert(t0.push(1usize) == t2);
    assert(binder_of(t1, 0) == Some(0int)) by {
        assert(t1.last() == 0usize);
    }
    assert(binder_of(t2, 1) == Some(0int)) by {
        assert(t2.last() == 1usize);
    }
    assert(alpha(Expr::Var(0), t1, 1) == Expr::Var(1));
    assert(alpha(Expr::Var(1), t2, 0) == Expr::Var(0));
    let v0v0 = Expr::Appl { f: Box::new(Expr::Var(0)), arg: Box::new(Expr::Var(0)) };
    let v1v1 = Expr::Appl { f: Box::new(Expr::Var(1)), arg: Box::new(Expr::Var(1)) };
    assert(alpha(v0v0, t1, 1) == v1v1);
    assert(alpha(v1v1, t2, 0) == v0v0);
    assert(biggest(Expr::Var(0)) == Some(0int));
    assert(biggest(v0v0) == Some(0int));
    assert(nesting(Expr::Var(0)) == 0);
    assert(nesting(v0v0) == 0);
    assert(subst(Expr::Var(0), 0, self_apply(1)) == self_apply(1));
    let both = Expr::Appl { f: Box::new(self_apply(1)), arg: Box::new(self_apply(1)) };
    assert(nesting(self_apply(1)) == 1) by {
        assert(nesting(Expr::Var(1)) == 0);
        assert(nesting(v1v1) == 0);
    }
    assert(alpha(self_apply(0), t0, 1) == self_apply(1));
    assert(alpha(self_apply(1), t0, 0) == self_apply(0));
}

proof fn lemma_omega_steps(depth: int, eval_macros: bool, n: nat)
    requires
        0 <= depth < MAX_EVAL_DEPTH,
    ensures
        eval_steps(omega(), depth, eval_macros, n) == (omega(), Err::<(), RuntimeError>(RuntimeError::IterationExceeded)),
    decreases n,
{
    if n > 0 {
        lemma_omega_beta();
        assert(eval_steps(self_apply(0), depth + 1, true, MAX_EVAL_DEPTH as nat) == (self_apply(0), Ok::<(), RuntimeError>(())));
        assert(eval_depth(self_apply(0), depth + 1, true) == (self_apply(0), Ok::<(), RuntimeError>(())));
        let v0v0 = Expr::Appl { f: Box::new(Expr::Var(0)), arg: Box::new(Expr::Var(0)) };
        assert(eval_steps(omega(), depth, eval_macros, n) == eval_steps(
            beta(0, v0v0, self_apply(0), 0), depth, eval_macros, (n - 1) as nat));
        lemma_omega_steps(depth, eval_macros, (n - 1) as nat);
    }
}

/// Evaluating the self-application combinator stops, at the step bound,
/// with `IterationExceeded` and the expression unchanged.
pub proof fn lemma_omega_exhausts_steps()
    ensures
        eval_depth(omega(), 0, false) == (omega(), Err::<(), RuntimeError>(RuntimeError::IterationExceeded)),
{
    lemma_omega_steps(0, false, MAX_EVAL_DEPTH as nat);
}

impl Expr {
    /// Takes the expression out, leaving the placeholder.
    pub fn take(&mut self) -> (r: Expr)
        ensures
            r == *old(self),
            *final(self) == Expr::Nothing,
    {
        let mut out = Expr::Nothing;
        std::mem::swap(self, &mut out);
        out
    }

    /// Puts `expr` in place and returns what was there.
    pub fn replace(&mut self, expr: Expr) -> (r: Expr)
        ensures
            r == *old(self),
            *final(self) == expr,
    {
        let mut out = expr;
        std::mem::swap(self, &mut out);
        out
    }

    /// Whether variable `x` occurs free in the expression.
    pub fn occurs(&self, x: usize) -> (r: bool)
        ensures
            r == occurs(*self, x),
        decreases self,
    {
        match self {
            Expr::Lambda { param, expr } => *param != x && expr.occurs(x),
            Expr::Appl { f, arg } => f.occurs(x) || arg.occurs(x),
            Expr::Var(v) => *v == x,
            _ => false,
        }
    }

    /// Whether the expression is `λx. f x` with `x` not occurring free in `f`.
    pub fn is_n_reducible(&self) -> (r: bool)
        ensures
            r == eta_reducible(*self),
    {
        match self {
            Expr::Lambda { param, expr } => match &**expr {
                Expr::Appl { f, arg } => match &**arg {
                    Expr::Var(v) => *v == *param && !f.occurs(*param),
                    _ => false,
                },
                _ => false,
            },
            _ => false,
        }
    }

    /// Whether the expression is a lambda, possibly behind macros.
    pub fn is_lambda_head(&self) -> (r: bool)
        ensures
            r == lambda_head(*self),
        decreases self,
    {
        match self {
            Expr::Lambda { .. } => true,
            Expr::MacroRef(m) => m.expr.is_lambda_head(),
            _ => false,
        }
    }

    /// Whether nothing on the left spine, followed through macros, can be
    /// reduced (see `whnf`).
    pub fn is_whnf(&self) -> (r: bool)
        ensures
            r == whnf(*self),
        decreases self,
    {
        match self {
            Expr::Appl { f, .. } => !f.is_lambda_head() && f.is_whnf(),
            Expr::MacroRef(m) => m.expr.is_whnf(),
            Expr::Lambda { .. } => !self.is_n_reducible(),
            _ => true,
        }
    }

    /// Whether the expression is fully reduced (see `normal`).
    pub fn is_normal_form(&self) -> (r: bool)
        ensures
            r == normal(*self),
        decreases self,
    {
        match self {
            Expr::Appl { f, arg } => !f.is_lambda_head() && f.is_normal_form() && arg.is_normal_form(),
            Expr::MacroRef(m) => m.expr.is_normal_form(),
            Expr::Lambda { expr, .. } => !self.is_n_reducible() && expr.is_normal_form(),
            _ => true,
        }
    }

    /// The largest variable number, macro bodies included.
    pub fn get_biggest_var_id(&self) -> (r: Option<usize>)
        ensures
            match biggest(*self) {
                Some(v) => r == Some(v as usize) && 0 <= v <= usize::MAX,
                None => r is None,
            },
        decreases self,
    {
        match self {
            Expr::Nothing | Expr::Literal(_) => None,
            Expr::MacroRef(m) => m.expr.get_biggest_var_id(),
            Expr::Appl { f, arg } => match (f.get_biggest_var_id(), arg.get_biggest_var_id()) {
                (Some(v), Some(v2)) => Some(if v >= v2 { v } else { v2 }),
                (Some(v), None) => Some(v),
                (None, w) => w,
            },
            Expr::Lambda { param, expr } => match expr.get_biggest_var_id() {
                Some(v) => Some(if *param >= v { *param } else { v }),
                None => Some(*param),
            },
            Expr::Var(v) => Some(*v),
        }
    }

    /// How deeply lambdas nest, if that fits in a `usize`.
    pub fn nesting_depth(&self) -> (r: Option<usize>)
        ensures
            r matches Some(n) ==> n == nesting(*self),
            r is None ==> nesting(*self) > usize::MAX,
        decreases self,
    {
        match self {
            Expr::Lambda { expr, .. } => match expr.nesting_depth() {
                Some(n) => if n < usize::MAX {
                    Some(n + 1)
                } else {
                    None
                },
                None => None,
            },
            Expr::Appl { f, arg } => match (f.nesting_depth(), arg.nesting_depth()) {
                (Some(a), Some(b)) => Some(if a >= b { a } else { b }),
                _ => None,
            },
            _ => Some(0),
        }
    }

    /// The expression with `new` in place of variable `var`.
    pub fn subst(&self, var: usize, new: &Expr) -> (r: Expr)
        ensures
            r == subst(*self, var, *new),
        decreases self,
    {
        match self {
            Expr::Lambda { param, expr } => Expr::Lambda { param: *param, expr: Box::new(expr.subst(var, new)) },
            Expr::Appl { f, arg } => Expr::Appl { f: Box::new(f.subst(var, new)), arg: Box::new(arg.subst(var, new)) },
            Expr::Var(v) => if *v == var {
                new.clone()
            } else {
                Expr::Var(*v)
            },
            _ => self.clone(),
        }
    }

    /// Renumbers the expression under the binders `table` (see `alpha`).
    fn alpha_convert_with_table(self, table: &mut Vec<usize>, start: usize) -> (r: Expr)
        requires
            start + old(table)@.len() + nesting(self) <= usize::MAX,
        ensures
            r == alpha(self, old(table)@, start as int),
            final(table)@ == old(table)@,
        decreases self,
    {
        match self {
            Expr::Appl { f, arg } => {
                let f2 = (*f).alpha_convert_with_table(table, start);
                let a2 = (*arg).alpha_convert_with_table(table, start);
                Expr::Appl { f: Box::new(f2), arg: Box::new(a2) }
            },
            Expr::Lambda { param, expr } => {
                let p = table.len() + start;
                table.push(param);
                let body = (*expr).alpha_convert_with_table(table, start);
                table.pop();
                proof {
                    assert(table@ =~= old(table)@);
                }
                Expr::Lambda { param: p, expr: Box::new(body) }
            },
            Expr::Var(v) => match find_binder(table, v) {
                Some(i) => Expr::Var(i + start),
                None => Expr::Var(v),
            },
            other => other,
        }
    }

    /// Renumbers the binders from `start` downwards from the root.
    pub fn alpha_convert_from(&mut self, start: usize)
        requires
            start + nesting(*old(self)) <= usize::MAX,
        ensures
            *final(self) == alpha(*old(self), seq![], start as int),
    {
        let e = self.take();
        let mut table: Vec<usize> = Vec::new();
        *self = e.alpha_convert_with_table(&mut table, start);
    }

    /// Renumbers the binders from 0, so that expressions that differ only in
    /// their numbering become equal.
    pub fn alpha_convert(&mut self)
        requires
            nesting(*old(self)) <= usize::MAX,
        ensures
            *final(self) == alpha(*old(self), seq![], 0),
    {
        self.alpha_convert_from(0);
    }

    /// A renumbered copy (see `alpha_convert`).
    pub fn pure_alpha_convert(&self) -> (r: Expr)
        requires
            nesting(*self) <= usize::MAX,
        ensures
            r == alpha(*self, seq![], 0),
    {
        let mut c = self.clone();
        c.alpha_convert();
        c
    }
}

impl Expr {
    /// Reduces the expression in place by normal-order beta-reduction, at
    /// nesting `depth`. A macro is unfolded when its body is not in normal
    /// form, or when `eval_macros` asks for it (as in a function position).
    /// On failure the expression is left as far as the evaluation got.
    pub fn eval_depth(&mut self, depth: usize, eval_macros: bool) -> (r: Result<(), RuntimeError>)
        ensures
            (*final(self), r) == eval_depth(*old(self), depth as int, eval_macros),
        decreases MAX_EVAL_DEPTH + 1 - depth,
    {
        if depth > MAX_EVAL_DEPTH {
            return Err(RuntimeError::RecursionDepthExceeded);
        }
        let mut n: usize = MAX_EVAL_DEPTH;
        loop
            invariant
                n <= MAX_EVAL_DEPTH,
                depth <= MAX_EVAL_DEPTH,
                eval_steps(*self, depth as int, eval_macros, n as nat) == eval_depth(*old(self), depth as int, eval_macros),
            decreases n,
        {
            if n == 0 {
                return Err(RuntimeError::IterationExceeded);
            }
            let cur = self.take();
            match cur {
                Expr::Literal(l) => {
                    *self = Expr::Literal(l);
                    return Ok(());
                },
                Expr::Var(v) => {
                    *self = Expr::Var(v);
                    return Ok(());
                },
                Expr::Lambda { param, expr } => {
                    *self = Expr::Lambda { param, expr };
                    return Ok(());
                },
                Expr::Nothing => {
                    return Err(RuntimeError::NothingEval);
                },
                Expr::MacroRef(m) => {
                    if !m.expr.is_normal_form() || eval_macros {
                        *self = m.expr.clone();
                    } else {
                        *self = Expr::MacroRef(m);
                        return Ok(());
                    }
                },
                Expr::Appl { f, arg } => {
                    let mut fv = *f;
                    let r = fv.eval_depth(depth + 1, true);
                    match r {
                        Err(x) => {
                            *self = Expr::Appl { f: Box::new(fv), arg };
                            return Err(x);
                        },
                        Ok(()) => {},
                    }
                    let big = match fv.get_biggest_var_id() {
                        Some(b) => b,
                        None => 0,
                    };
                    match fv {
                        Expr::Lambda { param, expr } => {
                            let fits = match arg.nesting_depth() {
                                Some(na) => big < usize::MAX - na,
                                None => false,
                            };
                            if !fits {
                                *self = Expr::Appl { f: Box::new(Expr::Lambda { param, expr }), arg };
                                return Err(RuntimeError::Unknown);
                            }
                            let mut a2 = (*arg).clone();
                            a2.alpha_convert_from(big + 1);
                            let mut b = expr.subst(param, &a2);
                            match b.nesting_depth() {
                                None => {
                                    *self = Expr::Appl { f: Box::new(Expr::Lambda { param, expr }), arg };
                                    return Err(RuntimeError::Unknown);
                                },
                                Some(_) => {},
                            }
                            b.alpha_convert();
                            *self = b;
                        },
                        other => {
                            *self = Expr::Appl { f: Box::new(other), arg };
                            return Ok(());
                        },
                    }
                },
            }
            n = n - 1;
        }
    }

    /// Reduces the expression in place, from the top level: a macro that
    /// the result is, with its body in normal form, stays unexpanded.
    pub fn eval(&mut self) -> (r: Result<(), RuntimeError>)
        ensures
            (*final(self), r) == eval_depth(*old(self), 0, false),
    {
        self.eval_depth(0, false)
    }
}

/// A compiled program: its result expression and the definitions and
/// literals it was compiled with.
pub struct Executable {
    pub expr: Expr,
    /// Never shrinks: compiled expressions refer to its entries.
    pub macros: MacroTable,
    pub literals: LiteralSet,
}

impl Executable {
    pub fn new(expr: Expr, macros: MacroTable, literals: LiteralSet) -> (r: Executable)
        ensures
            r.expr == expr,
            r.macros == macros,
            r.literals == literals,
    {
        Executable { expr, macros, literals }
    }

    /// Evaluates the program's expression in place (see `Expr::eval`).
    pub fn eval(&mut self) -> (r: Result<(), RuntimeError>)
        ensures
            (final(self).expr, r) == eval_depth(old(self).expr, 0, false),
            final(self).macros == old(self).macros,
            final(self).literals == old(self).literals,
    {
        self.expr.eval()
    }
}

/// The letter that shows variable `v`: `a` for 0, then on through the
/// byte values, wrapping around.
pub open spec fn var_letter(v: usize) -> char {
    (((v % 256) + 97) % 256) as u8 as char
}

/// The text of an expression: `λa. body`, application by juxtaposition with
/// parentheses where a lambda or an application would be ambiguous, quoted
/// literals (two applied literals show as one), and macros by name.
pub open spec fn show(e: Expr) -> Seq<char>
    decreases e,
{
    match e {
        Expr::Lambda { param, expr } => seq!['λ', var_letter(param)] + ". "@ + show(*expr),
        Expr::Appl { f, arg } => match (*f, *arg) {
            (Expr::Literal(a), Expr::Literal(b)) => seq!['"'] + a@ + b@ + seq!['"'],
            _ => {
                let fs = if *f is Lambda {
                    seq!['('] + show(*f) + seq![')']
                } else {
                    show(*f)
                };
                let xs = if *arg is Lambda || *arg is Appl {
                    seq!['('] + show(*arg) + seq![')']
                } else {
                    show(*arg)
                };
                fs + seq![' '] + xs
            },
        },
        Expr::Var(v) => seq![var_letter(v)],
        Expr::Literal(s) => seq!['"'] + s@ + seq!['"'],
        Expr::MacroRef(m) => m.name@,
        Expr::Nothing => "[nothing expression]"@,
    }
}

impl Expr {
    /// Appends the text of the expression (see `show`) to `out`.
    pub fn write_to(&self, out: &mut String)
        ensures
            final(out)@ == old(out)@ + show(*self),
        decreases self,
    {
        match self {
            Expr::Lambda { param, expr } => {
                push_char(out, 'λ');
                push_char(out, ((*param % 256 + 97) % 256) as u8 as char);
                out.append(". ");
                expr.write_to(out);
                assert(out@ =~= old(out)@ + show(*self));
            },
            Expr::Appl { f, arg } => {
                match (&**f, &**arg) {
                    (Expr::Literal(a), Expr::Literal(b)) => {
                        push_char(out, '"');
                        out.append(a.as_str());
                        out.append(b.as_str());
                        push_char(out, '"');
                        assert(out@ =~= old(out)@ + show(*self));
                        return;
                    },
                    _ => {},
                }
                let ghost o0 = out@;
                match &**f {
                    Expr::Lambda { .. } => {
                        push_char(out, '(');
                        f.write_to(out);
                        push_char(out, ')');
                    },
                    _ => f.write_to(out),
                }
                let ghost o1 = out@;
                push_char(out, ' ');
                match &**arg {
                    Expr::Lambda { .. } | Expr::Appl { .. } => {
                        push_char(out, '(');
                        arg.write_to(out);
                        push_char(out, ')');
                    },
                    _ => arg.write_to(out),
                }
                assert(out@ =~= old(out)@ + show(*self));
            },
            Expr::Var(v) => {
                push_char(out, ((*v % 256 + 97) % 256) as u8 as char);
            },
            Expr::Literal(s) => {
                push_char(out, '"');
                out.append(s.as_str());
                push_char(out, '"');
                assert(out@ =~= old(out)@ + show(*self));
            },
            Expr::MacroRef(m) => {
                out.append(m.name.as_str());
            },
            Expr::Nothing => {
                out.append("[nothing expression]");
            },
        }
    }

    /// The text of the expression (see `show`).
    pub fn to_string(&self) -> (r: String)
        ensures
            r@ == show(*self),
    {
        let mut out = String::new();
        self.write_to(&mut out);
        assert(out@ =~= show(*self));
        out
    }
}

} // verus!
