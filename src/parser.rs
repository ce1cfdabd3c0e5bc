use vstd::prelude::*;
use crate::span::{Span, merged};
use error::{Error, ErrorKind, ErrorMessage, TokenKind};
use grammar::{Src, PRes};
use parse_stream::{ParseStream, parse_enclosed, parsed};
use tokens::{Var, Literal, parse_token, Group, Delimiter};
use ast::{Program, Stmt, Macro, Expr, Lambda, Appl, Close};

pub mod error;
pub mod tokens;
pub mod ast;
pub mod grammar;
pub mod parser_cache;
pub mod parse_stream;

verus! {

/// A syntax node that the grammar describes and the parser builds.
pub trait Parser: Sized + View {
    /// What the grammar gives for this node at `p`, in the window ending at `e`.
    spec fn rule(s: Src, p: int, e: int) -> PRes<Self::V>;

    fn parse(input: &mut ParseStream) -> (r: Result<Self, Error>)
        requires
            old(input).wf(),
        ensures
            final(input).wf(),
            final(input).same_window(old(input)),
            parsed(r, *old(input), *final(input), Self::rule(old(input).src(), old(input).pos(), old(input).end()));
}

/// Something that occupies a stretch of the source.
pub trait Spanned {
    spec fn spec_span(&self) -> Span;

    fn span(&self) -> (r: Span)
        ensures
            r == self.spec_span();
}

impl ParseStream {
    /// A parenthesised expression after optional whitespace, parsed in the
    /// window between the parentheses; the span covers both parentheses.
    pub fn parse_parethesized(&mut self) -> (r: Result<(Expr, Span), Error>)
        requires
            old(self).wf(),
        ensures
            final(self).wf(),
            final(self).same_window(old(self)),
            final(self).pos() >= old(self).pos(),
            match grammar::close_paren(old(self).src(), old(self).pos(), old(self).end()) {
                Ok((Close::Grouping(bx, g), q)) => r matches Ok((x, span)) && x@ == *bx && span == g.span
                    && final(self).pos() == q,
                Err(m) => r matches Err(e) && e@ == seq![m] && final(self).pos() == old(self).pos(),
                _ => false,
            },
        decreases old(self).end() - old(self).pos(), 0int,
    {
        let start = self.curr;
        let ghost s = self.src();
        let ghost e = self.end();
        proof {
            grammar::lemma_enclosed(s, start as int, e);
        }
        match parse_enclosed(self) {
            Err(err) => Err(err),
            Ok(after) => {
                let q = self.curr;
                let span = Span { start: self.offsets[q], end: self.offsets[after] };
                let outer = self.window;
                self.window = Span { start: q + 1, end: after - 1 };
                self.curr = q + 1;
                let r = parse_expr(self);
                self.window = outer;
                match r {
                    Ok(x) => {
                        self.curr = after;
                        Ok((x, span))
                    },
                    Err(err) => {
                        self.curr = start;
                        Err(err)
                    },
                }
            },
        }
    }
}

/// A closed term; memoised.
pub fn parse_close(input: &mut ParseStream) -> (r: Result<Close, Error>)
    requires
        old(input).wf(),
    ensures
        final(input).wf(),
        final(input).same_window(old(input)),
        final(input).pos() >= old(input).pos(),
        parsed(r, *old(input), *final(input), grammar::close(old(input).src(), old(input).pos(), old(input).end())),
    decreases old(input).end() - old(input).pos(), 1int,
{
    match input.cached_close() {
        Some(r) => r,
        None => {
            let at = input.curr;
            proof {
                grammar::lemma_close_parts(input.src(), at as int, input.end());
            }
            let r = match input.parse_parethesized() {
                Ok((x, span)) => Ok(Close::Grouping(Box::new(x), Group::new(span, Delimiter::Paren))),
                Err(e1) => match Literal::parse_string(input) {
                    Ok(l) => Ok(Close::Literal(l)),
                    Err(e2) => match Var::parse_ident(input) {
                        Ok(v) => Ok(Close::Var(v)),
                        Err(e3) => {
                            proof {
                                grammar::lemma_further_single(e1@[0], e2@[0]);
                                grammar::lemma_further_single(grammar::further1(e1@[0], e2@[0]), e3@[0]);
                            }
                            Err(e1.or(e2).or(e3))
                        },
                    },
                },
            };
            input.remember_close(at, &r);
            r
        },
    }
}

/// Two or more closed terms, applied from the left; memoised.
pub fn parse_appl(input: &mut ParseStream) -> (r: Result<Appl, Error>)
    requires
        old(input).wf(),
    ensures
        final(input).wf(),
        final(input).same_window(old(input)),
        final(input).pos() >= old(input).pos(),
        parsed(r, *old(input), *final(input), grammar::appl(old(input).src(), old(input).pos(), old(input).end())),
    decreases old(input).end() - old(input).pos(), 2int,
{
    match input.cached_appl() {
        Some(r) => r,
        None => {
            let lo = input.curr;
            let ghost s = input.src();
            let ghost e = input.end();
            proof {
                grammar::lemma_close(s, lo as int, e);
            }
            let r = match parse_close(input) {
                Err(err) => Err(err),
                Ok(lhs) => {
                    let ghost q1 = input.pos();
                    proof {
                        grammar::lemma_close(s, q1, e);
                    }
                    match parse_close(input) {
                        Err(err) => {
                            input.set_pos(lo);
                            Err(err)
                        },
                        Ok(rhs) => {
                            let mut root = Appl { lhs, rhs };
                            let mut failed: Option<Error> = None;
                            loop
                                invariant_except_break
                                    failed is None,
                                invariant
                                    input.wf(),
                                    input.same_window(old(input)),
                                    s == input.src(),
                                    e == input.end(),
                                    lo as int == old(input).pos(),
                                    lo <= input.pos(),
                                    grammar::appl(s, lo as int, e) == grammar::appl_rest(s, lo as int, input.pos(), e, root@),
                                ensures
                                    input.wf(),
                                    input.same_window(old(input)),
                                    lo <= input.pos(),
                                    failed is None ==> grammar::appl(s, lo as int, e) == Ok::<(Appl<Seq<char>>, int), ErrorMessage>((root@, input.pos())),
                                    failed matches Some(err) ==> (grammar::appl(s, lo as int, e) matches Err(m) && err@ == seq![m]),
                                decreases e - input.pos(),
                            {
                                if input.is_empty() {
                                    break;
                                }
                                let ghost p = input.pos();
                                proof {
                                    grammar::lemma_close(s, p, e);
                                }
                                match parse_close(input) {
                                    Err(err) => {
                                        failed = Some(err);
                                        break;
                                    },
                                    Ok(c) => {
                                        let hi = input.curr;
                                        root = Appl {
                                            lhs: Close::Grouping(
                                                Box::new(Expr::Appl(root)),
                                                Group::new(Span::new(input.offsets[lo], input.offsets[hi]), Delimiter::Synthetic),
                                            ),
                                            rhs: c,
                                        };
                                    },
                                }
                            }
                            match failed {
                                Some(err) => {
                                    input.set_pos(lo);
                                    Err(err)
                                },
                                None => Ok(root),
                            }
                        },
                    }
                },
            };
            input.remember_appl(lo, &r);
            r
        },
    }
}

/// `\\x. body`; memoised.
pub fn parse_lambda(input: &mut ParseStream) -> (r: Result<Lambda, Error>)
    requires
        old(input).wf(),
    ensures
        final(input).wf(),
        final(input).same_window(old(input)),
        final(input).pos() >= old(input).pos(),
        parsed(r, *old(input), *final(input), grammar::lambda(old(input).src(), old(input).pos(), old(input).end())),
    decreases old(input).end() - old(input).pos(), 2int,
{
    match input.cached_lambda() {
        Some(r) => r,
        None => {
            let at = input.curr;
            let ghost s = input.src();
            let ghost e = input.end();
            let r = match parse_token(input, TokenKind::Lambda) {
                Err(err) => Err(err),
                Ok(lt) => {
                    let ghost q1 = input.pos();
                    proof {
                        grammar::lemma_punct(s, at as int, e, TokenKind::Lambda);
                        grammar::lemma_var(s, q1, e);
                    }
                    match Var::parse_ident(input) {
                        Err(err) => {
                            input.set_pos(at);
                            Err(err)
                        },
                        Ok(var) => {
                            let ghost q2 = input.pos();
                            match parse_token(input, TokenKind::Dot) {
                                Err(err) => {
                                    input.set_pos(at);
                                    Err(err)
                                },
                                Ok(dt) => {
                                    proof {
                                        grammar::lemma_punct(s, q2, e, TokenKind::Dot);
                                    }
                                    match parse_expr(input) {
                                        Err(err) => {
                                            input.set_pos(at);
                                            Err(err)
                                        },
                                        Ok(body) => Ok(Lambda {
                                            lambda_token: tokens::Lambda { span: lt },
                                            var,
                                            dot_token: tokens::Dot { span: dt },
                                            expr: Box::new(body),
                                        }),
                                    }
                                },
                            }
                        },
                    }
                },
            };
            input.remember_lambda(at, &r);
            r
        },
    }
}

/// An expression: a lambda, else an application, else a single closed term
/// with nothing after it; memoised.
#[verifier::rlimit(60)]
pub fn parse_expr(input: &mut ParseStream) -> (r: Result<Expr, Error>)
    requires
        old(input).wf(),
    ensures
        final(input).wf(),
        final(input).same_window(old(input)),
        final(input).pos() >= old(input).pos(),
        parsed(r, *old(input), *final(input), grammar::expr(old(input).src(), old(input).pos(), old(input).end())),
    decreases old(input).end() - old(input).pos(), 3int,
{
    match input.cached_expr() {
        Some(r) => r,
        None => {
            let at = input.curr;
            let ghost s = input.src();
            let ghost e = input.end();
            input.skip_whitespace();
            proof {
                grammar::lemma_skip_ws(s, at as int, e);
            }
            let r = match parse_lambda(input) {
                Ok(l) => Ok(Expr::Lambda(l)),
                Err(e1) => match parse_appl(input) {
                    Ok(a) => Ok(Expr::Appl(a)),
                    Err(e2) => {
                        let ghost q = input.pos();
                        let lone: Result<Expr, Error> = match parse_close(input) {
                            Err(e3) => Err(e3),
                            Ok(c) => {
                                proof {
                                    grammar::lemma_close(s, q, e);
                                }
                                input.skip_whitespace();
                                if input.curr >= input.window.end {
                                    Ok(Expr::Close(c))
                                } else {
                                    let stop = input.curr;
                                    proof {
                                        grammar::lemma_byte_order(s, stop as int, s.hi());
                                    }
                                    Err(Error::new(Span { start: input.offsets[stop], end: input.offsets[stop] + 1 }, ErrorKind::UnexpectedTrailingInput))
                                }
                            },
                        };
                        match lone {
                            Ok(x) => Ok(x),
                            Err(e3) => {
                                proof {
                                    grammar::lemma_further_single(e1@[0], e2@[0]);
                                    grammar::lemma_further_single(grammar::further1(e1@[0], e2@[0]), e3@[0]);
                                }
                                let worst = e1.or(e2).or(e3);
                                Err(Error::new(worst.cover_span(), ErrorKind::ExpectedExpression))
                            },
                        }
                    },
                },
            };
            match r {
                Ok(_) => {},
                Err(_) => input.set_pos(at),
            }
            input.remember_expr(at, &r);
            r
        },
    }
}

/// `name = value`
pub fn parse_macro(input: &mut ParseStream) -> (r: Result<Macro, Error>)
    requires
        old(input).wf(),
    ensures
        final(input).wf(),
        final(input).same_window(old(input)),
        parsed(r, *old(input), *final(input), grammar::macro_def(old(input).src(), old(input).pos(), old(input).end())),
{
    let at = input.curr;
    let name = match Var::parse_ident(input) {
        Ok(v) => v,
        Err(err) => return Err(err),
    };
    let eq = match parse_token(input, TokenKind::Equal) {
        Ok(sp) => sp,
        Err(err) => {
            input.set_pos(at);
            return Err(err);
        },
    };
    match parse_expr(input) {
        Ok(value) => Ok(Macro { name, eq_token: tokens::Equal { span: eq }, value }),
        Err(err) => {
            input.set_pos(at);
            Err(err)
        },
    }
}

/// A macro definition, else an expression; only whitespace may follow it.
pub fn parse_stmt(input: &mut ParseStream) -> (r: Result<Stmt, Error>)
    requires
        old(input).wf(),
    ensures
        final(input).wf(),
        final(input).same_window(old(input)),
        parsed(r, *old(input), *final(input), grammar::stmt(old(input).src(), old(input).pos(), old(input).end())),
{
    let at = input.curr;
    let r = match parse_macro(input) {
        Ok(m) => Ok(Stmt::Macro(m)),
        Err(_) => match parse_expr(input) {
            Ok(x) => Ok(Stmt::Expr(x)),
            Err(err) => Err(err),
        },
    };
    match r {
        Ok(st) => {
            if input.is_empty() {
                Ok(st)
            } else {
                let span = input.curr_span();
                input.set_pos(at);
                Err(Error::new(span, ErrorKind::UnexpectedTrailingInput))
            }
        },
        Err(err) => Err(err),
    }
}

/// What a line-by-line parse gives, after the statements `done`.
pub open spec fn after_lines(done: Seq<Stmt<Seq<char>>>, rest: Result<Seq<Stmt<Seq<char>>>, ErrorMessage>) -> Result<Seq<Stmt<Seq<char>>>, ErrorMessage> {
    match rest {
        Ok(more) => Ok(done + more),
        Err(m) => Err(m),
    }
}

proof fn lemma_after_lines(
    done: Seq<Stmt<Seq<char>>>,
    st: Stmt<Seq<char>>,
    rest: Result<Seq<Stmt<Seq<char>>>, ErrorMessage>,
)
    ensures
        after_lines(done, match rest {
            Ok(more) => Ok(seq![st] + more),
            Err(m) => Err(m),
        }) == after_lines(done + seq![st], rest),
{
    match rest {
        Ok(more) => {
            assert(done + (seq![st] + more) =~= done + seq![st] + more);
        },
        Err(_) => {},
    }
}

impl Program {
    /// One statement for each line of the window that is not blank. The
    /// cursor ends at the end of the window.
    pub fn parse_lines(input: &mut ParseStream) -> (r: Result<Program, Error>)
        requires
            old(input).wf(),
        ensures
            final(input).wf(),
            final(input).same_window(old(input)),
            match grammar::program(old(input).src(), old(input).pos(), old(input).end()) {
                Ok(v) => r matches Ok(p) && p@ == v && final(input).pos() == old(input).end(),
                Err(m) => r matches Err(e) && e@ == seq![m] && final(input).pos() == old(input).pos(),
            },
    {
        let at = input.curr;
        let ghost s = input.src();
        let e = input.window.end;
        let outer = input.window;
        let mut stmts: Vec<Stmt> = Vec::new();
        let mut failed: Option<Error> = None;
        loop
            invariant_except_break
                failed is None,
            invariant
                input.wf(),
                input.same_window(old(input)),
                s == input.src(),
                e == input.end(),
                outer == input.window,
                at as int == old(input).pos(),
                at <= input.pos() <= e,
                grammar::program(s, at as int, e as int) == after_lines(
                    stmts@.map_values(|st: Stmt| ast::stmt_view(st)),
                    grammar::program(s, input.pos(), e as int),
                ),
            ensures
                input.wf(),
                input.same_window(old(input)),
                failed is None ==> grammar::program(s, at as int, e as int) == Ok::<Seq<Stmt<Seq<char>>>, ErrorMessage>(
                    stmts@.map_values(|st: Stmt| ast::stmt_view(st))) && input.pos() == e,
                failed matches Some(err) ==> (grammar::program(s, at as int, e as int) matches Err(m) && err@ == seq![m]),
            decreases e - input.pos(),
        {
            if input.curr >= e {
                assert(stmts@.map_values(|st: Stmt| ast::stmt_view(st)) + seq![] =~= stmts@.map_values(|st: Stmt| ast::stmt_view(st)));
                break;
            }
            let p = input.curr;
            let mut le = p;
            while le < e && input.text[le] != '\n'
                invariant
                    input.wf(),
                    s == input.src(),
                    e == input.end(),
                    input.window.start <= p <= le <= e,
                    grammar::line_end(s, le as int, e as int) == grammar::line_end(s, p as int, e as int),
                decreases e - le,
            {
                le = le + 1;
            }
            input.window = Span { start: p, end: le };
            let line = if input.is_empty() {
                None
            } else {
                Some(parse_stmt(input))
            };
            input.window = outer;
            let ghost prev = stmts@.map_values(|st: Stmt| ast::stmt_view(st));
            match line {
                None => {},
                Some(Ok(st)) => {
                    stmts.push(st);
                    assert(stmts@.map_values(|st: Stmt| ast::stmt_view(st)) =~= prev + seq![ast::stmt_view(st)]);
                },
                Some(Err(err)) => {
                    failed = Some(err);
                    break;
                },
            }
            if le < e {
                input.curr = le + 1;
            } else {
                input.curr = e;
            }
            proof {
                let rest = if le < e {
                    grammar::program(s, le + 1, e as int)
                } else {
                    Ok(seq![])
                };
                assert(grammar::program(s, input.pos(), e as int) == rest);
                if !grammar::blank(s, p as int, le as int) {
                    lemma_after_lines(prev, grammar::stmt(s, p as int, le as int).unwrap().0, rest);
                }
            }
        }
        match failed {
            Some(err) => {
                input.set_pos(at);
                Err(err)
            },
            None => Ok(Program { stmts }),
        }
    }
}

impl Parser for Expr {
    open spec fn rule(s: Src, p: int, e: int) -> PRes<Expr<Seq<char>>> {
        grammar::expr(s, p, e)
    }

    fn parse(input: &mut ParseStream) -> (r: Result<Expr, Error>) {
        parse_expr(input)
    }
}

impl Parser for Lambda {
    open spec fn rule(s: Src, p: int, e: int) -> PRes<Lambda<Seq<char>>> {
        grammar::lambda(s, p, e)
    }

    fn parse(input: &mut ParseStream) -> (r: Result<Lambda, Error>) {
        parse_lambda(input)
    }
}

impl Parser for Appl {
    open spec fn rule(s: Src, p: int, e: int) -> PRes<Appl<Seq<char>>> {
        grammar::appl(s, p, e)
    }

    fn parse(input: &mut ParseStream) -> (r: Result<Appl, Error>) {
        parse_appl(input)
    }
}

impl Parser for Close {
    open spec fn rule(s: Src, p: int, e: int) -> PRes<Close<Seq<char>>> {
        grammar::close(s, p, e)
    }

    fn parse(input: &mut ParseStream) -> (r: Result<Close, Error>) {
        parse_close(input)
    }
}

impl Parser for Macro {
    open spec fn rule(s: Src, p: int, e: int) -> PRes<Macro<Seq<char>>> {
        grammar::macro_def(s, p, e)
    }

    fn parse(input: &mut ParseStream) -> (r: Result<Macro, Error>) {
        parse_macro(input)
    }
}

impl Parser for Stmt {
    open spec fn rule(s: Src, p: int, e: int) -> PRes<Stmt<Seq<char>>> {
        grammar::stmt(s, p, e)
    }

    fn parse(input: &mut ParseStream) -> (r: Result<Stmt, Error>) {
        parse_stmt(input)
    }
}

impl Parser for Var {
    open spec fn rule(s: Src, p: int, e: int) -> PRes<Var<Seq<char>>> {
        grammar::var(s, p, e)
    }

    fn parse(input: &mut ParseStream) -> (r: Result<Var, Error>) {
        Var::parse_ident(input)
    }
}

impl Parser for Literal {
    open spec fn rule(s: Src, p: int, e: int) -> PRes<Literal<Seq<char>>> {
        grammar::literal(s, p, e)
    }

    fn parse(input: &mut ParseStream) -> (r: Result<Literal, Error>) {
        Literal::parse_string(input)
    }
}

/// A whole program ends where its window ends.
pub open spec fn program_rule(s: Src, p: int, e: int) -> PRes<Seq<Stmt<Seq<char>>>> {
    match grammar::program(s, p, e) {
        Ok(v) => Ok((v, e)),
        Err(m) => Err(m),
    }
}

impl Parser for Program {
    open spec fn rule(s: Src, p: int, e: int) -> PRes<Seq<Stmt<Seq<char>>>> {
        program_rule(s, p, e)
    }

    fn parse(input: &mut ParseStream) -> (r: Result<Program, Error>) {
        Program::parse_lines(input)
    }
}

impl ParseStream {
    /// Parses a `T` at the cursor.
    pub fn parse<T: Parser>(&mut self) -> (r: Result<T, Error>)
        requires
            old(self).wf(),
        ensures
            final(self).wf(),
            final(self).same_window(old(self)),
            parsed(r, *old(self), *final(self), T::rule(old(self).src(), old(self).pos(), old(self).end())),
    {
        T::parse(self)
    }
}

impl Spanned for Span {
    open spec fn spec_span(&self) -> Span {
        *self
    }

    fn span(&self) -> (r: Span) {
        *self
    }
}

impl Spanned for Var {
    open spec fn spec_span(&self) -> Span {
        self.span
    }

    fn span(&self) -> (r: Span) {
        self.span
    }
}

impl Spanned for Literal {
    open spec fn spec_span(&self) -> Span {
        self.span
    }

    fn span(&self) -> (r: Span) {
        self.span
    }
}

impl Spanned for Group {
    open spec fn spec_span(&self) -> Span {
        self.span
    }

    fn span(&self) -> (r: Span) {
        self.span
    }
}

/// The smallest span that covers every token of an expression.
pub open spec fn expr_span(e: Expr) -> Span
    decreases e,
{
    match e {
        Expr::Lambda(l) => merged(merged(merged(l.lambda_token.span, l.var.span), l.dot_token.span), expr_span(*l.expr)),
        Expr::Close(c) => close_span(c),
        Expr::Appl(a) => merged(close_span(a.lhs), close_span(a.rhs)),
    }
}

pub open spec fn close_span(c: Close) -> Span
    decreases c,
{
    match c {
        Close::Grouping(e, g) => merged(expr_span(*e), g.span),
        Close::Var(v) => v.span,
        Close::Literal(l) => l.span,
    }
}

fn span_of_expr(e: &Expr) -> (r: Span)
    ensures
        r == expr_span(*e),
    decreases e,
{
    match e {
        Expr::Lambda(l) => l.lambda_token.span.merge(l.var.span).merge(l.dot_token.span).merge(span_of_expr(&l.expr)),
        Expr::Close(c) => span_of_close(c),
        Expr::Appl(a) => span_of_close(&a.lhs).merge(span_of_close(&a.rhs)),
    }
}

fn span_of_close(c: &Close) -> (r: Span)
    ensures
        r == close_span(*c),
    decreases c,
{
    match c {
        Close::Grouping(e, g) => span_of_expr(e).merge(g.span),
        Close::Var(v) => v.span,
        Close::Literal(l) => l.span,
    }
}

impl Spanned for Expr {
    open spec fn spec_span(&self) -> Span {
        expr_span(*self)
    }

    fn span(&self) -> (r: Span) {
        span_of_expr(self)
    }
}

impl Spanned for Close {
    open spec fn spec_span(&self) -> Span {
        close_span(*self)
    }

    fn span(&self) -> (r: Span) {
        span_of_close(self)
    }
}

impl Spanned for Macro {
    open spec fn spec_span(&self) -> Span {
        merged(merged(self.name.span, self.eq_token.span), expr_span(self.value))
    }

    fn span(&self) -> (r: Span) {
        self.name.span.merge(self.eq_token.span).merge(span_of_expr(&self.value))
    }
}

impl Spanned for Stmt {
    open spec fn spec_span(&self) -> Span {
        match self {
            Stmt::Macro(m) => m.spec_span(),
            Stmt::Expr(x) => expr_span(*x),
        }
    }

    fn span(&self) -> (r: Span) {
        match self {
            Stmt::Macro(m) => m.span(),
            Stmt::Expr(x) => span_of_expr(x),
        }
    }
}

} // verus!
