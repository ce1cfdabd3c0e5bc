use vstd::prelude::*;
use crate::span::Span;
use crate::utils::{is_ws, alphabetic, utf8_total, utf8_len, lemma_utf8_prefix};
use super::error::{ErrorMessage, ErrorKind, TokenKind, further, cover};
use super::tokens;
use super::ast::{Expr, Lambda, Appl, Close, Macro, Stmt};

verus! {

/// A source text. The grammar moves through it by character positions,
/// `base` being the position of its first character; spans are byte offsets,
/// `origin` being the byte offset of its first character.
pub struct Src {
    pub text: Seq<char>,
    pub base: int,
    pub origin: int,
}

impl Src {
    pub open spec fn at(self, p: int) -> char {
        self.text[p - self.base]
    }

    /// The characters in `[a, b)`.
    pub open spec fn slice(self, a: int, b: int) -> Seq<char> {
        self.text.subrange(a - self.base, b - self.base)
    }

    pub open spec fn hi(self) -> int {
        self.base + self.text.len()
    }

    /// The byte offset of character position `p`.
    pub open spec fn byte(self, p: int) -> int {
        self.origin + utf8_total(self.text.take(p - self.base))
    }

    /// The bytes of the characters at positions `[a, b)`.
    pub open spec fn span(self, a: int, b: int) -> Span {
        Span { start: self.byte(a) as usize, end: self.byte(b) as usize }
    }

    /// `n` bytes from the start of the character at position `p`.
    pub open spec fn width_from(self, p: int, n: int) -> Span {
        Span { start: self.byte(p) as usize, end: (self.byte(p) + n) as usize }
    }

    /// The one-byte span at the start of the character at position `p`.
    pub open spec fn tok(self, p: int) -> Span {
        self.width_from(p, 1)
    }

    /// `[p, e)` is a stretch of this text that spans can address.
    pub open spec fn window(self, p: int, e: int) -> bool {
        &&& 0 <= self.base <= p <= e <= self.hi()
        &&& 0 <= self.origin
        &&& self.byte(self.hi()) + 1 < usize::MAX
    }
}

/// The outcome of a grammar rule: a value and where it stopped, or a failure.
pub type PRes<T> = Result<(T, int), ErrorMessage>;

pub open spec fn fail(span: Span, kind: ErrorKind) -> ErrorMessage {
    ErrorMessage { span, kind }
}

/// Of two failures, the one that starts further into the input (the second on a tie).
pub open spec fn further1(a: ErrorMessage, b: ErrorMessage) -> ErrorMessage {
    if a.span.start > b.span.start {
        a
    } else {
        b
    }
}

/// The first position at or after `p` that is not whitespace (or `e`).
pub open spec fn skip_ws(s: Src, p: int, e: int) -> int
    decreases e - p,
{
    if p < e && is_ws(s.at(p)) {
        skip_ws(s, p + 1, e)
    } else {
        p
    }
}

/// Nothing but whitespace is left in `[p, e)`.
pub open spec fn blank(s: Src, p: int, e: int) -> bool {
    skip_ws(s, p, e) >= e
}

/// The end of the run of alphabetic characters that starts at `p`.
pub open spec fn alpha_run(s: Src, p: int, e: int) -> int
    decreases e - p,
{
    if p < e && alphabetic(s.at(p)) {
        alpha_run(s, p + 1, e)
    } else {
        p
    }
}

/// The end of the line that holds `p`: the next newline, or `e`.
pub open spec fn line_end(s: Src, p: int, e: int) -> int
    decreases e - p,
{
    if p < e && s.at(p) != '\n' {
        line_end(s, p + 1, e)
    } else {
        p
    }
}

pub open spec fn token_char(k: TokenKind, c: char) -> bool {
    match k {
        TokenKind::Dot => c == '.',
        TokenKind::Equal => c == '=',
        TokenKind::Lambda => c == '\\' || c == 'λ',
        TokenKind::Quote => c == '"',
    }
}

/// A single-character token after optional whitespace.
pub open spec fn punct(s: Src, p: int, e: int, k: TokenKind) -> PRes<Span> {
    let q = skip_ws(s, p, e);
    if q < e && token_char(k, s.at(q)) {
        Ok((s.tok(q), q + 1))
    } else {
        Err(fail(s.tok(q), ErrorKind::ExpectedToken(k)))
    }
}

pub open spec fn var(s: Src, p: int, e: int) -> PRes<tokens::Var<Seq<char>>> {
    let q = skip_ws(s, p, e);
    let r = alpha_run(s, q, e);
    if r == q {
        Err(fail(s.tok(q), ErrorKind::ExpectedIdentifier))
    } else {
        Ok((tokens::Var { span: s.span(q, r), name: s.slice(q, r) }, r))
    }
}

/// The body of a string literal from `i`: its content so far, how many
/// characters it has, and the position of the closing quote.
pub open spec fn lit_body(s: Src, i: int, e: int, acc: Seq<char>) -> Result<(Seq<char>, int), ErrorMessage>
    decreases e - i,
{
    if i >= e {
        Err(fail(s.tok(i), ErrorKind::ExpectedToken(TokenKind::Quote)))
    } else if s.at(i) == '\\' {
        if i + 1 >= e {
            Err(fail(s.tok(i + 1), ErrorKind::EscapeWithoutEscaped))
        } else {
            lit_body(s, i + 2, e, acc.push(s.at(i + 1)))
        }
    } else if s.at(i) == '"' {
        Ok((acc, i))
    } else {
        lit_body(s, i + 1, e, acc.push(s.at(i)))
    }
}

pub open spec fn literal(s: Src, p: int, e: int) -> PRes<tokens::Literal<Seq<char>>> {
    let q = skip_ws(s, p, e);
    if !(q < e && s.at(q) == '"') {
        Err(fail(s.tok(q), ErrorKind::ExpectedToken(TokenKind::Quote)))
    } else {
        match lit_body(s, q + 1, e, seq![]) {
            Err(m) => Err(m),
            Ok((content, close)) => Ok(
                (tokens::Literal { span: s.width_from(q, content.len() as int), content }, close + 1),
            ),
        }
    }
}

/// The state of the scan for a closing parenthesis after position `i`.
pub struct ScanState {
    pub i: int,
    pub prev: char,
    pub quote: Option<int>,
    pub open: Seq<int>,
}

/// One character of the scan: parentheses count only outside of quotes, and a
/// quote closes a string unless a backslash precedes it.
pub open spec fn scan_step(s: Src, st: ScanState) -> ScanState {
    let c = s.at(st.i);
    ScanState {
        i: st.i + 1,
        prev: c,
        quote: if c == '"' {
            if st.quote is Some && st.prev != '\\' {
                None
            } else {
                Some(st.i)
            }
        } else {
            st.quote
        },
        open: if st.quote is None {
            if c == '(' {
                st.open.push(st.i)
            } else if c == ')' {
                st.open.drop_last()
            } else {
                st.open
            }
        } else {
            st.open
        },
    }
}

/// Scans until every open parenthesis is closed or the window ends.
pub open spec fn scan(s: Src, st: ScanState, e: int) -> ScanState
    decreases e - st.i,
{
    if st.open.len() == 0 || st.i >= e {
        st
    } else {
        scan(s, scan_step(s, st), e)
    }
}

/// A parenthesised stretch after optional whitespace: the position of `(`
/// and the position just after its matching `)`.
pub open spec fn enclosed(s: Src, p: int, e: int) -> Result<(int, int), ErrorMessage> {
    let q = skip_ws(s, p, e);
    if !(q < e && s.at(q) == '(') {
        Err(fail(s.tok(q), ErrorKind::ExpectedParenthesis))
    } else {
        let end = scan(s, ScanState { i: q + 1, prev: '(', quote: None, open: seq![q] }, e);
        if end.quote is Some {
            Err(fail(s.tok(end.quote->0), ErrorKind::UnmatchedQuote))
        } else if end.open.len() > 0 {
            Err(fail(s.tok(end.open.last()), ErrorKind::UnmatchedParenthesis))
        } else {
            Ok((q, end.i))
        }
    }
}


pub proof fn lemma_skip_ws(s: Src, p: int, e: int)
    ensures
        p <= e ==> p <= skip_ws(s, p, e) <= e,
        p > e ==> skip_ws(s, p, e) == p,
    decreases e - p,
{
    if p < e && is_ws(s.at(p)) {
        lemma_skip_ws(s, p + 1, e);
    }
}

pub proof fn lemma_alpha_run(s: Src, p: int, e: int)
    ensures
        p <= e ==> p <= alpha_run(s, p, e) <= e,
        p > e ==> alpha_run(s, p, e) == p,
    decreases e - p,
{
    if p < e && alphabetic(s.at(p)) {
        lemma_alpha_run(s, p + 1, e);
    }
}

pub proof fn lemma_line_end(s: Src, p: int, e: int)
    ensures
        p <= e ==> p <= line_end(s, p, e) <= e,
    decreases e - p,
{
    if p < e && s.at(p) != '\n' {
        lemma_line_end(s, p + 1, e);
    }
}

pub proof fn lemma_punct(s: Src, p: int, e: int, k: TokenKind)
    ensures
        punct(s, p, e, k) matches Ok((_, q)) ==> p < q <= e,
{
    lemma_skip_ws(s, p, e);
}

pub proof fn lemma_var(s: Src, p: int, e: int)
    ensures
        var(s, p, e) matches Ok((_, q)) ==> p < q <= e,
{
    lemma_skip_ws(s, p, e);
    lemma_alpha_run(s, skip_ws(s, p, e), e);
}

pub proof fn lemma_lit_body(s: Src, i: int, e: int, acc: Seq<char>)
    ensures
        lit_body(s, i, e, acc) matches Ok((c, close)) ==> i <= close < e && c.len() <= acc.len() + (close - i),
    decreases e - i,
{
    if i >= e {
    } else if s.at(i) == '\\' {
        if i + 1 < e {
            lemma_lit_body(s, i + 2, e, acc.push(s.at(i + 1)));
        }
    } else if s.at(i) == '"' {
    } else {
        lemma_lit_body(s, i + 1, e, acc.push(s.at(i)));
    }
}

pub proof fn lemma_literal(s: Src, p: int, e: int)
    ensures
        literal(s, p, e) matches Ok((_, q)) ==> p < q <= e,
{
    lemma_skip_ws(s, p, e);
    lemma_lit_body(s, skip_ws(s, p, e) + 1, e, seq![]);
}

pub proof fn lemma_scan(s: Src, st: ScanState, e: int)
    ensures
        scan(s, st, e).i >= st.i,
        st.i <= e ==> scan(s, st, e).i <= e,
        st.open.len() > 0 && scan(s, st, e).open.len() == 0 ==> scan(s, st, e).i > st.i,
    decreases e - st.i,
{
    if st.open.len() == 0 || st.i >= e {
    } else {
        lemma_scan(s, scan_step(s, st), e);
    }
}

pub proof fn lemma_enclosed(s: Src, p: int, e: int)
    ensures
        enclosed(s, p, e) matches Ok((q, after)) ==> p <= q && q + 2 <= after <= e,
{
    lemma_skip_ws(s, p, e);
    let q = skip_ws(s, p, e);
    lemma_scan(s, ScanState { i: q + 1, prev: '(', quote: None, open: seq![q] }, e);
}

pub open spec fn close_paren(s: Src, p: int, e: int) -> PRes<Close<Seq<char>>>
    decreases e - p, 0int,
{
    match enclosed(s, p, e) {
        Err(m) => Err(m),
        Ok((q, after)) => {
            proof {
                lemma_enclosed(s, p, e);
            }
            match expr(s, q + 1, after - 1) {
                Err(m) => Err(m),
                Ok((x, _)) => Ok(
                    (
                        Close::Grouping(
                            Box::new(x),
                            tokens::Group { delim: tokens::Delimiter::Paren, span: s.span(q, after) },
                        ),
                        after,
                    ),
                ),
            }
        },
    }
}

/// A closed term: a parenthesised expression, a string literal or a variable.
pub open spec fn close(s: Src, p: int, e: int) -> PRes<Close<Seq<char>>>
    decreases e - p, 1int,
{
    match close_paren(s, p, e) {
        Ok(r) => Ok(r),
        Err(m1) => match literal(s, p, e) {
            Ok((l, q)) => Ok((Close::Literal(l), q)),
            Err(m2) => match var(s, p, e) {
                Ok((v, q)) => Ok((Close::Var(v), q)),
                Err(m3) => Err(further1(further1(m1, m2), m3)),
            },
        },
    }
}

/// Each alternative of a closed term consumes at least one character.
pub proof fn lemma_close_parts(s: Src, p: int, e: int)
    ensures
        enclosed(s, p, e) matches Ok((_, q)) ==> p < q <= e,
        literal(s, p, e) matches Ok((_, q)) ==> p < q <= e,
        var(s, p, e) matches Ok((_, q)) ==> p < q <= e,
{
    lemma_enclosed(s, p, e);
    lemma_literal(s, p, e);
    lemma_var(s, p, e);
}

/// Further closed terms of an application chain that began at `lo`.
///
/// The checks that a closed term moved forward never fail (see
/// `lemma_close`); they make the recursion visibly well-founded.
pub open spec fn appl_rest(s: Src, lo: int, p: int, e: int, root: Appl<Seq<char>>) -> PRes<Appl<Seq<char>>>
    decreases e - p, 2int,
{
    if blank(s, p, e) {
        Ok((root, p))
    } else {
        match close(s, p, e) {
            Err(m) => Err(m),
            Ok((c, q)) => if p < q <= e {
                appl_rest(
                    s,
                    lo,
                    q,
                    e,
                    Appl {
                        lhs: Close::Grouping(
                            Box::new(Expr::Appl(root)),
                            tokens::Group { delim: tokens::Delimiter::Synthetic, span: s.span(lo, q) },
                        ),
                        rhs: c,
                    },
                )
            } else {
                Err(fail(s.tok(q), ErrorKind::ExpectedExpression))
            },
        }
    }
}

/// Two or more closed terms, applied from the left.
pub open spec fn appl(s: Src, p: int, e: int) -> PRes<Appl<Seq<char>>>
    decreases e - p, 2int,
{
    match close(s, p, e) {
        Err(m) => Err(m),
        Ok((l, q1)) => if p < q1 <= e {
            match close(s, q1, e) {
                Err(m) => Err(m),
                Ok((r, q2)) => if q1 < q2 <= e {
                    appl_rest(s, p, q2, e, Appl { lhs: l, rhs: r })
                } else {
                    Err(fail(s.tok(q2), ErrorKind::ExpectedExpression))
                },
            }
        } else {
            Err(fail(s.tok(q1), ErrorKind::ExpectedExpression))
        },
    }
}

/// `\x. body` (or `λx. body`).
pub open spec fn lambda(s: Src, p: int, e: int) -> PRes<Lambda<Seq<char>>>
    decreases e - p, 2int,
{
    match punct(s, p, e, TokenKind::Lambda) {
        Err(m) => Err(m),
        Ok((lt, q1)) => match var(s, q1, e) {
            Err(m) => Err(m),
            Ok((v, q2)) => match punct(s, q2, e, TokenKind::Dot) {
                Err(m) => Err(m),
                Ok((dt, q3)) => {
                    proof {
                        lemma_punct(s, p, e, TokenKind::Lambda);
                        lemma_var(s, q1, e);
                        lemma_punct(s, q2, e, TokenKind::Dot);
                    }
                    match expr(s, q3, e) {
                        Err(m) => Err(m),
                        Ok((b, q4)) => Ok(
                            (
                                Lambda {
                                    lambda_token: tokens::Lambda { span: lt },
                                    var: v,
                                    dot_token: tokens::Dot { span: dt },
                                    expr: Box::new(b),
                                },
                                q4,
                            ),
                        ),
                    }
                },
            },
        },
    }
}

/// The close-term alternative of an expression: nothing but whitespace may follow it.
pub open spec fn lone_close(s: Src, q: int, e: int) -> PRes<Expr<Seq<char>>>
    decreases e - q, 2int,
{
    match close(s, q, e) {
        Err(m) => Err(m),
        Ok((c, q1)) => {
            let q2 = skip_ws(s, q1, e);
            if q2 >= e {
                Ok((Expr::Close(c), q2))
            } else {
                Err(fail(s.tok(q2), ErrorKind::UnexpectedTrailingInput))
            }
        },
    }
}

/// An expression: a lambda, else an application, else a single closed term.
pub open spec fn expr(s: Src, p: int, e: int) -> PRes<Expr<Seq<char>>>
    decreases e - p, 3int,
{
    let q = skip_ws(s, p, e);
    proof {
        lemma_skip_ws(s, p, e);
    }
    match lambda(s, q, e) {
        Ok((l, q1)) => Ok((Expr::Lambda(l), q1)),
        Err(m1) => match appl(s, q, e) {
            Ok((a, q1)) => Ok((Expr::Appl(a), q1)),
            Err(m2) => match lone_close(s, q, e) {
                Ok(r) => Ok(r),
                Err(m3) => Err(fail(further1(further1(m1, m2), m3).span, ErrorKind::ExpectedExpression)),
            },
        },
    }
}

/// A closed term that parses consumes at least one character and stays in its window.
pub proof fn lemma_close(s: Src, p: int, e: int)
    ensures
        close(s, p, e) matches Ok((_, q)) ==> p < q <= e,
{
    lemma_close_parts(s, p, e);
}

/// `name = value`
pub open spec fn macro_def(s: Src, p: int, e: int) -> PRes<Macro<Seq<char>>> {
    match var(s, p, e) {
        Err(m) => Err(m),
        Ok((name, q1)) => match punct(s, q1, e, TokenKind::Equal) {
            Err(m) => Err(m),
            Ok((eq, q2)) => match expr(s, q2, e) {
                Err(m) => Err(m),
                Ok((value, q3)) => Ok(
                    (Macro { name, eq_token: tokens::Equal { span: eq }, value }, q3),
                ),
            },
        },
    }
}

/// A macro definition, else an expression; nothing but whitespace may follow.
pub open spec fn stmt(s: Src, p: int, e: int) -> PRes<Stmt<Seq<char>>> {
    let r: PRes<Stmt<Seq<char>>> = match macro_def(s, p, e) {
        Ok((m, q)) => Ok((Stmt::Macro(m), q)),
        Err(_) => match expr(s, p, e) {
            Ok((x, q)) => Ok((Stmt::Expr(x), q)),
            Err(m) => Err(m),
        },
    };
    match r {
        Ok((st, q)) => if blank(s, q, e) {
            Ok((st, q))
        } else {
            Err(fail(s.span(q, e), ErrorKind::UnexpectedTrailingInput))
        },
        Err(m) => Err(m),
    }
}

/// One statement for each line of `[p, e)` that is not blank.
pub open spec fn program(s: Src, p: int, e: int) -> Result<Seq<Stmt<Seq<char>>>, ErrorMessage>
    decreases e - p,
{
    if p >= e {
        Ok(seq![])
    } else {
        let le = line_end(s, p, e);
        proof {
            lemma_line_end(s, p, e);
        }
        let rest: Result<Seq<Stmt<Seq<char>>>, ErrorMessage> = if le < e {
            program(s, le + 1, e)
        } else {
            Ok(seq![])
        };
        if blank(s, p, le) {
            rest
        } else {
            match stmt(s, p, le) {
                Err(m) => Err(m),
                Ok((st, _)) => match rest {
                    Err(m) => Err(m),
                    Ok(more) => Ok(seq![st] + more),
                },
            }
        }
    }
}

/// For single messages, keeping the failure that got further is `further1`.
pub proof fn lemma_further_single(a: ErrorMessage, b: ErrorMessage)
    ensures
        further(seq![a], seq![b]) == seq![further1(a, b)],
        cover(seq![a]) == a.span,
{
    assert(cover(seq![a]) == a.span);
    assert(cover(seq![b]) == b.span);
}

/// The characters at positions `[q, r)` form an identifier: a non-empty run
/// of alphabetic characters.
pub open spec fn ident_at(s: Src, q: int, r: int) -> bool {
    &&& s.base <= q < r <= s.hi()
    &&& forall|i: int| q <= i < r ==> alphabetic(#[trigger] s.at(i))
}

/// An identifier token spans exactly the bytes of its name.
pub open spec fn var_ok(s: Src, v: tokens::Var<Seq<char>>) -> bool {
    exists|q: int, r: int| {
        &&& ident_at(s, q, r)
        &&& v.span == s.span(q, r)
        &&& #[trigger] s.slice(q, r) == v.name
    }
}

/// Every identifier token of an expression spans exactly its name.
pub open spec fn expr_vars_ok(s: Src, x: Expr<Seq<char>>) -> bool
    decreases x,
{
    match x {
        Expr::Lambda(l) => var_ok(s, l.var) && expr_vars_ok(s, *l.expr),
        Expr::Close(c) => close_vars_ok(s, c),
        Expr::Appl(a) => close_vars_ok(s, a.lhs) && close_vars_ok(s, a.rhs),
    }
}

pub open spec fn close_vars_ok(s: Src, c: Close<Seq<char>>) -> bool
    decreases c,
{
    match c {
        Close::Grouping(x, _) => expr_vars_ok(s, *x),
        Close::Var(v) => var_ok(s, v),
        Close::Literal(_) => true,
    }
}

pub open spec fn stmt_vars_ok(s: Src, st: Stmt<Seq<char>>) -> bool {
    match st {
        Stmt::Macro(m) => var_ok(s, m.name) && expr_vars_ok(s, m.value),
        Stmt::Expr(x) => expr_vars_ok(s, x),
    }
}

proof fn lemma_alpha_run_chars(s: Src, p: int, e: int)
    ensures
        forall|i: int| p <= i < alpha_run(s, p, e) ==> alphabetic(#[trigger] s.at(i)),
    decreases e - p,
{
    if p < e && alphabetic(s.at(p)) {
        lemma_alpha_run_chars(s, p + 1, e);
    }
}

pub proof fn lemma_var_ok(s: Src, p: int, e: int)
    requires
        s.window(p, e),
    ensures
        var(s, p, e) matches Ok((v, q)) ==> var_ok(s, v) && p < q <= e,
{
    lemma_skip_ws(s, p, e);
    let q = skip_ws(s, p, e);
    lemma_alpha_run(s, q, e);
    lemma_alpha_run_chars(s, q, e);
    if let Ok((v, _)) = var(s, p, e) {
        let r = alpha_run(s, q, e);
        assert(ident_at(s, q, r));
        assert(s.slice(q, r) == v.name);
    }
}

proof fn lemma_close_paren_vars(s: Src, p: int, e: int)
    requires
        s.window(p, e),
    ensures
        close_paren(s, p, e) matches Ok((c, _)) ==> close_vars_ok(s, c),
    decreases e - p, 0int,
{
    lemma_enclosed(s, p, e);
    if let Ok((q, after)) = enclosed(s, p, e) {
        lemma_expr_vars(s, q + 1, after - 1);
    }
}

proof fn lemma_close_vars(s: Src, p: int, e: int)
    requires
        s.window(p, e),
    ensures
        close(s, p, e) matches Ok((c, _)) ==> close_vars_ok(s, c),
    decreases e - p, 1int,
{
    lemma_close_paren_vars(s, p, e);
    lemma_var_ok(s, p, e);
}

proof fn lemma_appl_rest_vars(s: Src, lo: int, p: int, e: int, root: Appl<Seq<char>>)
    requires
        s.window(p, e),
        close_vars_ok(s, root.lhs) && close_vars_ok(s, root.rhs),
    ensures
        appl_rest(s, lo, p, e, root) matches Ok((a, _)) ==> close_vars_ok(s, a.lhs) && close_vars_ok(s, a.rhs),
    decreases e - p, 2int,
{
    if !blank(s, p, e) {
        lemma_close_vars(s, p, e);
        lemma_close(s, p, e);
        if let Ok((c, q)) = close(s, p, e) {
            let next = Appl {
                lhs: Close::Grouping(
                    Box::new(Expr::Appl(root)),
                    tokens::Group { delim: tokens::Delimiter::Synthetic, span: s.span(lo, q) },
                ),
                rhs: c,
            };
            assert(close_vars_ok(s, next.lhs));
            lemma_appl_rest_vars(s, lo, q, e, next);
        }
    }
}

proof fn lemma_appl_vars(s: Src, p: int, e: int)
    requires
        s.window(p, e),
    ensures
        appl(s, p, e) matches Ok((a, _)) ==> close_vars_ok(s, a.lhs) && close_vars_ok(s, a.rhs),
    decreases e - p, 2int,
{
    lemma_close_vars(s, p, e);
    lemma_close(s, p, e);
    if let Ok((l, q1)) = close(s, p, e) {
        lemma_close_vars(s, q1, e);
        lemma_close(s, q1, e);
        if let Ok((r, q2)) = close(s, q1, e) {
            lemma_appl_rest_vars(s, p, q2, e, Appl { lhs: l, rhs: r });
        }
    }
}

proof fn lemma_lambda_vars(s: Src, p: int, e: int)
    requires
        s.window(p, e),
    ensures
        lambda(s, p, e) matches Ok((l, _)) ==> var_ok(s, l.var) && expr_vars_ok(s, *l.expr),
    decreases e - p, 2int,
{
    lemma_punct(s, p, e, TokenKind::Lambda);
    if let Ok((_, q1)) = punct(s, p, e, TokenKind::Lambda) {
        lemma_var_ok(s, q1, e);
        if let Ok((_, q2)) = var(s, q1, e) {
            lemma_punct(s, q2, e, TokenKind::Dot);
            if let Ok((_, q3)) = punct(s, q2, e, TokenKind::Dot) {
                lemma_expr_vars(s, q3, e);
            }
        }
    }
}

/// Every identifier token of a parsed expression spans exactly its name.
pub proof fn lemma_expr_vars(s: Src, p: int, e: int)
    requires
        s.window(p, e),
    ensures
        expr(s, p, e) matches Ok((x, _)) ==> expr_vars_ok(s, x),
    decreases e - p, 3int,
{
    lemma_skip_ws(s, p, e);
    let q = skip_ws(s, p, e);
    lemma_lambda_vars(s, q, e);
    lemma_appl_vars(s, q, e);
    lemma_close_vars(s, q, e);
}

pub proof fn lemma_stmt_vars(s: Src, p: int, e: int)
    requires
        s.window(p, e),
    ensures
        stmt(s, p, e) matches Ok((st, _)) ==> stmt_vars_ok(s, st),
{
    lemma_expr_vars(s, p, e);
    lemma_var_ok(s, p, e);
    if let Ok((_, q1)) = var(s, p, e) {
        lemma_punct(s, q1, e, TokenKind::Equal);
        if let Ok((_, q2)) = punct(s, q1, e, TokenKind::Equal) {
            lemma_expr_vars(s, q2, e);
        }
    }
}

/// Every identifier token of a parsed program spans exactly its name.
pub proof fn lemma_program_vars(s: Src, p: int, e: int)
    requires
        s.window(p, e),
    ensures
        program(s, p, e) matches Ok(v) ==> forall|i: int| 0 <= i < v.len() ==> stmt_vars_ok(s, #[trigger] v[i]),
    decreases e - p,
{
    if p < e {
        let le = line_end(s, p, e);
        lemma_line_end(s, p, e);
        if le < e {
            lemma_program_vars(s, le + 1, e);
        }
        if !blank(s, p, le) {
            lemma_stmt_vars(s, p, le);
            let rest: Result<Seq<Stmt<Seq<char>>>, ErrorMessage> = if le < e {
                program(s, le + 1, e)
            } else {
                Ok(seq![])
            };
            if let (Ok((st, _)), Ok(more)) = (stmt(s, p, le), rest) {
                assert forall|i: int| 0 <= i < (seq![st] + more).len() implies stmt_vars_ok(s, #[trigger] (seq![st] + more)[i]) by {
                    if i > 0 {
                        assert((seq![st] + more)[i] == more[i - 1]);
                    }
                }
            }
        }
    }
}

/// Byte offsets grow with character positions, by each character's length.
pub proof fn lemma_byte_order(s: Src, i: int, j: int)
    requires
        s.base <= i <= j <= s.hi(),
    ensures
        s.byte(i) + (j - i) <= s.byte(j),
        i < j ==> s.byte(i + 1) == s.byte(i) + utf8_len(s.at(i)),
{
    lemma_utf8_prefix(s.text, i - s.base, j - s.base);
}

/// `s1` and `s2` hold the same characters at the positions `[p, e)`, at the
/// same byte offsets (up to and including `e`).
pub open spec fn agree(s1: Src, s2: Src, p: int, e: int) -> bool {
    &&& forall|i: int| p <= i < e ==> #[trigger] s1.at(i) == s2.at(i)
    &&& forall|i: int| p <= i <= e ==> #[trigger] s1.byte(i) == s2.byte(i)
}

proof fn lemma_agree_slice(s1: Src, s2: Src, p: int, e: int, a: int, b: int)
    requires
        agree(s1, s2, p, e),
        p <= a <= b <= e,
        s1.base <= a,
        b <= s1.hi(),
        s2.base <= a,
        b <= s2.hi(),
    ensures
        s1.slice(a, b) == s2.slice(a, b),
{
    assert forall|j: int| 0 <= j < b - a implies s1.slice(a, b)[j] == s2.slice(a, b)[j] by {
        assert(s1.at(a + j) == s2.at(a + j));
    }
    assert(s1.slice(a, b) =~= s2.slice(a, b));
}

proof fn lemma_skip_local(s1: Src, s2: Src, p: int, e: int, q: int)
    requires
        agree(s1, s2, p, e),
        p <= q,
    ensures
        skip_ws(s1, q, e) == skip_ws(s2, q, e),
        alpha_run(s1, q, e) == alpha_run(s2, q, e),
        line_end(s1, q, e) == line_end(s2, q, e),
    decreases e - q,
{
    if q < e {
        assert(s1.at(q) == s2.at(q));
        lemma_skip_local(s1, s2, p, e, q + 1);
    }
}

proof fn lemma_lit_body_local(s1: Src, s2: Src, p: int, e: int, i: int, acc: Seq<char>)
    requires
        agree(s1, s2, p, e),
        p <= i <= e,
    ensures
        lit_body(s1, i, e, acc) == lit_body(s2, i, e, acc),
    decreases e - i,
{
    if i < e {
        assert(s1.at(i) == s2.at(i));
        if s1.at(i) == '\\' {
            if i + 1 < e {
                assert(s1.at(i + 1) == s2.at(i + 1));
                lemma_lit_body_local(s1, s2, p, e, i + 2, acc.push(s1.at(i + 1)));
            }
        } else if s1.at(i) != '"' {
            lemma_lit_body_local(s1, s2, p, e, i + 1, acc.push(s1.at(i)));
        }
    }
}

proof fn lemma_scan_local(s1: Src, s2: Src, p: int, e: int, st: ScanState)
    requires
        agree(s1, s2, p, e),
        p <= st.i,
    ensures
        scan(s1, st, e) == scan(s2, st, e),
    decreases e - st.i,
{
    if st.open.len() > 0 && st.i < e {
        assert(s1.at(st.i) == s2.at(st.i));
        assert(scan_step(s1, st) == scan_step(s2, st));
        lemma_scan_local(s1, s2, p, e, scan_step(s1, st));
    }
}

/// The scan records only positions it has passed.
proof fn lemma_scan_range(s: Src, st: ScanState, p: int, e: int)
    requires
        p <= st.i <= e,
        forall|j: int| 0 <= j < st.open.len() ==> p <= #[trigger] st.open[j] < st.i,
        st.quote matches Some(x) ==> p <= x < st.i,
    ensures
        forall|j: int| 0 <= j < scan(s, st, e).open.len() ==> p <= #[trigger] scan(s, st, e).open[j] < e,
        scan(s, st, e).quote matches Some(x) ==> p <= x < e,
    decreases e - st.i,
{
    if st.open.len() > 0 && st.i < e {
        let nx = scan_step(s, st);
        assert forall|j: int| 0 <= j < nx.open.len() implies p <= #[trigger] nx.open[j] < nx.i by {
            if st.quote is None && s.at(st.i) == '(' && j == st.open.len() {
            } else {
                assert(nx.open[j] == st.open[j]);
            }
        }
        lemma_scan_range(s, nx, p, e);
    } else {
        if st.open.len() > 0 {
            assert(st.open[0] < st.i);
        }
    }
}

/// The token rules read nothing outside their window.
proof fn lemma_tokens_local(s1: Src, s2: Src, p: int, e: int, q: int)
    requires
        agree(s1, s2, p, e),
        s1.window(q, e),
        s2.window(q, e),
        p <= q,
    ensures
        forall|k: TokenKind| #[trigger] punct(s1, q, e, k) == punct(s2, q, e, k),
        var(s1, q, e) == var(s2, q, e),
        literal(s1, q, e) == literal(s2, q, e),
        enclosed(s1, q, e) == enclosed(s2, q, e),
{
    lemma_skip_local(s1, s2, p, e, q);
    let r = skip_ws(s1, q, e);
    lemma_skip_ws(s1, q, e);
    lemma_skip_local(s1, s2, p, e, r);
    lemma_alpha_run(s1, r, e);
    lemma_agree_slice(s1, s2, p, e, r, alpha_run(s1, r, e));
    if r < e {
        assert(s1.at(r) == s2.at(r));
    }
    if r < e {
        lemma_lit_body_local(s1, s2, p, e, r + 1, seq![]);
        let st = ScanState { i: r + 1, prev: '(', quote: None, open: seq![r] };
        lemma_scan_local(s1, s2, p, e, st);
        lemma_scan_range(s1, st, p, e);
        let fin = scan(s1, st, e);
        if fin.quote is Some {
            assert(s1.byte(fin.quote->0) == s2.byte(fin.quote->0));
        }
        if fin.open.len() > 0 {
            assert(s1.byte(fin.open.last()) == s2.byte(fin.open.last()));
        }
    }
}

proof fn lemma_close_paren_local(s1: Src, s2: Src, p: int, q: int, e: int)
    requires
        agree(s1, s2, p, e),
        s1.window(q, e),
        s2.window(q, e),
        p <= q,
    ensures
        close_paren(s1, q, e) == close_paren(s2, q, e),
    decreases e - q, 0int,
{
    lemma_tokens_local(s1, s2, p, e, q);
    lemma_enclosed(s1, q, e);
    if let Ok((o, after)) = enclosed(s1, q, e) {
        assert(agree(s1, s2, o + 1, after - 1));
        lemma_expr_local(s1, s2, o + 1, o + 1, after - 1);
    }
}

proof fn lemma_close_local(s1: Src, s2: Src, p: int, q: int, e: int)
    requires
        agree(s1, s2, p, e),
        s1.window(q, e),
        s2.window(q, e),
        p <= q,
    ensures
        close(s1, q, e) == close(s2, q, e),
    decreases e - q, 1int,
{
    lemma_close_paren_local(s1, s2, p, q, e);
    lemma_tokens_local(s1, s2, p, e, q);
}

proof fn lemma_appl_rest_local(s1: Src, s2: Src, p: int, lo: int, q: int, e: int, root: Appl<Seq<char>>)
    requires
        agree(s1, s2, p, e),
        s1.window(q, e),
        s2.window(q, e),
        p <= lo <= q,
    ensures
        appl_rest(s1, lo, q, e, root) == appl_rest(s2, lo, q, e, root),
    decreases e - q, 2int,
{
    lemma_skip_local(s1, s2, p, e, q);
    if !blank(s1, q, e) {
        lemma_close_local(s1, s2, p, q, e);
        lemma_close(s1, q, e);
        if let Ok((c, r)) = close(s1, q, e) {
            assert(s1.span(lo, r) == s2.span(lo, r));
            let next = Appl {
                lhs: Close::Grouping(
                    Box::new(Expr::Appl(root)),
                    tokens::Group { delim: tokens::Delimiter::Synthetic, span: s1.span(lo, r) },
                ),
                rhs: c,
            };
            lemma_appl_rest_local(s1, s2, p, lo, r, e, next);
        }
    }
}

proof fn lemma_appl_local(s1: Src, s2: Src, p: int, q: int, e: int)
    requires
        agree(s1, s2, p, e),
        s1.window(q, e),
        s2.window(q, e),
        p <= q,
    ensures
        appl(s1, q, e) == appl(s2, q, e),
    decreases e - q, 2int,
{
    lemma_close_local(s1, s2, p, q, e);
    lemma_close(s1, q, e);
    if let Ok((l, q1)) = close(s1, q, e) {
        lemma_close_local(s1, s2, p, q1, e);
        lemma_close(s1, q1, e);
        if let Ok((r, q2)) = close(s1, q1, e) {
            lemma_appl_rest_local(s1, s2, p, q, q2, e, Appl { lhs: l, rhs: r });
        }
    }
}

proof fn lemma_lambda_local(s1: Src, s2: Src, p: int, q: int, e: int)
    requires
        agree(s1, s2, p, e),
        s1.window(q, e),
        s2.window(q, e),
        p <= q,
    ensures
        lambda(s1, q, e) == lambda(s2, q, e),
    decreases e - q, 2int,
{
    lemma_tokens_local(s1, s2, p, e, q);
    lemma_punct(s1, q, e, TokenKind::Lambda);
    if let Ok((_, q1)) = punct(s1, q, e, TokenKind::Lambda) {
        lemma_tokens_local(s1, s2, p, e, q1);
        lemma_var(s1, q1, e);
        if let Ok((_, q2)) = var(s1, q1, e) {
            lemma_tokens_local(s1, s2, p, e, q2);
            lemma_punct(s1, q2, e, TokenKind::Dot);
            if let Ok((_, q3)) = punct(s1, q2, e, TokenKind::Dot) {
                lemma_expr_local(s1, s2, p, q3, e);
            }
        }
    }
}

/// The expression rule reads nothing outside its window: on two texts that
/// agree there (characters and byte offsets), it gives the same result.
pub proof fn lemma_expr_local(s1: Src, s2: Src, p: int, q: int, e: int)
    requires
        agree(s1, s2, p, e),
        s1.window(q, e),
        s2.window(q, e),
        p <= q,
    ensures
        expr(s1, q, e) == expr(s2, q, e),
    decreases e - q, 3int,
{
    lemma_skip_local(s1, s2, p, e, q);
    lemma_skip_ws(s1, q, e);
    let r = skip_ws(s1, q, e);
    lemma_lambda_local(s1, s2, p, r, e);
    lemma_appl_local(s1, s2, p, r, e);
    lemma_close_local(s1, s2, p, r, e);
    lemma_close(s1, r, e);
    if let Ok((_, r1)) = close(s1, r, e) {
        lemma_skip_local(s1, s2, p, e, r1);
        lemma_skip_ws(s1, r1, e);
        let r2 = skip_ws(s1, r1, e);
        if r2 < e {
            assert(s1.byte(r2) == s2.byte(r2));
        }
    }
}

} // verus!
