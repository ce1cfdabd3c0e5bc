use vstd::prelude::*;
use std::rc::Rc;
use crate::span::Span;
use crate::parser::ast;
use crate::parser::error::{Error, ErrorKind, ErrorMessage};
use crate::parser::grammar::{self, fail, Src, expr_vars_ok, close_vars_ok, stmt_vars_ok, ident_at};
use crate::utils::{alphabetic, utf8_total, lemma_utf8_prefix};
use crate::parser::parse_stream::ParseStream;
use crate::interpreter::Executable;
use crate::interpreter::{Expr, Macro};

verus! {

/// The distinct contents of the string literals of a session, each held once
/// and shared by every literal with that content. Entries are never removed.
pub struct LiteralSet {
    pub items: Vec<Rc<String>>,
}

/// The position of the literal with content `c` in `items`, if there is one.
pub open spec fn lit_index(items: Seq<Rc<String>>, c: Seq<char>) -> Option<int>
    decreases items.len(),
{
    if items.len() == 0 {
        None
    } else if items.last()@ == c {
        Some(items.len() - 1)
    } else {
        lit_index(items.drop_last(), c)
    }
}

pub proof fn lemma_lit_index(items: Seq<Rc<String>>, c: Seq<char>)
    ensures
        lit_index(items, c) matches Some(i) ==> 0 <= i < items.len() && items[i]@ == c,
        lit_index(items, c) is None <==> (forall|i: int| 0 <= i < items.len() ==> items[i]@ != c),
    decreases items.len(),
{
    if items.len() > 0 {
        lemma_lit_index(items.drop_last(), c);
        if items.last()@ != c {
            assert forall|i: int| 0 <= i < items.len() - 1 implies items[i] == items.drop_last()[i] by {}
        }
    }
}

impl LiteralSet {
    /// The contents held.
    pub open spec fn contents(&self) -> Set<Seq<char>> {
        Set::new(|c: Seq<char>| exists|i: int| 0 <= i < self.items@.len() && self.items@[i]@ == c)
    }

    /// No content is held twice.
    pub open spec fn wf(&self) -> bool {
        forall|i: int, j: int|
            0 <= i < j < self.items@.len() ==> self.items@[i]@ != self.items@[j]@
    }

    pub fn new() -> (r: LiteralSet)
        ensures
            r.wf(),
            r.items@.len() == 0,
    {
        LiteralSet { items: Vec::new() }
    }

    pub fn len(&self) -> (r: usize)
        ensures
            r == self.items@.len(),
    {
        self.items.len()
    }

    /// The shared literal with content `content`, if it is held.
    pub fn get(&self, content: &String) -> (r: Option<Rc<String>>)
        ensures
            match lit_index(self.items@, content@) {
                Some(i) => r == Some(self.items@[i]),
                None => r is None,
            },
    {
        let mut i = self.items.len();
        assert(self.items@.take(i as int) =~= self.items@);
        while i > 0
            invariant
                i <= self.items@.len(),
                lit_index(self.items@.take(i as int), content@) == lit_index(self.items@, content@),
            decreases i,
        {
            if *self.items[i - 1] == *content {
                assert(lit_index(self.items@.take(i as int), content@) == Some(i - 1));
                return Some(self.items[i - 1].clone());
            }
            assert(self.items@.take(i as int).drop_last() =~= self.items@.take(i - 1));
            i = i - 1;
        }
        None
    }

    /// Adds `content` unless it is already held; nothing held is changed.
    pub fn insert(&mut self, content: &String)
        requires
            old(self).wf(),
        ensures
            final(self).wf(),
            final(self).contents() == old(self).contents().insert(content@),
            old(self).items@.is_prefix_of(final(self).items@),
    {
        proof {
            lemma_lit_index(self.items@, content@);
        }
        match self.get(content) {
            Some(_) => {
                assert(self.contents() =~= old(self).contents().insert(content@));
            },
            None => {
                self.items.push(Rc::new(content.clone()));
                assert(self.contents() =~= old(self).contents().insert(content@)) by {
                    assert(self.items@.last()@ == content@);
                    assert forall|c: Seq<char>| old(self).contents().contains(c) implies self.contents().contains(c) by {
                        let i = choose|i: int| 0 <= i < old(self).items@.len() && old(self).items@[i]@ == c;
                        assert(self.items@[i] == old(self).items@[i]);
                    }
                    assert forall|c: Seq<char>| #[trigger] self.contents().contains(c) implies old(self).contents().insert(content@).contains(c) by {
                        let i = choose|i: int| 0 <= i < self.items@.len() && self.items@[i]@ == c;
                        if i < old(self).items@.len() {
                            assert(self.items@[i] == old(self).items@[i]);
                        }
                    }
                }
                assert(old(self).items@.is_prefix_of(self.items@)) by {
                    assert(self.items@.take(old(self).items@.len() as int) =~= old(self).items@);
                }
            },
        }
    }
}

impl Clone for LiteralSet {
    /// A pool that shares every entry of this one.
    fn clone(&self) -> (r: LiteralSet)
        ensures
            r.items@ == self.items@,
    {
        let mut items: Vec<Rc<String>> = Vec::new();
        let mut i: usize = 0;
        while i < self.items.len()
            invariant
                i <= self.items@.len(),
                items@ == self.items@.take(i as int),
            decreases self.items@.len() - i,
        {
            items.push(self.items[i].clone());
            assert(items@ =~= self.items@.take(i + 1));
            i = i + 1;
        }
        assert(items@ =~= self.items@);
        LiteralSet { items }
    }
}

/// The definitions of a session, latest last: a name means its latest
/// definition. Entries are never removed or changed.
pub struct MacroTable {
    pub entries: Vec<Rc<Macro>>,
}

/// The latest definition of `name` in `entries`.
pub open spec fn lookup(entries: Seq<Rc<Macro>>, name: Seq<char>) -> Option<Rc<Macro>>
    decreases entries.len(),
{
    if entries.len() == 0 {
        None
    } else if entries.last().name@ == name {
        Some(entries.last())
    } else {
        lookup(entries.drop_last(), name)
    }
}

impl MacroTable {
    /// The names that have a definition.
    pub open spec fn names(&self) -> Set<Seq<char>> {
        Set::new(|n: Seq<char>| lookup(self.entries@, n) is Some)
    }

    pub fn new() -> (r: MacroTable)
        ensures
            r.entries@.len() == 0,
    {
        MacroTable { entries: Vec::new() }
    }

    pub fn len(&self) -> (r: usize)
        ensures
            r == self.entries@.len(),
    {
        self.entries.len()
    }

    /// The latest definition of `name`.
    pub fn get(&self, name: &String) -> (r: Option<Rc<Macro>>)
        ensures
            r == lookup(self.entries@, name@),
    {
        let mut i = self.entries.len();
        assert(self.entries@.take(i as int) =~= self.entries@);
        while i > 0
            invariant
                i <= self.entries@.len(),
                lookup(self.entries@.take(i as int), name@) == lookup(self.entries@, name@),
            decreases i,
        {
            if self.entries[i - 1].name == *name {
                assert(lookup(self.entries@.take(i as int), name@) == Some(self.entries@[i - 1]));
                return Some(self.entries[i - 1].clone());
            }
            assert(self.entries@.take(i as int).drop_last() =~= self.entries@.take(i - 1));
            i = i - 1;
        }
        None
    }

    /// Makes `m` the definition of its name; earlier definitions stay for
    /// whatever already refers to them.
    pub fn insert(&mut self, m: Rc<Macro>)
        ensures
            final(self).entries@ == old(self).entries@.push(m),
    {
        self.entries.push(m);
    }
}

/// The contents of the string literals of an expression.
pub open spec fn expr_lits(e: ast::Expr<Seq<char>>) -> Set<Seq<char>>
    decreases e,
{
    match e {
        ast::Expr::Lambda(l) => expr_lits(*l.expr),
        ast::Expr::Close(c) => close_lits(c),
        ast::Expr::Appl(a) => close_lits(a.lhs) + close_lits(a.rhs),
    }
}

pub open spec fn close_lits(c: ast::Close<Seq<char>>) -> Set<Seq<char>>
    decreases c,
{
    match c {
        ast::Close::Grouping(e, _) => expr_lits(*e),
        ast::Close::Var(_) => Set::empty(),
        ast::Close::Literal(l) => set![l.content],
    }
}

/// The expression of a statement: a macro's value, or the statement itself.
pub open spec fn stmt_expr(st: ast::Stmt<Seq<char>>) -> ast::Expr<Seq<char>> {
    match st {
        ast::Stmt::Macro(m) => m.value,
        ast::Stmt::Expr(x) => x,
    }
}

/// The contents of the string literals of a list of statements.
pub open spec fn stmts_lits(v: Seq<ast::Stmt<Seq<char>>>) -> Set<Seq<char>>
    decreases v.len(),
{
    if v.len() == 0 {
        Set::empty()
    } else {
        stmts_lits(v.drop_last()) + expr_lits(stmt_expr(v.last()))
    }
}

fn alloc_close_literals(close: &ast::Close, literals: &mut LiteralSet)
    requires
        old(literals).wf(),
    ensures
        final(literals).wf(),
        final(literals).contents() == old(literals).contents() + close_lits(close@),
        old(literals).items@.is_prefix_of(final(literals).items@),
    decreases close,
{
    match close {
        ast::Close::Grouping(e, _) => alloc_expr_literals(e, literals),
        ast::Close::Literal(lit) => {
            literals.insert(&lit.content);
            assert(literals.contents() =~= old(literals).contents() + close_lits(close@));
        },
        ast::Close::Var(_) => {
            assert(literals.contents() =~= old(literals).contents() + close_lits(close@));
        },
    }
}

fn alloc_expr_literals(expr: &ast::Expr, literals: &mut LiteralSet)
    requires
        old(literals).wf(),
    ensures
        final(literals).wf(),
        final(literals).contents() == old(literals).contents() + expr_lits(expr@),
        old(literals).items@.is_prefix_of(final(literals).items@),
    decreases expr,
{
    match expr {
        ast::Expr::Lambda(l) => alloc_expr_literals(&l.expr, literals),
        ast::Expr::Close(c) => alloc_close_literals(c, literals),
        ast::Expr::Appl(a) => {
            alloc_close_literals(&a.lhs, literals);
            alloc_close_literals(&a.rhs, literals);
            assert(literals.contents() =~= old(literals).contents() + expr_lits(expr@));
        },
    }
}

/// Adds the contents of the literals of `stmt` to the pool.
pub fn alloc_stmt_literals(stmt: &ast::Stmt, literals: &mut LiteralSet)
    requires
        old(literals).wf(),
    ensures
        final(literals).wf(),
        final(literals).contents() == old(literals).contents() + expr_lits(stmt_expr(stmt@)),
        old(literals).items@.is_prefix_of(final(literals).items@),
{
    match stmt {
        ast::Stmt::Macro(m) => alloc_expr_literals(&m.value, literals),
        ast::Stmt::Expr(x) => alloc_expr_literals(x, literals),
    }
}

/// The pool of every literal of a program.
pub fn alloc_prog_literals(prog: &ast::Program) -> (r: LiteralSet)
    ensures
        r.wf(),
        r.contents() == stmts_lits(prog@),
{
    let mut literals = LiteralSet::new();
    assert(literals.contents() =~= Set::empty());
    let mut i: usize = 0;
    while i < prog.stmts.len()
        invariant
            i <= prog.stmts@.len(),
            literals.wf(),
            literals.contents() == stmts_lits(prog@.take(i as int)),
        decreases prog.stmts@.len() - i,
    {
        alloc_stmt_literals(&prog.stmts[i], &mut literals);
        assert(prog@.take(i + 1).drop_last() =~= prog@.take(i as int));
        i = i + 1;
    }
    assert(prog@.take(i as int) =~= prog@);
    literals
}

/// The innermost position of `name` in the scope, if it is bound.
pub open spec fn scope_index(scope: Seq<Seq<char>>, name: Seq<char>) -> Option<int>
    decreases scope.len(),
{
    if scope.len() == 0 {
        None
    } else if scope.last() == name {
        Some(scope.len() - 1)
    } else {
        scope_index(scope.drop_last(), name)
    }
}

/// The compiled form of `e` under the bound names `scope`: a bound name
/// becomes the position of its binder, a free one the latest macro of that
/// name, a literal the pool's entry.
pub open spec fn compile(
    e: ast::Expr<Seq<char>>,
    scope: Seq<Seq<char>>,
    lits: Seq<Rc<String>>,
    macs: Seq<Rc<Macro>>,
) -> Result<Expr, ErrorMessage>
    decreases e,
{
    match e {
        ast::Expr::Lambda(l) => match compile(*l.expr, scope.push(l.var.name), lits, macs) {
            Ok(body) => Ok(Expr::Lambda { param: scope.len() as usize, expr: Box::new(body) }),
            Err(m) => Err(m),
        },
        ast::Expr::Close(c) => compile_close(c, scope, lits, macs),
        ast::Expr::Appl(a) => match compile_close(a.lhs, scope, lits, macs) {
            Err(m) => Err(m),
            Ok(f) => match compile_close(a.rhs, scope, lits, macs) {
                Err(m) => Err(m),
                Ok(arg) => Ok(Expr::Appl { f: Box::new(f), arg: Box::new(arg) }),
            },
        },
    }
}

pub open spec fn compile_close(
    c: ast::Close<Seq<char>>,
    scope: Seq<Seq<char>>,
    lits: Seq<Rc<String>>,
    macs: Seq<Rc<Macro>>,
) -> Result<Expr, ErrorMessage>
    decreases c,
{
    match c {
        ast::Close::Grouping(e, _) => compile(*e, scope, lits, macs),
        ast::Close::Var(v) => match scope_index(scope, v.name) {
            Some(i) => Ok(Expr::Var(i as usize)),
            None => match lookup(macs, v.name) {
                Some(m) => Ok(Expr::MacroRef(m)),
                None => Err(fail(v.span, ErrorKind::UndeclaredName)),
            },
        },
        ast::Close::Literal(l) => match lit_index(lits, l.content) {
            Some(i) => Ok(Expr::Literal(lits[i])),
            None => Ok(Expr::Nothing),
        },
    }
}

/// `r` is what the compilation gives (`g`).
pub open spec fn compiles_to(r: Result<Expr, Error>, g: Result<Expr, ErrorMessage>) -> bool {
    match (r, g) {
        (Ok(x), Ok(y)) => x == y,
        (Err(e), Err(m)) => e@ == seq![m],
        _ => false,
    }
}

/// Resolves names while it walks a syntax tree.
pub struct Compiler<'a> {
    pub literals: &'a LiteralSet,
    pub macros: &'a MacroTable,
    /// The names bound by the enclosing lambdas, outermost first.
    pub var_name_to_id: Vec<String>,
}

impl<'a> Compiler<'a> {
    pub open spec fn scope(&self) -> Seq<Seq<char>> {
        self.var_name_to_id@.map_values(|s: String| s@)
    }

    pub fn new(literals: &'a LiteralSet, macros: &'a MacroTable) -> (r: Compiler<'a>)
        ensures
            r.literals == literals,
            r.macros == macros,
            r.scope() == Seq::<Seq<char>>::empty(),
    {
        let r = Compiler { literals, macros, var_name_to_id: Vec::new() };
        assert(r.scope() =~= Seq::<Seq<char>>::empty());
        r
    }

    /// The innermost binder of `name`.
    fn find_var(&self, name: &String) -> (r: Option<usize>)
        ensures
            match scope_index(self.scope(), name@) {
                Some(i) => r == Some(i as usize),
                None => r is None,
            },
    {
        let mut i = self.var_name_to_id.len();
        assert(self.scope().take(i as int) =~= self.scope());
        while i > 0
            invariant
                i <= self.var_name_to_id@.len(),
                scope_index(self.scope().take(i as int), name@) == scope_index(self.scope(), name@),
            decreases i,
        {
            if self.var_name_to_id[i - 1] == *name {
                assert(scope_index(self.scope().take(i as int), name@) == Some(i - 1));
                return Some(i - 1);
            }
            assert(self.scope().take(i as int).drop_last() =~= self.scope().take(i - 1));
            i = i - 1;
        }
        None
    }

    pub fn compile_expr(&mut self, expr: &ast::Expr) -> (r: Result<Expr, Error>)
        requires
            expr_lits(expr@).subset_of(old(self).literals.contents()),
        ensures
            final(self).literals == old(self).literals,
            final(self).macros == old(self).macros,
            final(self).var_name_to_id@ == old(self).var_name_to_id@,
            compiles_to(r, compile(expr@, old(self).scope(), old(self).literals.items@, old(self).macros.entries@)),
        decreases expr,
    {
        match expr {
            ast::Expr::Lambda(lambda) => {
                let param = self.var_name_to_id.len();
                self.var_name_to_id.push(lambda.var.name.clone());
                assert(self.scope() =~= old(self).scope().push(lambda.var.name@));
                let body = self.compile_expr(&lambda.expr);
                self.var_name_to_id.pop();
                assert(self.var_name_to_id@ =~= old(self).var_name_to_id@);
                match body {
                    Ok(b) => Ok(Expr::Lambda { param, expr: Box::new(b) }),
                    Err(e) => Err(e),
                }
            },
            ast::Expr::Close(close) => self.compile_close(close),
            ast::Expr::Appl(appl) => {
                let f = match self.compile_close(&appl.lhs) {
                    Ok(f) => f,
                    Err(e) => return Err(e),
                };
                let arg = match self.compile_close(&appl.rhs) {
                    Ok(a) => a,
                    Err(e) => return Err(e),
                };
                Ok(Expr::Appl { f: Box::new(f), arg: Box::new(arg) })
            },
        }
    }

    pub fn compile_close(&mut self, close: &ast::Close) -> (r: Result<Expr, Error>)
        requires
            close_lits(close@).subset_of(old(self).literals.contents()),
        ensures
            final(self).literals == old(self).literals,
            final(self).macros == old(self).macros,
            final(self).var_name_to_id@ == old(self).var_name_to_id@,
            compiles_to(r, compile_close(close@, old(self).scope(), old(self).literals.items@, old(self).macros.entries@)),
        decreases close,
    {
        match close {
            ast::Close::Grouping(e, _) => self.compile_expr(e),
            ast::Close::Var(var) => match self.find_var(&var.name) {
                Some(id) => Ok(Expr::Var(id)),
                None => match self.macros.get(&var.name) {
                    Some(m) => Ok(Expr::MacroRef(m)),
                    None => Err(Error::new(var.span, ErrorKind::UndeclaredName)),
                },
            },
            ast::Close::Literal(lit) => match self.literals.get(&lit.content) {
                Some(s) => Ok(Expr::Literal(s)),
                None => Ok(Expr::Nothing),
            },
        }
    }
}

/// The names that have a definition in `macs`.
pub open spec fn defined_names(macs: Seq<Rc<Macro>>) -> Set<Seq<char>> {
    Set::new(|n: Seq<char>| lookup(macs, n) is Some)
}

/// The first reference in `e`, in the order of compilation, to a name that no
/// enclosing lambda binds (`scope`) and no macro defines (`defined`).
pub open spec fn first_undeclared(e: ast::Expr<Seq<char>>, scope: Seq<Seq<char>>, defined: Set<Seq<char>>) -> Option<Span>
    decreases e,
{
    match e {
        ast::Expr::Lambda(l) => first_undeclared(*l.expr, scope.push(l.var.name), defined),
        ast::Expr::Close(c) => close_undeclared(c, scope, defined),
        ast::Expr::Appl(a) => match close_undeclared(a.lhs, scope, defined) {
            Some(sp) => Some(sp),
            None => close_undeclared(a.rhs, scope, defined),
        },
    }
}

pub open spec fn close_undeclared(c: ast::Close<Seq<char>>, scope: Seq<Seq<char>>, defined: Set<Seq<char>>) -> Option<Span>
    decreases c,
{
    match c {
        ast::Close::Grouping(e, _) => first_undeclared(*e, scope, defined),
        ast::Close::Var(v) => if scope_index(scope, v.name) is None && !defined.contains(v.name) {
            Some(v.span)
        } else {
            None
        },
        ast::Close::Literal(_) => None,
    }
}

/// Compilation fails exactly at the first undeclared reference.
pub proof fn lemma_compile_undeclared(e: ast::Expr<Seq<char>>, scope: Seq<Seq<char>>, lits: Seq<Rc<String>>, macs: Seq<Rc<Macro>>)
    ensures
        compile(e, scope, lits, macs) is Err <==> first_undeclared(e, scope, defined_names(macs)) is Some,
        compile(e, scope, lits, macs) matches Err(m) ==> m == fail(first_undeclared(e, scope, defined_names(macs))->0, ErrorKind::UndeclaredName),
    decreases e,
{
    match e {
        ast::Expr::Lambda(l) => lemma_compile_undeclared(*l.expr, scope.push(l.var.name), lits, macs),
        ast::Expr::Close(c) => lemma_close_undeclared(c, scope, lits, macs),
        ast::Expr::Appl(a) => {
            lemma_close_undeclared(a.lhs, scope, lits, macs);
            lemma_close_undeclared(a.rhs, scope, lits, macs);
        },
    }
}

pub proof fn lemma_close_undeclared(c: ast::Close<Seq<char>>, scope: Seq<Seq<char>>, lits: Seq<Rc<String>>, macs: Seq<Rc<Macro>>)
    ensures
        compile_close(c, scope, lits, macs) is Err <==> close_undeclared(c, scope, defined_names(macs)) is Some,
        compile_close(c, scope, lits, macs) matches Err(m) ==> m == fail(close_undeclared(c, scope, defined_names(macs))->0, ErrorKind::UndeclaredName),
    decreases c,
{
    match c {
        ast::Close::Grouping(e, _) => lemma_compile_undeclared(*e, scope, lits, macs),
        ast::Close::Var(v) => {
            assert(defined_names(macs).contains(v.name) == (lookup(macs, v.name) is Some));
        },
        ast::Close::Literal(_) => {},
    }
}

/// The first undeclared reference of an expression whose identifier tokens
/// span their names is a non-empty run of alphabetic characters of the
/// text, and that name is not defined.
pub proof fn lemma_undeclared_is_identifier(s: Src, x: ast::Expr<Seq<char>>, scope: Seq<Seq<char>>, d: Set<Seq<char>>)
    requires
        expr_vars_ok(s, x),
    ensures
        first_undeclared(x, scope, d) matches Some(sp) ==> exists|q: int, r: int| {
            &&& ident_at(s, q, r)
            &&& sp == s.span(q, r)
            &&& !d.contains(#[trigger] s.slice(q, r))
        },
    decreases x,
{
    match x {
        ast::Expr::Lambda(l) => lemma_undeclared_is_identifier(s, *l.expr, scope.push(l.var.name), d),
        ast::Expr::Close(c) => lemma_close_undeclared_is_identifier(s, c, scope, d),
        ast::Expr::Appl(a) => {
            lemma_close_undeclared_is_identifier(s, a.lhs, scope, d);
            lemma_close_undeclared_is_identifier(s, a.rhs, scope, d);
        },
    }
}

pub proof fn lemma_close_undeclared_is_identifier(s: Src, c: ast::Close<Seq<char>>, scope: Seq<Seq<char>>, d: Set<Seq<char>>)
    requires
        close_vars_ok(s, c),
    ensures
        close_undeclared(c, scope, d) matches Some(sp) ==> exists|q: int, r: int| {
            &&& ident_at(s, q, r)
            &&& sp == s.span(q, r)
            &&& !d.contains(#[trigger] s.slice(q, r))
        },
    decreases c,
{
    match c {
        ast::Close::Grouping(x, _) => lemma_undeclared_is_identifier(s, *x, scope, d),
        _ => {},
    }
}

proof fn lemma_stmts_undeclared_is_identifier(s: Src, v: Seq<ast::Stmt<Seq<char>>>, d: Set<Seq<char>>)
    requires
        forall|i: int| 0 <= i < v.len() ==> stmt_vars_ok(s, #[trigger] v[i]),
    ensures
        stmts_undeclared(v, d) matches Some(sp) ==> exists|q: int, r: int| {
            &&& #[trigger] ident_at(s, q, r)
            &&& sp == s.span(q, r)
        },
    decreases v.len(),
{
    if v.len() > 0 {
        assert(stmt_vars_ok(s, v[0]));
        lemma_undeclared_is_identifier(s, stmt_expr(v[0]), seq![], d);
        let d2 = match v[0] {
            ast::Stmt::Macro(m) => d.insert(m.name.name),
            ast::Stmt::Expr(_) => d,
        };
        assert forall|i: int| 0 <= i < v.drop_first().len() implies stmt_vars_ok(s, #[trigger] v.drop_first()[i]) by {
            assert(v.drop_first()[i] == v[i + 1]);
        }
        lemma_stmts_undeclared_is_identifier(s, v.drop_first(), d2);
    }
}

/// When a program refers to a name that nothing binds, the span that
/// `compile_program` reports for it covers exactly the bytes of that
/// identifier: a non-empty run of alphabetic characters of the source.
pub proof fn lemma_undeclared_span_is_identifier(text: Seq<char>)
    requires
        utf8_total(text) + 1 < usize::MAX,
    ensures
        grammar::program(Src { text, base: 0, origin: 0 }, 0, text.len() as int) matches Ok(v) ==> (
        stmts_undeclared(v, Set::empty()) matches Some(sp) ==> exists|q: int, r: int| {
            &&& 0 <= q < r <= text.len()
            &&& (forall|i: int| q <= i < r ==> alphabetic(#[trigger] text[i]))
            &&& sp.start == utf8_total(text.take(q))
            &&& #[trigger] sp.end == utf8_total(text.take(r))
        }),
{
    let s = Src { text, base: 0, origin: 0 };
    assert(text.take(text.len() as int) =~= text);
    grammar::lemma_program_vars(s, 0, text.len() as int);
    if let Ok(v) = grammar::program(s, 0, text.len() as int) {
        lemma_stmts_undeclared_is_identifier(s, v, Set::empty());
        if let Some(sp) = stmts_undeclared(v, Set::empty()) {
            let (q, r) = choose|q: int, r: int| #[trigger] ident_at(s, q, r) && sp == s.span(q, r);
            lemma_utf8_prefix(text, q, text.len() as int);
            lemma_utf8_prefix(text, r, text.len() as int);
            assert forall|i: int| q <= i < r implies alphabetic(#[trigger] text[i]) by {
                assert(s.at(i) == text[i]);
            }
            assert(sp.end == utf8_total(text.take(r)));
        }
    }
}

/// A new definition adds its name to the defined names.
pub proof fn lemma_names_push(macs: Seq<Rc<Macro>>, m: Rc<Macro>)
    ensures
        defined_names(macs.push(m)) == defined_names(macs).insert(m.name@),
{
    assert forall|n: Seq<char>| lookup(macs.push(m), n) is Some <==> (lookup(macs, n) is Some || n == m.name@) by {
        assert(macs.push(m).drop_last() =~= macs);
    }
    assert(defined_names(macs.push(m)) =~= defined_names(macs).insert(m.name@));
}

/// The first undeclared reference of a list of statements, where each
/// definition makes its name available to the statements after it.
pub open spec fn stmts_undeclared(v: Seq<ast::Stmt<Seq<char>>>, defined: Set<Seq<char>>) -> Option<Span>
    decreases v.len(),
{
    if v.len() == 0 {
        None
    } else {
        match first_undeclared(stmt_expr(v[0]), seq![], defined) {
            Some(sp) => Some(sp),
            None => stmts_undeclared(
                v.drop_first(),
                match v[0] {
                    ast::Stmt::Macro(m) => defined.insert(m.name.name),
                    ast::Stmt::Expr(_) => defined,
                },
            ),
        }
    }
}

pub proof fn lemma_stmts_lits(v: Seq<ast::Stmt<Seq<char>>>, i: int)
    requires
        0 <= i < v.len(),
    ensures
        expr_lits(stmt_expr(v[i])).subset_of(stmts_lits(v)),
    decreases v.len(),
{
    if i < v.len() - 1 {
        lemma_stmts_lits(v.drop_last(), i);
    }
}

/// The definitions among a list of statements, in order.
pub open spec fn definitions(v: Seq<ast::Stmt<Seq<char>>>) -> Seq<ast::Macro<Seq<char>>>
    decreases v.len(),
{
    if v.len() == 0 {
        seq![]
    } else {
        let d = definitions(v.drop_last());
        match v.last() {
            ast::Stmt::Macro(m) => d.push(m),
            ast::Stmt::Expr(_) => d,
        }
    }
}

/// `macs` holds the definitions `defs`, in order: each under its name, with
/// its value compiled against the definitions before it.
pub open spec fn table_holds(macs: Seq<Rc<Macro>>, defs: Seq<ast::Macro<Seq<char>>>, lits: Seq<Rc<String>>) -> bool {
    &&& macs.len() == defs.len()
    &&& forall|j: int|
        0 <= j < defs.len() ==> {
            &&& (#[trigger] macs[j]).name@ == defs[j].name.name
            &&& compile(defs[j].value, seq![], lits, macs.take(j)) == Ok::<Expr, ErrorMessage>(macs[j].expr)
        }
}

proof fn lemma_table_push(
    macs: Seq<Rc<Macro>>,
    defs: Seq<ast::Macro<Seq<char>>>,
    lits: Seq<Rc<String>>,
    m: Rc<Macro>,
    d: ast::Macro<Seq<char>>,
)
    requires
        table_holds(macs, defs, lits),
        m.name@ == d.name.name,
        compile(d.value, seq![], lits, macs) == Ok::<Expr, ErrorMessage>(m.expr),
    ensures
        table_holds(macs.push(m), defs.push(d), lits),
{
    let macs2 = macs.push(m);
    let defs2 = defs.push(d);
    assert forall|j: int| 0 <= j < defs2.len() implies {
        &&& (#[trigger] macs2[j]).name@ == defs2[j].name.name
        &&& compile(defs2[j].value, seq![], lits, macs2.take(j)) == Ok::<Expr, ErrorMessage>(macs2[j].expr)
    } by {
        if j < defs.len() {
            assert(macs2.take(j) =~= macs.take(j));
            assert(macs2[j] == macs[j]);
            assert(defs2[j] == defs[j]);
        } else {
            assert(macs2.take(j) =~= macs);
        }
    }
}

/// What a statement gives back to an interactive session.
pub enum StmtReturn {
    /// The name of the macro it defined.
    Macro(String),
    Expr(Expr),
}

/// Compiles a whole program: one statement per non-blank line, the last of
/// which must be an expression, the program's result. Each definition is
/// compiled on its own and sees only the definitions before it.
pub fn compile_program(s: &str) -> (r: Result<Executable, Error>)
    requires
        utf8_total(s@) + 1 < usize::MAX,
    ensures
        match grammar::program(Src { text: s@, base: 0, origin: 0 }, 0, s@.len() as int) {
            Err(m) => r matches Err(e) && e@ == seq![m],
            Ok(v) => match stmts_undeclared(v, Set::empty()) {
                Some(sp) => r matches Err(e) && e@ == seq![fail(sp, ErrorKind::UndeclaredName)],
                None => if v.len() > 0 && v.last() is Expr {
                    r matches Ok(x) && x.literals.wf() && x.literals.contents() == stmts_lits(v)
                        && table_holds(x.macros.entries@, definitions(v), x.literals.items@)
                        && compile(stmt_expr(v.last()), seq![], x.literals.items@, x.macros.entries@) == Ok::<Expr, ErrorMessage>(x.expr)
                } else {
                    r matches Err(e) && e@ == seq![fail(Span { start: 0, end: utf8_total(s@) as usize }, ErrorKind::ExpectedExpression)]
                },
            },
        },
{
    let mut stream = ParseStream::from(s);
    let ast = match ast::Program::parse_lines(&mut stream) {
        Ok(p) => p,
        Err(e) => return Err(e),
    };
    let literals = alloc_prog_literals(&ast);
    let mut macros = MacroTable::new();
    let ghost v = ast@;
    let n = ast.stmts.len();
    let mut i: usize = 0;
    assert(defined_names(macros.entries@) =~= Set::<Seq<char>>::empty());
    assert(v.skip(0) =~= v);
    while i < n
        invariant
            n == v.len(),
            v == ast@,
            grammar::program(Src { text: s@, base: 0, origin: 0 }, 0, s@.len() as int) == Ok::<Seq<ast::Stmt<Seq<char>>>, ErrorMessage>(v),
            i <= n,
            literals.wf(),
            literals.contents() == stmts_lits(v),
            stmts_undeclared(v, Set::empty()) == stmts_undeclared(v.skip(i as int), defined_names(macros.entries@)),
            forall|j: int| 0 <= j < i && j == n - 1 ==> v[j] is Macro,
            table_holds(macros.entries@, definitions(v.take(i as int)), literals.items@),
            stream.wf(),
            stream.src() == (Src { text: s@, base: 0, origin: 0 }),
            stream.window == (Span { start: 0, end: s@.len() as usize }),
        decreases n - i,
    {
        proof {
            lemma_stmts_lits(v, i as int);
            assert(v.skip(i as int)[0] == v[i as int]);
            assert(v.skip(i as int).drop_first() =~= v.skip(i + 1));
            assert(v.take(i + 1).drop_last() =~= v.take(i as int));
            assert(v.take(i + 1).last() == v[i as int]);
        }
        let ghost before = macros.entries@;
        match &ast.stmts[i] {
            ast::Stmt::Macro(mac) => {
                let compiled = {
                    let mut c = Compiler::new(&literals, &macros);
                    c.compile_expr(&mac.value)
                };
                proof {
                    lemma_compile_undeclared(mac.value@, seq![], literals.items@, before);
                }
                match compiled {
                    Err(e) => return Err(e),
                    Ok(x) => {
                        let m = Rc::new(Macro::new(x, mac.name.name.clone()));
                        macros.insert(m);
                        proof {
                            lemma_names_push(before, m);
                            lemma_table_push(before, definitions(v.take(i as int)), literals.items@, m, mac@);
                        }
                    },
                }
            },
            ast::Stmt::Expr(expr) => {
                let compiled = {
                    let mut c = Compiler::new(&literals, &macros);
                    c.compile_expr(expr)
                };
                proof {
                    lemma_compile_undeclared(expr@, seq![], literals.items@, before);
                }
                match compiled {
                    Err(e) => return Err(e),
                    Ok(x) => {
                        if i == n - 1 {
                            assert(v.skip(i + 1).len() == 0);
                            assert(stmt_expr(v[i as int]) == expr@);
                            assert(first_undeclared(expr@, seq![], defined_names(before)) is None);
                            assert(stmts_undeclared(v.skip(i + 1), defined_names(before)) is None);
                            assert(stmts_undeclared(v.skip(i as int), defined_names(before)) is None);
                            assert(v.last() == v[i as int]);
                            assert(v.take(i + 1) =~= v);
                            return Ok(Executable::new(x, macros, literals));
                        }
                    },
                }
            },
        }
        i = i + 1;
    }
    assert(v.skip(i as int).len() == 0);
    assert(s@.take(s@.len() as int) =~= s@);
    Err(Error::new(stream.scope(), ErrorKind::ExpectedExpression))
}

/// What `compile_stmt` gives for a statement that parsed as `st`, with the
/// pool `lits` that holds its literals and the definitions `macs` before it.
pub open spec fn stmt_outcome(
    st: ast::Stmt<Seq<char>>,
    r: Result<StmtReturn, Error>,
    lits: Seq<Rc<String>>,
    macs: Seq<Rc<Macro>>,
    new_macs: Seq<Rc<Macro>>,
) -> bool {
    match st {
        ast::Stmt::Macro(md) => match r {
            Ok(StmtReturn::Macro(name)) => {
                &&& name@ == md.name.name
                &&& new_macs.len() == macs.len() + 1
                &&& new_macs.drop_last() == macs
                &&& new_macs.last().name@ == md.name.name
                &&& compile(md.value, seq![], lits, macs) == Ok::<Expr, ErrorMessage>(new_macs.last().expr)
            },
            _ => false,
        },
        ast::Stmt::Expr(x) => match r {
            Ok(StmtReturn::Expr(y)) => new_macs == macs && compile(x, seq![], lits, macs) == Ok::<Expr, ErrorMessage>(y),
            _ => false,
        },
    }
}

/// Compiles one statement of an interactive session against its pool of
/// literals and its definitions. A definition is added to `macros`; a failed
/// statement changes neither table.
pub fn compile_stmt(s: &str, literals: &mut LiteralSet, macros: &mut MacroTable) -> (r: Result<StmtReturn, Error>)
    requires
        utf8_total(s@) + 1 < usize::MAX,
        old(literals).wf(),
    ensures
        final(literals).wf(),
        r is Err ==> *final(literals) == *old(literals) && *final(macros) == *old(macros),
        match grammar::stmt(Src { text: s@, base: 0, origin: 0 }, 0, s@.len() as int) {
            Err(m) => r matches Err(e) && e@ == seq![m],
            Ok((st, _)) => match first_undeclared(stmt_expr(st), seq![], defined_names(old(macros).entries@)) {
                Some(sp) => r matches Err(e) && e@ == seq![fail(sp, ErrorKind::UndeclaredName)],
                None => {
                    &&& final(literals).contents() == old(literals).contents() + expr_lits(stmt_expr(st))
                    &&& old(literals).items@.is_prefix_of(final(literals).items@)
                    &&& stmt_outcome(st, r, final(literals).items@, old(macros).entries@, final(macros).entries@)
                },
            },
        },
{
    let mut stream = ParseStream::from(s);
    let stmt = match crate::parser::parse_stmt(&mut stream) {
        Ok(st) => st,
        Err(e) => return Err(e),
    };
    let mut pool = literals.clone();
    alloc_stmt_literals(&stmt, &mut pool);
    let ghost before = macros.entries@;
    match stmt {
        ast::Stmt::Macro(mac) => {
            let compiled = {
                let mut c = Compiler::new(&pool, macros);
                c.compile_expr(&mac.value)
            };
            proof {
                lemma_compile_undeclared(mac.value@, seq![], pool.items@, before);
            }
            match compiled {
                Err(e) => Err(e),
                Ok(x) => {
                    let name = mac.name.name.clone();
                    macros.insert(Rc::new(Macro::new(x, mac.name.name)));
                    assert(macros.entries@.drop_last() =~= before);
                    *literals = pool;
                    Ok(StmtReturn::Macro(name))
                },
            }
        },
        ast::Stmt::Expr(expr) => {
            let compiled = {
                let mut c = Compiler::new(&pool, macros);
                c.compile_expr(&expr)
            };
            proof {
                lemma_compile_undeclared(expr@, seq![], pool.items@, before);
            }
            match compiled {
                Err(e) => Err(e),
                Ok(x) => {
                    *literals = pool;
                    Ok(StmtReturn::Expr(x))
                },
            }
        },
    }
}

} // verus!
