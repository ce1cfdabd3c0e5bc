use vstd::prelude::*;
use std::collections::HashMap;
use super::error::Error;
use super::grammar::{Src, PRes};
use super::grammar;
use super::ast::{Expr, Lambda, Appl, Close};

verus! {

broadcast use vstd::std_specs::hash::group_hash_axioms;

/// A value that a rule produced, and the character position where the rule
/// stopped.
pub struct ParsedType<T> {
    pub parses_until: usize,
    pub value: T,
}

impl<T> ParsedType<T> {
    pub fn new(parses_until: usize, value: T) -> (r: ParsedType<T>)
        ensures
            r.parses_until == parses_until,
            r.value == value,
    {
        ParsedType { parses_until, value }
    }

    pub fn get_ref(&self) -> (r: &T)
        ensures
            *r == self.value,
    {
        &self.value
    }
}

/// A syntax tree that the cache can hand out again, unchanged.
pub trait Cacheable: Sized + View {
    fn duplicate(&self) -> (r: Self)
        ensures
            r == *self;
}

impl Cacheable for Expr {
    fn duplicate(&self) -> (r: Expr) {
        self.clone()
    }
}

impl Cacheable for Lambda {
    fn duplicate(&self) -> (r: Lambda) {
        self.clone()
    }
}

impl Cacheable for Appl {
    fn duplicate(&self) -> (r: Appl) {
        self.clone()
    }
}

impl Cacheable for Close {
    fn duplicate(&self) -> (r: Close) {
        self.clone()
    }
}

/// What a rule gave at one offset, in a window that ended at `scope_end`.
pub struct Memo<T> {
    /// The character position where the rule started; the entry's key is
    /// its byte offset.
    pub at: usize,
    pub scope_end: usize,
    pub outcome: Result<ParsedType<T>, Error>,
}

/// `o` is what the grammar gives (`r`), for a rule that started at `at`.
pub open spec fn outcome_is<T: View>(o: Result<ParsedType<T>, Error>, at: int, r: PRes<T::V>) -> bool {
    match (o, r) {
        (Ok(pt), Ok((v, q))) => pt.value@ == v && pt.parses_until == q,
        (Err(err), Err(m)) => err@ == seq![m],
        _ => false,
    }
}

/// Every entry of `m` is keyed by the byte offset of the position where it
/// started, holds what `rule` gives there, and stays in its window.
pub open spec fn memo_table_ok<T: View>(
    m: Map<usize, Memo<T>>,
    rule: spec_fn(int, int) -> PRes<T::V>,
    s: Src,
) -> bool {
    forall|k: usize|
        #![trigger m[k]]
        m.contains_key(k) ==> {
            &&& s.byte(m[k].at as int) == k
            &&& s.base <= m[k].at <= m[k].scope_end <= s.hi()
            &&& outcome_is(m[k].outcome, m[k].at as int, rule(m[k].at as int, m[k].scope_end as int))
            &&& (m[k].outcome matches Ok(pt) ==> m[k].at <= pt.parses_until <= m[k].scope_end)
        }
}

/// Rule results by byte offset, one table per memoised rule.
pub struct ParserCache {
    pub exprs: HashMap<usize, Memo<Expr>>,
    pub lambdas: HashMap<usize, Memo<Lambda>>,
    pub appls: HashMap<usize, Memo<Appl>>,
    pub closes: HashMap<usize, Memo<Close>>,
}

impl ParserCache {
    pub fn new() -> (r: ParserCache)
        ensures
            r@ == CacheView::empty(),
    {
        ParserCache {
            exprs: HashMap::new(),
            lambdas: HashMap::new(),
            appls: HashMap::new(),
            closes: HashMap::new(),
        }
    }

    /// Every entry agrees with the grammar on the text `s`.
    pub open spec fn wf(&self, s: Src) -> bool {
        &&& memo_table_ok(self.exprs@, |p: int, e: int| grammar::expr(s, p, e), s)
        &&& memo_table_ok(self.lambdas@, |p: int, e: int| grammar::lambda(s, p, e), s)
        &&& memo_table_ok(self.appls@, |p: int, e: int| grammar::appl(s, p, e), s)
        &&& memo_table_ok(self.closes@, |p: int, e: int| grammar::close(s, p, e), s)
    }
}

/// The offsets at which each rule has been cached.
pub struct CacheView {
    pub exprs: Set<usize>,
    pub lambdas: Set<usize>,
    pub appls: Set<usize>,
    pub closes: Set<usize>,
}

impl CacheView {
    pub open spec fn empty() -> CacheView {
        CacheView { exprs: Set::empty(), lambdas: Set::empty(), appls: Set::empty(), closes: Set::empty() }
    }
}

impl View for ParserCache {
    type V = CacheView;

    open spec fn view(&self) -> CacheView {
        CacheView {
            exprs: self.exprs@.dom(),
            lambdas: self.lambdas@.dom(),
            appls: self.appls@.dom(),
            closes: self.closes@.dom(),
        }
    }
}

/// The cached outcome at `at`, if one was made in a window ending at `end`.
pub fn memo_get<T: Cacheable>(m: &HashMap<usize, Memo<T>>, at: usize, end: usize) -> (r: Option<Result<ParsedType<T>, Error>>)
    ensures
        (m@.contains_key(at) && m@[at].scope_end == end) <==> r is Some,
        r matches Some(o) ==> {
            &&& m@.contains_key(at)
            &&& m@[at].scope_end == end
            &&& match (o, m@[at].outcome) {
                (Ok(a), Ok(b)) => a.value == b.value && a.parses_until == b.parses_until,
                (Err(a), Err(b)) => a@ == b@,
                _ => false,
            }
        },
{
    match m.get(&at) {
        None => None,
        Some(memo) => {
            if memo.scope_end != end {
                None
            } else {
                match &memo.outcome {
                    Ok(pt) => Some(Ok(ParsedType { parses_until: pt.parses_until, value: pt.value.duplicate() })),
                    Err(err) => Some(Err(err.clone())),
                }
            }
        },
    }
}

} // verus!
