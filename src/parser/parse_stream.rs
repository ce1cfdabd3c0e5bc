use vstd::prelude::*;
use crate::span::Span;
use crate::utils::{chars_of, string_of, is_whitespace, char_len, utf8_len, utf8_total, lemma_utf8_prefix};
use super::error::Error;
use super::grammar::{self, Src, PRes, ScanState, skip_ws, blank, scan, scan_step, enclosed};
use super::error::{ErrorKind, ErrorMessage};
use super::parser_cache::{ParserCache, Memo, ParsedType, memo_get, memo_table_ok, outcome_is};
use super::ast::{Expr, Lambda, Appl, Close};

verus! {

broadcast use vstd::std_specs::hash::group_hash_axioms;

/// A cursor over a source text, with the memo of rule results for that text.
///
/// The cursor steps through the text one character at a time; everything it
/// reports (its span, the window's span, the memo's keys, the spans of tokens
/// and errors) is in byte offsets of the UTF-8 text. `offsets` holds the byte
/// offset of each character position, and one more for the end.
///
/// The cursor moves inside a window of character positions, `window`; a
/// parenthesised sub-expression is parsed in a narrower window over the same
/// text and the same memo.
pub struct ParseStream {
    pub window: Span,
    pub curr: usize,
    pub text: Vec<char>,
    pub offsets: Vec<usize>,
    pub cache: ParserCache,
    pub error: Option<Error>,
}

/// How many line breaks come before position `i` of `t`.
pub open spec fn newlines(t: Seq<char>, i: int) -> nat
    decreases i,
{
    if i <= 0 {
        0
    } else {
        newlines(t, i - 1) + if t[i - 1] == '\n' {
            1nat
        } else {
            0nat
        }
    }
}

/// Where the line that holds position `i` of `t` begins.
pub open spec fn line_start(t: Seq<char>, i: int) -> int
    decreases i,
{
    if i <= 0 {
        0
    } else if t[i - 1] == '\n' {
        i
    } else {
        line_start(t, i - 1)
    }
}

/// `r` is what the grammar gives (`g`), with `q` where the rule stopped.
pub open spec fn gives<T: View>(r: Result<T, Error>, q: int, g: PRes<T::V>) -> bool {
    match (r, g) {
        (Ok(v), Ok((sv, sq))) => v@ == sv && q == sq,
        (Err(e), Err(m)) => e@ == seq![m],
        _ => false,
    }
}

/// `r` is what the grammar gives (`g`): on success the cursor stands where the
/// rule stopped, on failure it has not moved.
pub open spec fn parsed<T: View>(r: Result<T, Error>, old: ParseStream, new: ParseStream, g: PRes<T::V>) -> bool {
    match (r, g) {
        (Ok(v), Ok((sv, q))) => v@ == sv && new.pos() == q,
        (Err(e), Err(m)) => e@ == seq![m] && new.pos() == old.pos(),
        _ => false,
    }
}

impl ParseStream {
    /// The text, with the byte offset of its first character.
    pub open spec fn src(&self) -> Src {
        Src {
            text: self.text@,
            base: 0,
            origin: if self.offsets@.len() > 0 {
                self.offsets@[0] as int
            } else {
                0
            },
        }
    }

    /// The character position of the cursor.
    pub open spec fn pos(&self) -> int {
        self.curr as int
    }

    pub open spec fn end(&self) -> int {
        self.window.end as int
    }

    pub open spec fn cache_ok(&self) -> bool {
        self.cache.wf(self.src())
    }

    pub open spec fn wf(&self) -> bool {
        &&& self.src().window(self.window.start as int, self.end())
        &&& self.window.start <= self.pos() <= self.end()
        &&& self.offsets@.len() == self.text@.len() + 1
        &&& forall|i: int| 0 <= i <= self.text@.len() ==> #[trigger] self.offsets@[i] == self.src().byte(i)
        &&& self.cache_ok()
    }

    /// Same text and same window; the cursor and the memo may differ.
    pub open spec fn same_window(&self, other: &ParseStream) -> bool {
        self.src() == other.src() && self.window == other.window
    }

    /// A stream over `s`, whose first byte is at offset `scope.start`. The
    /// window is the whole of `s`.
    pub fn new(scope: Span, s: &str) -> (r: ParseStream)
        requires
            scope.start + utf8_total(s@) + 1 < usize::MAX,
        ensures
            r.wf(),
            r.src() == (Src { text: s@, base: 0, origin: scope.start as int }),
            r.window == (Span { start: 0, end: s@.len() as usize }),
            r.pos() == 0,
    {
        let text = chars_of(s);
        let mut offsets: Vec<usize> = Vec::new();
        offsets.push(scope.start);
        let mut at = scope.start;
        let mut i: usize = 0;
        proof {
            lemma_utf8_prefix(s@, 0, s@.len() as int);
            assert(s@.take(s@.len() as int) =~= s@);
        }
        while i < text.len()
            invariant
                text@ == s@,
                i <= text@.len(),
                offsets@.len() == i + 1,
                at == scope.start + utf8_total(s@.take(i as int)),
                scope.start + utf8_total(s@) + 1 < usize::MAX,
                utf8_total(s@.take(s@.len() as int)) == utf8_total(s@),
                forall|k: int| 0 <= k <= i ==> #[trigger] offsets@[k] == scope.start + utf8_total(s@.take(k)),
            decreases text@.len() - i,
        {
            proof {
                lemma_utf8_prefix(s@, i as int, i + 1);
                lemma_utf8_prefix(s@, i + 1, s@.len() as int);
            }
            at = at + char_len(text[i]);
            offsets.push(at);
            i = i + 1;
        }
        let r = ParseStream {
            window: Span { start: 0, end: text.len() },
            curr: 0,
            text,
            offsets,
            cache: ParserCache::new(),
            error: None,
        };
        assert(r.src() == (Src { text: s@, base: 0, origin: scope.start as int }));
        r
    }

    /// A stream over the whole of `s`, from offset 0.
    pub fn from(s: &str) -> (r: ParseStream)
        requires
            utf8_total(s@) + 1 < usize::MAX,
        ensures
            r.wf(),
            r.src() == (Src { text: s@, base: 0, origin: 0 }),
            r.window == (Span { start: 0, end: s@.len() as usize }),
            r.pos() == 0,
    {
        ParseStream::new(Span { start: 0, end: 0 }, s)
    }

    /// The byte offset of character position `p`.
    pub fn byte_at(&self, p: usize) -> (r: usize)
        requires
            self.wf(),
            p <= self.text@.len(),
        ensures
            r == self.src().byte(p as int),
            r + 1 < usize::MAX,
    {
        proof {
            grammar::lemma_byte_order(self.src(), p as int, self.src().hi());
        }
        self.offsets[p]
    }

    /// The one-byte span at the start of the character at position `p`.
    pub fn tok_span(&self, p: usize) -> (r: Span)
        requires
            self.wf(),
            p <= self.text@.len(),
        ensures
            r == self.src().tok(p as int),
    {
        let b = self.byte_at(p);
        Span { start: b, end: b + 1 }
    }

    /// The bytes of the window.
    pub fn scope(&self) -> (r: Span)
        requires
            self.wf(),
        ensures
            r == self.src().span(self.window.start as int, self.end()),
    {
        Span { start: self.offsets[self.window.start], end: self.offsets[self.window.end] }
    }

    /// The character under the cursor, if the window has one left.
    pub fn get(&self) -> (r: Option<char>)
        requires
            self.wf(),
        ensures
            r == (if self.pos() < self.end() { Some(self.src().at(self.pos())) } else { None::<char> }),
    {
        if self.curr < self.window.end {
            Some(self.text[self.curr])
        } else {
            None
        }
    }

    /// Moves one character forward, unless the window is used up; the byte
    /// offset grows by that character's length.
    pub fn advance(&mut self)
        requires
            old(self).wf(),
        ensures
            final(self).wf(),
            final(self).same_window(old(self)),
            final(self).pos() == (if old(self).pos() < old(self).end() { old(self).pos() + 1 } else { old(self).pos() }),
            old(self).pos() < old(self).end() ==> final(self).src().byte(final(self).pos())
                == old(self).src().byte(old(self).pos()) + utf8_len(old(self).src().at(old(self).pos())),
    {
        proof {
            grammar::lemma_byte_order(self.src(), self.pos(), self.end());
        }
        if self.curr < self.window.end {
            self.curr = self.curr + 1;
        }
    }

    /// Moves `n` characters forward, stopping at the end of the window.
    pub fn advance_by(&mut self, n: usize)
        requires
            old(self).wf(),
        ensures
            final(self).wf(),
            final(self).same_window(old(self)),
            final(self).pos() == (if old(self).pos() + n <= old(self).end() { old(self).pos() + n } else { old(self).end() }),
    {
        if n <= self.window.end - self.curr {
            self.curr = self.curr + n;
        } else {
            self.curr = self.window.end;
        }
    }

    /// Moves the cursor to character position `i` of the window.
    pub fn set_pos(&mut self, i: usize)
        requires
            old(self).wf(),
            old(self).window.start <= i <= old(self).end(),
        ensures
            final(self).wf(),
            final(self).same_window(old(self)),
            final(self).pos() == i,
    {
        self.curr = i;
    }

    /// Moves the cursor to the character of the window that starts at byte
    /// offset `i`, if there is one; returns whether it moved.
    pub fn goto(&mut self, i: usize) -> (r: bool)
        requires
            old(self).wf(),
        ensures
            final(self).wf(),
            final(self).same_window(old(self)),
            r == exists|k: int| old(self).window.start <= k <= old(self).end() && #[trigger] old(self).src().byte(k) == i,
            r ==> final(self).src().byte(final(self).pos()) == i,
            !r ==> final(self).pos() == old(self).pos(),
    {
        proof {
            grammar::lemma_byte_order(self.src(), 0, self.src().hi());
        }
        let mut k = self.window.start;
        while k <= self.window.end
            invariant
                self.wf(),
                self.same_window(old(self)),
                self.pos() == old(self).pos(),
                self.window.start <= k <= self.window.end + 1,
                self.window.end + 1 < usize::MAX,
                forall|j: int| self.window.start <= j < k ==> self.src().byte(j) != i,
            decreases self.window.end + 1 - k,
        {
            if self.offsets[k] == i {
                self.curr = k;
                return true;
            }
            k = k + 1;
        }
        false
    }

    /// Moves the cursor so that `n` bytes of the window are left, if a
    /// character starts there; returns whether it moved.
    pub fn goto_remaining(&mut self, n: usize) -> (r: bool)
        requires
            old(self).wf(),
        ensures
            final(self).wf(),
            final(self).same_window(old(self)),
            r ==> final(self).src().byte(final(self).pos()) + n == old(self).src().byte(old(self).end()),
            !r ==> final(self).pos() == old(self).pos(),
    {
        let last = self.offsets[self.window.end];
        if n > last {
            return false;
        }
        self.goto(last - n)
    }

    /// Skips whitespace under the cursor.
    pub fn skip_whitespace(&mut self)
        requires
            old(self).wf(),
        ensures
            final(self).wf(),
            final(self).same_window(old(self)),
            final(self).pos() == skip_ws(old(self).src(), old(self).pos(), old(self).end()),
    {
        while self.curr < self.window.end && is_whitespace(self.text[self.curr])
            invariant
                self.wf(),
                self.same_window(old(self)),
                old(self).pos() <= self.pos(),
                skip_ws(self.src(), self.pos(), self.end()) == skip_ws(old(self).src(), old(self).pos(), old(self).end()),
            decreases self.end() - self.pos(),
        {
            self.curr = self.curr + 1;
        }
    }

    /// Skips whitespace, then returns the character under the cursor.
    pub fn next(&mut self) -> (r: Option<char>)
        requires
            old(self).wf(),
        ensures
            final(self).wf(),
            final(self).same_window(old(self)),
            final(self).pos() == skip_ws(old(self).src(), old(self).pos(), old(self).end()),
            r == (if final(self).pos() < final(self).end() { Some(final(self).src().at(final(self).pos())) } else { None::<char> }),
    {
        self.skip_whitespace();
        self.get()
    }

    /// Nothing but whitespace is left in the window.
    pub fn is_empty(&self) -> (r: bool)
        requires
            self.wf(),
        ensures
            r == blank(self.src(), self.pos(), self.end()),
    {
        let mut i = self.curr;
        while i < self.window.end && is_whitespace(self.text[i])
            invariant
                self.wf(),
                self.pos() <= i <= self.end(),
                skip_ws(self.src(), i as int, self.end()) == skip_ws(self.src(), self.pos(), self.end()),
            decreases self.end() - i,
        {
            i = i + 1;
        }
        i >= self.window.end
    }

    /// The bytes from the cursor to the end of the window.
    pub fn curr_span(&self) -> (r: Span)
        requires
            self.wf(),
        ensures
            r == self.src().span(self.pos(), self.end()),
    {
        Span { start: self.offsets[self.curr], end: self.offsets[self.window.end] }
    }

    /// What is left of the window.
    pub fn get_remaining(&self) -> (r: String)
        requires
            self.wf(),
        ensures
            r@ == self.src().slice(self.pos(), self.end()),
    {
        string_of(&self.text, self.curr, self.window.end)
    }

    /// The next `n` characters, if the window has that many left.
    pub fn peek(&self, n: usize) -> (r: Option<String>)
        requires
            self.wf(),
        ensures
            self.pos() + n <= self.end() ==> (r matches Some(t) && t@ == self.src().slice(self.pos(), self.pos() + n)),
            self.pos() + n > self.end() ==> r is None,
    {
        if n <= self.window.end - self.curr {
            Some(string_of(&self.text, self.curr, self.curr + n))
        } else {
            None
        }
    }

    /// Whether what is left of the window begins with `pat`.
    pub fn starts_with(&self, pat: &str) -> (r: bool)
        requires
            self.wf(),
        ensures
            r == (self.pos() + pat@.len() <= self.end()
                && self.src().slice(self.pos(), self.pos() + pat@.len()) == pat@),
    {
        let p = chars_of(pat);
        if p.len() > self.window.end - self.curr {
            return false;
        }
        let mut i: usize = 0;
        while i < p.len()
            invariant
                self.wf(),
                p@ == pat@,
                self.pos() + p@.len() <= self.end(),
                0 <= i <= p.len(),
                forall|j: int| 0 <= j < i ==> self.src().at(self.pos() + j) == p@[j],
            decreases p.len() - i,
        {
            if self.text[self.curr + i] != p[i] {
                assert(self.src().slice(self.pos(), self.pos() + pat@.len())[i as int] != pat@[i as int]);
                return false;
            }
            i = i + 1;
        }
        assert(self.src().slice(self.pos(), self.pos() + pat@.len()) =~= pat@);
        true
    }

    /// The line (from 0) and the byte column of the character that starts
    /// at the byte offset `span.start`, if that is a character of the text
    /// other than a line break.
    pub fn get_line_column_number(&self, span: Span) -> (r: Option<(usize, usize)>)
        requires
            self.wf(),
        ensures
            match r {
                Some((line, col)) => exists|k: int| {
                    &&& 0 <= k < self.text@.len()
                    &&& #[trigger] self.src().byte(k) == span.start
                    &&& self.text@[k] != '\n'
                    &&& line == newlines(self.text@, k)
                    &&& col == span.start - self.src().byte(line_start(self.text@, k))
                },
                None => forall|k: int| 0 <= k < self.text@.len() && #[trigger] self.src().byte(k) == span.start
                    ==> self.text@[k] == '\n',
            },
    {
        let ghost s = self.src();
        let mut line: usize = 0;
        let mut start: usize = 0;
        let mut j: usize = 0;
        while j < self.text.len()
            invariant
                self.wf(),
                s == self.src(),
                j <= self.text@.len(),
                line == newlines(self.text@, j as int),
                start == line_start(self.text@, j as int),
                line <= j,
                start <= j,
                forall|k: int| 0 <= k < j ==> #[trigger] s.byte(k) != span.start,
            decreases self.text@.len() - j,
        {
            if self.offsets[j] == span.start {
                if self.text[j] == '\n' {
                    assert forall|k: int| 0 <= k < self.text@.len() && #[trigger] s.byte(k) == span.start implies self.text@[k] == '\n' by {
                        if k > j {
                            grammar::lemma_byte_order(s, j as int, k);
                        }
                    }
                    return None;
                }
                proof {
                    grammar::lemma_byte_order(s, start as int, j as int);
                }
                return Some((line, span.start - self.offsets[start]));
            }
            if self.text[j] == '\n' {
                line = line + 1;
                start = j + 1;
            }
            j = j + 1;
        }
        None
    }

    /// Records a failure that parsing may recover from.
    pub fn error(&mut self, err: Error)
        ensures
            final(self).same_window(old(self)),
            final(self).pos() == old(self).pos(),
            final(self).cache_ok() == old(self).cache_ok(),
            final(self).errors() == old(self).errors() + err@,
            final(self).error is Some,
    {
        match self.error.take() {
            Some(mut local) => {
                local.extend(err);
                self.error = Some(local);
            },
            None => {
                assert(err@ =~= seq![] + err@);
                self.error = Some(err);
            },
        }
    }

    /// The failures recorded so far.
    pub open spec fn errors(&self) -> Seq<super::error::ErrorMessage> {
        match self.error {
            Some(e) => e@,
            None => seq![],
        }
    }

    /// Takes the recorded failures out of the stream, if there are any.
    pub fn assert_no_errors(&mut self) -> (r: Result<(), Error>)
        ensures
            final(self).same_window(old(self)),
            final(self).pos() == old(self).pos(),
            final(self).cache_ok() == old(self).cache_ok(),
            final(self).errors() == Seq::<super::error::ErrorMessage>::empty(),
            final(self).error is None,
            r is Ok <==> old(self).error is None,
            r matches Err(e) ==> e@ == old(self).errors(),
    {
        match self.error.take() {
            Some(err) => Err(err),
            None => Ok(()),
        }
    }

    /// The memoised outcome of the expr rule at the cursor, if there is one.
    pub fn cached_expr(&mut self) -> (r: Option<Result<Expr, Error>>)
        requires
            old(self).wf(),
        ensures
            final(self).wf(),
            final(self).same_window(old(self)),
            r is None ==> final(self).pos() == old(self).pos(),
            final(self).pos() >= old(self).pos(),
            final(self).cache == old(self).cache,
            (old(self).cache.exprs@.contains_key(old(self).src().byte(old(self).pos()) as usize)
                && old(self).cache.exprs@[(old(self).src().byte(old(self).pos()) as usize)].scope_end == old(self).window.end) <==> r is Some,
            r matches Some(x) ==> parsed(x, *old(self), *final(self), grammar::expr(old(self).src(), old(self).pos(), old(self).end())),
    {
        let key = self.byte_at(self.curr);
        let ghost s = self.src();
        match memo_get(&self.cache.exprs, key, self.window.end) {
            None => None,
            Some(o) => {
                assert(self.cache.exprs@.contains_key(key));
                let ghost at = self.cache.exprs@[key].at as int;
                proof {
                    if at < self.pos() {
                        grammar::lemma_byte_order(s, at + 1, self.pos());
                        grammar::lemma_byte_order(s, at, at + 1);
                    } else if at > self.pos() {
                        grammar::lemma_byte_order(s, self.pos() + 1, at);
                        grammar::lemma_byte_order(s, self.pos(), self.pos() + 1);
                    }
                }
                match o {
                    Ok(pt) => {
                        self.curr = pt.parses_until;
                        Some(Ok(pt.value))
                    },
                    Err(e) => Some(Err(e)),
                }
            },
        }
    }

    /// Memoises `r`, the outcome of the expr rule started at `at`, which
    /// stopped at the cursor.
    pub fn remember_expr(&mut self, at: usize, r: &Result<Expr, Error>)
        requires
            old(self).wf(),
            old(self).window.start <= at <= old(self).pos(),
            gives(*r, old(self).pos(), grammar::expr(old(self).src(), at as int, old(self).end())),
        ensures
            final(self).wf(),
            final(self).same_window(old(self)),
            final(self).pos() == old(self).pos(),
            final(self).cache.exprs@ == old(self).cache.exprs@.insert((old(self).src().byte(at as int) as usize), final(self).cache.exprs@[(old(self).src().byte(at as int) as usize)]),
            final(self).cache.exprs@[(old(self).src().byte(at as int) as usize)].at == at,
            final(self).cache.exprs@[(old(self).src().byte(at as int) as usize)].scope_end == old(self).window.end,
            outcome_is(final(self).cache.exprs@[(old(self).src().byte(at as int) as usize)].outcome, at as int, grammar::expr(old(self).src(), at as int, old(self).end())),
            final(self).cache.lambdas@ == old(self).cache.lambdas@,
            final(self).cache.appls@ == old(self).cache.appls@,
            final(self).cache.closes@ == old(self).cache.closes@,
    {
        let outcome = match r {
            Ok(v) => Ok(ParsedType { parses_until: self.curr, value: v.clone() }),
            Err(e) => Err(e.clone()),
        };
        let memo = Memo { at, scope_end: self.window.end, outcome };
        let key = self.byte_at(at);
        assert(outcome_is(memo.outcome, at as int, grammar::expr(self.src(), at as int, self.end())));
        self.cache.exprs.insert(key, memo);
        assert(memo_table_ok(self.cache.exprs@, |p: int, e: int| grammar::expr(self.src(), p, e), self.src()));
    }

    /// The memoised outcome of the lambda rule at the cursor, if there is one.
    pub fn cached_lambda(&mut self) -> (r: Option<Result<Lambda, Error>>)
        requires
            old(self).wf(),
        ensures
            final(self).wf(),
            final(self).same_window(old(self)),
            r is None ==> final(self).pos() == old(self).pos(),
            final(self).pos() >= old(self).pos(),
            final(self).cache == old(self).cache,
            (old(self).cache.lambdas@.contains_key(old(self).src().byte(old(self).pos()) as usize)
                && old(self).cache.lambdas@[(old(self).src().byte(old(self).pos()) as usize)].scope_end == old(self).window.end) <==> r is Some,
            r matches Some(x) ==> parsed(x, *old(self), *final(self), grammar::lambda(old(self).src(), old(self).pos(), old(self).end())),
    {
        let key = self.byte_at(self.curr);
        let ghost s = self.src();
        match memo_get(&self.cache.lambdas, key, self.window.end) {
            None => None,
            Some(o) => {
                assert(self.cache.lambdas@.contains_key(key));
                let ghost at = self.cache.lambdas@[key].at as int;
                proof {
                    if at < self.pos() {
                        grammar::lemma_byte_order(s, at + 1, self.pos());
                        grammar::lemma_byte_order(s, at, at + 1);
                    } else if at > self.pos() {
                        grammar::lemma_byte_order(s, self.pos() + 1, at);
                        grammar::lemma_byte_order(s, self.pos(), self.pos() + 1);
                    }
                }
                match o {
                    Ok(pt) => {
                        self.curr = pt.parses_until;
                        Some(Ok(pt.value))
                    },
                    Err(e) => Some(Err(e)),
                }
            },
        }
    }

    /// Memoises `r`, the outcome of the lambda rule started at `at`, which
    /// stopped at the cursor.
    pub fn remember_lambda(&mut self, at: usize, r: &Result<Lambda, Error>)
        requires
            old(self).wf(),
            old(self).window.start <= at <= old(self).pos(),
            gives(*r, old(self).pos(), grammar::lambda(old(self).src(), at as int, old(self).end())),
        ensures
            final(self).wf(),
            final(self).same_window(old(self)),
            final(self).pos() == old(self).pos(),
            final(self).cache.lambdas@ == old(self).cache.lambdas@.insert((old(self).src().byte(at as int) as usize), final(self).cache.lambdas@[(old(self).src().byte(at as int) as usize)]),
            final(self).cache.lambdas@[(old(self).src().byte(at as int) as usize)].at == at,
            final(self).cache.lambdas@[(old(self).src().byte(at as int) as usize)].scope_end == old(self).window.end,
            outcome_is(final(self).cache.lambdas@[(old(self).src().byte(at as int) as usize)].outcome, at as int, grammar::lambda(old(self).src(), at as int, old(self).end())),
            final(self).cache.exprs@ == old(self).cache.exprs@,
            final(self).cache.appls@ == old(self).cache.appls@,
            final(self).cache.closes@ == old(self).cache.closes@,
    {
        let outcome = match r {
            Ok(v) => Ok(ParsedType { parses_until: self.curr, value: v.clone() }),
            Err(e) => Err(e.clone()),
        };
        let memo = Memo { at, scope_end: self.window.end, outcome };
        let key = self.byte_at(at);
        assert(outcome_is(memo.outcome, at as int, grammar::lambda(self.src(), at as int, self.end())));
        self.cache.lambdas.insert(key, memo);
        assert(memo_table_ok(self.cache.lambdas@, |p: int, e: int| grammar::lambda(self.src(), p, e), self.src()));
    }

    /// The memoised outcome of the appl rule at the cursor, if there is one.
    pub fn cached_appl(&mut self) -> (r: Option<Result<Appl, Error>>)
        requires
            old(self).wf(),
        ensures
            final(self).wf(),
            final(self).same_window(old(self)),
            r is None ==> final(self).pos() == old(self).pos(),
            final(self).pos() >= old(self).pos(),
            final(self).cache == old(self).cache,
            (old(self).cache.appls@.contains_key(old(self).src().byte(old(self).pos()) as usize)
                && old(self).cache.appls@[(old(self).src().byte(old(self).pos()) as usize)].scope_end == old(self).window.end) <==> r is Some,
            r matches Some(x) ==> parsed(x, *old(self), *final(self), grammar::appl(old(self).src(), old(self).pos(), old(self).end())),
    {
        let key = self.byte_at(self.curr);
        let ghost s = self.src();
        match memo_get(&self.cache.appls, key, self.window.end) {
            None => None,
            Some(o) => {
                assert(self.cache.appls@.contains_key(key));
                let ghost at = self.cache.appls@[key].at as int;
                proof {
                    if at < self.pos() {
                        grammar::lemma_byte_order(s, at + 1, self.pos());
                        grammar::lemma_byte_order(s, at, at + 1);
                    } else if at > self.pos() {
                        grammar::lemma_byte_order(s, self.pos() + 1, at);
                        grammar::lemma_byte_order(s, self.pos(), self.pos() + 1);
                    }
                }
                match o {
                    Ok(pt) => {
                        self.curr = pt.parses_until;
                        Some(Ok(pt.value))
                    },
                    Err(e) => Some(Err(e)),
                }
            },
        }
    }

    /// Memoises `r`, the outcome of the appl rule started at `at`, which
    /// stopped at the cursor.
    pub fn remember_appl(&mut self, at: usize, r: &Result<Appl, Error>)
        requires
            old(self).wf(),
            old(self).window.start <= at <= old(self).pos(),
            gives(*r, old(self).pos(), grammar::appl(old(self).src(), at as int, old(self).end())),
        ensures
            final(self).wf(),
            final(self).same_window(old(self)),
            final(self).pos() == old(self).pos(),
            final(self).cache.appls@ == old(self).cache.appls@.insert((old(self).src().byte(at as int) as usize), final(self).cache.appls@[(old(self).src().byte(at as int) as usize)]),
            final(self).cache.appls@[(old(self).src().byte(at as int) as usize)].at == at,
            final(self).cache.appls@[(old(self).src().byte(at as int) as usize)].scope_end == old(self).window.end,
            outcome_is(final(self).cache.appls@[(old(self).src().byte(at as int) as usize)].outcome, at as int, grammar::appl(old(self).src(), at as int, old(self).end())),
            final(self).cache.exprs@ == old(self).cache.exprs@,
            final(self).cache.lambdas@ == old(self).cache.lambdas@,
            final(self).cache.closes@ == old(self).cache.closes@,
    {
        let outcome = match r {
            Ok(v) => Ok(ParsedType { parses_until: self.curr, value: v.clone() }),
            Err(e) => Err(e.clone()),
        };
        let memo = Memo { at, scope_end: self.window.end, outcome };
        let key = self.byte_at(at);
        assert(outcome_is(memo.outcome, at as int, grammar::appl(self.src(), at as int, self.end())));
        self.cache.appls.insert(key, memo);
        assert(memo_table_ok(self.cache.appls@, |p: int, e: int| grammar::appl(self.src(), p, e), self.src()));
    }

    /// The memoised outcome of the close rule at the cursor, if there is one.
    pub fn cached_close(&mut self) -> (r: Option<Result<Close, Error>>)
        requires
            old(self).wf(),
        ensures
            final(self).wf(),
            final(self).same_window(old(self)),
            r is None ==> final(self).pos() == old(self).pos(),
            final(self).pos() >= old(self).pos(),
            final(self).cache == old(self).cache,
            (old(self).cache.closes@.contains_key(old(self).src().byte(old(self).pos()) as usize)
                && old(self).cache.closes@[(old(self).src().byte(old(self).pos()) as usize)].scope_end == old(self).window.end) <==> r is Some,
            r matches Some(x) ==> parsed(x, *old(self), *final(self), grammar::close(old(self).src(), old(self).pos(), old(self).end())),
    {
        let key = self.byte_at(self.curr);
        let ghost s = self.src();
        match memo_get(&self.cache.closes, key, self.window.end) {
            None => None,
            Some(o) => {
                assert(self.cache.closes@.contains_key(key));
                let ghost at = self.cache.closes@[key].at as int;
                proof {
                    if at < self.pos() {
                        grammar::lemma_byte_order(s, at + 1, self.pos());
                        grammar::lemma_byte_order(s, at, at + 1);
                    } else if at > self.pos() {
                        grammar::lemma_byte_order(s, self.pos() + 1, at);
                        grammar::lemma_byte_order(s, self.pos(), self.pos() + 1);
                    }
                }
                match o {
                    Ok(pt) => {
                        self.curr = pt.parses_until;
                        Some(Ok(pt.value))
                    },
                    Err(e) => Some(Err(e)),
                }
            },
        }
    }

    /// Memoises `r`, the outcome of the close rule started at `at`, which
    /// stopped at the cursor.
    pub fn remember_close(&mut self, at: usize, r: &Result<Close, Error>)
        requires
            old(self).wf(),
            old(self).window.start <= at <= old(self).pos(),
            gives(*r, old(self).pos(), grammar::close(old(self).src(), at as int, old(self).end())),
        ensures
            final(self).wf(),
            final(self).same_window(old(self)),
            final(self).pos() == old(self).pos(),
            final(self).cache.closes@ == old(self).cache.closes@.insert((old(self).src().byte(at as int) as usize), final(self).cache.closes@[(old(self).src().byte(at as int) as usize)]),
            final(self).cache.closes@[(old(self).src().byte(at as int) as usize)].at == at,
            final(self).cache.closes@[(old(self).src().byte(at as int) as usize)].scope_end == old(self).window.end,
            outcome_is(final(self).cache.closes@[(old(self).src().byte(at as int) as usize)].outcome, at as int, grammar::close(old(self).src(), at as int, old(self).end())),
            final(self).cache.exprs@ == old(self).cache.exprs@,
            final(self).cache.lambdas@ == old(self).cache.lambdas@,
            final(self).cache.appls@ == old(self).cache.appls@,
    {
        let outcome = match r {
            Ok(v) => Ok(ParsedType { parses_until: self.curr, value: v.clone() }),
            Err(e) => Err(e.clone()),
        };
        let memo = Memo { at, scope_end: self.window.end, outcome };
        let key = self.byte_at(at);
        assert(outcome_is(memo.outcome, at as int, grammar::close(self.src(), at as int, self.end())));
        self.cache.closes.insert(key, memo);
        assert(memo_table_ok(self.cache.closes@, |p: int, e: int| grammar::close(self.src(), p, e), self.src()));
    }
}

/// The scan state of the exec loop, as the grammar states it.
pub open spec fn scan_state(i: usize, prev: char, quote: Option<usize>, open: Seq<usize>) -> ScanState {
    ScanState {
        i: i as int,
        prev,
        quote: match quote {
            Some(q) => Some(q as int),
            None => None,
        },
        open: open.map_values(|x: usize| x as int),
    }
}

/// Finds the parenthesised stretch that starts after optional whitespace:
/// scans to the matching `)`, ignoring parentheses inside string literals.
/// On success the cursor stands on the `(` and the result is the character
/// position just after the `)`; on failure the cursor has not moved.
pub fn parse_enclosed(input: &mut ParseStream) -> (r: Result<usize, Error>)
    requires
        old(input).wf(),
    ensures
        final(input).wf(),
        final(input).same_window(old(input)),
        match enclosed(old(input).src(), old(input).pos(), old(input).end()) {
            Ok((q, after)) => r == Ok::<usize, Error>(after as usize) && final(input).pos() == q,
            Err(m) => r matches Err(e) && e@ == seq![m] && final(input).pos() == old(input).pos(),
        },
{
    let start = input.curr;
    input.skip_whitespace();
    let q = input.curr;
    proof {
        grammar::lemma_skip_ws(input.src(), start as int, input.end());
    }
    proof {
        grammar::lemma_byte_order(input.src(), q as int, input.src().hi());
    }
    if !(q < input.window.end && input.text[q] == '(') {
        input.set_pos(start);
        return Err(Error::new(Span { start: input.offsets[q], end: input.offsets[q] + 1 }, ErrorKind::ExpectedParenthesis));
    }
    let end = input.window.end;
    let mut i: usize = q + 1;
    let mut prev: char = '(';
    let mut quote: Option<usize> = None;
    let mut open: Vec<usize> = vec![q];
    let ghost s = input.src();
    let ghost init = ScanState { i: q + 1, prev: '(', quote: None, open: seq![q as int] };
    assert(scan_state(i, prev, quote, open@) == init) by {
        assert(open@.map_values(|x: usize| x as int) =~= seq![q as int]);
    }
    while open.len() > 0 && i < end
        invariant
            input.wf(),
            s == input.src(),
            end == input.end(),
            input.window.start <= q < i <= end,
            forall|j: int| 0 <= j < open.len() ==> open@[j] < i,
            quote matches Some(x) ==> x < i,
            scan(s, scan_state(i, prev, quote, open@), end as int) == scan(s, init, end as int),
        decreases end - i,
    {
        let c = input.text[i];
        let ghost before = scan_state(i, prev, quote, open@);
        if quote.is_none() {
            if c == '(' {
                open.push(i);
            } else if c == ')' {
                open.pop();
            }
        }
        if c == '"' {
            if quote.is_some() && prev != '\\' {
                quote = None;
            } else {
                quote = Some(i);
            }
        }
        prev = c;
        i = i + 1;
        assert(scan_state(i, prev, quote, open@) == scan_step(s, before)) by {
            let step = scan_step(s, before);
            assert(open@.map_values(|x: usize| x as int) =~= step.open);
        }
    }
    let ghost fin = scan_state(i, prev, quote, open@);
    assert(fin == scan(s, fin, end as int));
    match quote {
        Some(oq) => {
            input.set_pos(start);
            proof {
                grammar::lemma_byte_order(s, oq as int, s.hi());
            }
            Err(Error::new(Span::new_start(input.offsets[oq]), ErrorKind::UnmatchedQuote))
        },
        None => {
            if open.len() > 0 {
                let last = open[open.len() - 1];
                assert(fin.open.last() == last);
                input.set_pos(start);
                proof {
                    grammar::lemma_byte_order(s, last as int, s.hi());
                }
                Err(Error::new(Span::new_start(input.offsets[last]), ErrorKind::UnmatchedParenthesis))
            } else {
                Ok(i)
            }
        },
    }
}

/// What the memo holds for a rule at a byte offset is what the rule gives at
/// the character that starts there, so an outcome taken from the memo cannot
/// be told from a fresh parse.
pub proof fn lemma_memo_agrees_with_grammar(input: &ParseStream, k: usize)
    requires
        input.wf(),
    ensures
        input.cache.exprs@.contains_key(k) ==> {
            &&& input.src().byte(input.cache.exprs@[k].at as int) == k
            &&& outcome_is(
                input.cache.exprs@[k].outcome,
                input.cache.exprs@[k].at as int,
                grammar::expr(input.src(), input.cache.exprs@[k].at as int, input.cache.exprs@[k].scope_end as int),
            )
        },
        input.cache.lambdas@.contains_key(k) ==> {
            &&& input.src().byte(input.cache.lambdas@[k].at as int) == k
            &&& outcome_is(
                input.cache.lambdas@[k].outcome,
                input.cache.lambdas@[k].at as int,
                grammar::lambda(input.src(), input.cache.lambdas@[k].at as int, input.cache.lambdas@[k].scope_end as int),
            )
        },
        input.cache.appls@.contains_key(k) ==> {
            &&& input.src().byte(input.cache.appls@[k].at as int) == k
            &&& outcome_is(
                input.cache.appls@[k].outcome,
                input.cache.appls@[k].at as int,
                grammar::appl(input.src(), input.cache.appls@[k].at as int, input.cache.appls@[k].scope_end as int),
            )
        },
        input.cache.closes@.contains_key(k) ==> {
            &&& input.src().byte(input.cache.closes@[k].at as int) == k
            &&& outcome_is(
                input.cache.closes@[k].outcome,
                input.cache.closes@[k].at as int,
                grammar::close(input.src(), input.cache.closes@[k].at as int, input.cache.closes@[k].scope_end as int),
            )
        },
{
}

/// Two streams whose cursors stand at the same position, and whose texts
/// agree from there to the end of the window (characters and byte offsets),
/// get the same outcome from the expression rule, whatever their memos hold
/// and whatever lies outside the window; `parse_expr` returns that outcome.
pub proof fn lemma_same_remaining_same_parse(a: &ParseStream, b: &ParseStream)
    requires
        a.wf(),
        b.wf(),
        a.pos() == b.pos(),
        a.end() == b.end(),
        grammar::agree(a.src(), b.src(), a.pos(), a.end()),
    ensures
        grammar::expr(a.src(), a.pos(), a.end()) == grammar::expr(b.src(), b.pos(), b.end()),
{
    grammar::lemma_expr_local(a.src(), b.src(), a.pos(), a.pos(), a.end());
}

} // verus!
