use vstd::prelude::*;
use crate::span::Span;
use crate::utils::{is_alphabetic, alphabetic, push_char, string_of, lemma_utf8_concat};
use super::error::{Error, ErrorKind, ErrorMessage, TokenKind};
use super::grammar::{self, punct};
use super::parse_stream::{ParseStream, parse_enclosed};

verus! {

/// An identifier: a maximal run of alphabetic characters.
///
/// The name is a type parameter so that the same tree describes both what the
/// parser builds (`String`) and what the grammar states (`Seq<char>`).
#[derive(Debug, PartialEq, Eq)]
pub struct Var<N = String> {
    pub span: Span,
    pub name: N,
}

/// A quoted string literal, with its escapes resolved.
#[derive(Debug, PartialEq, Eq)]
pub struct Literal<N = String> {
    pub span: Span,
    pub content: N,
}

#[derive(Clone, Copy, Debug, PartialEq, Eq, Structural)]
pub struct Dot {
    pub span: Span,
}

#[derive(Clone, Copy, Debug, PartialEq, Eq, Structural)]
pub struct Equal {
    pub span: Span,
}

/// `\` or `λ`.
#[derive(Clone, Copy, Debug, PartialEq, Eq, Structural)]
pub struct Lambda {
    pub span: Span,
}

#[derive(Clone, Copy, Debug, PartialEq, Eq, Structural)]
pub struct Quote {
    pub span: Span,
}

/// A balanced pair of parentheses, with everything between them.
#[derive(Clone, Copy, Debug, PartialEq, Eq, Structural)]
pub struct Paren {
    pub span: Span,
}

#[derive(Clone, Copy, Debug, PartialEq, Eq, Structural)]
pub enum Delimiter {
    Paren,
    Synthetic,
}

/// The extent of a grouped sub-expression, written with parentheses or
/// introduced by the grammar for a chain of applications.
#[derive(Clone, Copy, Debug, PartialEq, Eq, Structural)]
pub struct Group {
    pub delim: Delimiter,
    pub span: Span,
}

impl View for Var {
    type V = Var<Seq<char>>;

    open spec fn view(&self) -> Var<Seq<char>> {
        Var { span: self.span, name: self.name@ }
    }
}

impl View for Literal {
    type V = Literal<Seq<char>>;

    open spec fn view(&self) -> Literal<Seq<char>> {
        Literal { span: self.span, content: self.content@ }
    }
}

impl Clone for Var {
    fn clone(&self) -> (r: Var)
        ensures
            r == *self,
    {
        Var { span: self.span, name: self.name.clone() }
    }
}

impl Clone for Literal {
    fn clone(&self) -> (r: Literal)
        ensures
            r == *self,
    {
        Literal { span: self.span, content: self.content.clone() }
    }
}

impl Group {
    pub fn new(span: Span, delim: Delimiter) -> (r: Group)
        ensures
            r == (Group { span, delim }),
    {
        Group { span, delim }
    }

    pub fn new_unmarked(span: Span) -> (r: Group)
        ensures
            r == (Group { span, delim: Delimiter::Synthetic }),
    {
        Group { span, delim: Delimiter::Synthetic }
    }
}

impl Var {
    pub fn new(span: Span, name: String) -> (r: Var)
        ensures
            r == (Var { span, name }),
    {
        Var { span, name }
    }
}

impl Literal {
    pub fn new(span: Span, content: String) -> (r: Literal)
        ensures
            r == (Literal { span, content }),
    {
        Literal { span, content }
    }
}

/// Whether `c` is the character of token `k`.
pub fn is_token_char(k: TokenKind, c: char) -> (r: bool)
    ensures
        r == grammar::token_char(k, c),
{
    match k {
        TokenKind::Dot => c == '.',
        TokenKind::Equal => c == '=',
        TokenKind::Lambda => c == '\\' || c == 'λ',
        TokenKind::Quote => c == '"',
    }
}

/// A single-character token after optional whitespace; the span covers the
/// token's character.
pub fn parse_token(input: &mut ParseStream, k: TokenKind) -> (r: Result<Span, Error>)
    requires
        old(input).wf(),
    ensures
        final(input).wf(),
        final(input).same_window(old(input)),
        match punct(old(input).src(), old(input).pos(), old(input).end(), k) {
            Ok((span, q)) => r == Ok::<Span, Error>(span) && final(input).pos() == q,
            Err(m) => r matches Err(e) && e@ == seq![m] && final(input).pos() == old(input).pos(),
        },
{
    let start = input.curr;
    input.skip_whitespace();
    proof {
        grammar::lemma_skip_ws(input.src(), start as int, input.end());
    }
    let q = input.curr;
    match input.get() {
        Some(c) => {
            if is_token_char(k, c) {
                input.advance();
                return Ok(input.tok_span(q));
            }
        },
        None => {},
    }
    input.set_pos(start);
    Err(Error::new(input.tok_span(q), ErrorKind::ExpectedToken(k)))
}

impl Var {
    /// An identifier after optional whitespace.
    pub fn parse_ident(input: &mut ParseStream) -> (r: Result<Var, Error>)
        requires
            old(input).wf(),
        ensures
            final(input).wf(),
            final(input).same_window(old(input)),
            match grammar::var(old(input).src(), old(input).pos(), old(input).end()) {
                Ok((v, q)) => r matches Ok(x) && x@ == v && final(input).pos() == q,
                Err(m) => r matches Err(e) && e@ == seq![m] && final(input).pos() == old(input).pos(),
            },
    {
        let start = input.curr;
        input.skip_whitespace();
        proof {
            grammar::lemma_skip_ws(input.src(), start as int, input.end());
        }
        let q = input.curr;
        let ghost s = input.src();
        let ghost e = input.end();
        let end = input.window.end;
        let mut letters: Vec<bool> = Vec::new();
        let mut i = q;
        loop
            invariant_except_break
                letters@.len() == i - q,
                forall|k: int| 0 <= k < letters@.len() ==> letters@[k],
            invariant
                input.wf(),
                s == input.src(),
                e == end,
                e == input.end(),
                input.window.start <= q <= i <= end,
                forall|k: int| 0 <= k < letters@.len() ==> letters@[k] == alphabetic(#[trigger] s.at(q + k)),
            ensures
                q + letters@.len() <= e,
                forall|k: int| 0 <= k < letters@.len() ==> letters@[k] == alphabetic(#[trigger] s.at(q + k)),
                forall|k: int| 0 <= k < letters@.len() - 1 ==> letters@[k],
                (letters@.len() == e - q && forall|k: int| 0 <= k < letters@.len() ==> letters@[k])
                    || (letters@.len() > 0 && !letters@[letters@.len() - 1]),
            decreases end - i,
        {
            if i >= end {
                break;
            }
            let b = is_alphabetic(input.text[i]);
            letters.push(b);
            if !b {
                break;
            }
            i = i + 1;
        }
        proof {
            lemma_letter_run(s, q as int, e, letters@, 0);
            grammar::lemma_alpha_run(s, q as int, e);
        }
        let n = scan_letters(&letters, 0);
        if n == 0 {
            input.set_pos(start);
            Err(Error::new(input.tok_span(q), ErrorKind::ExpectedIdentifier))
        } else {
            let name = string_of(&input.text, q, q + n);
            input.set_pos(q + n);
            Ok(Var { span: Span { start: input.byte_at(q), end: input.byte_at(q + n) }, name })
        }
    }
}

/// The end of the run of `true` that starts at `from`.
pub open spec fn letter_run(letters: Seq<bool>, from: int) -> int
    decreases letters.len() - from,
{
    if 0 <= from < letters.len() && letters[from] {
        letter_run(letters, from + 1)
    } else {
        from
    }
}

/// How long the run of letters at the start of `letters` is, where
/// `letters` tells for each character whether it is alphabetic.
pub fn scan_letters(letters: &Vec<bool>, from: usize) -> (r: usize)
    requires
        from <= letters@.len(),
    ensures
        r == letter_run(letters@, from as int) - from,
{
    let mut i = from;
    while i < letters.len() && letters[i]
        invariant
            from <= i <= letters@.len(),
            letter_run(letters@, i as int) == letter_run(letters@, from as int),
        decreases letters@.len() - i,
    {
        i = i + 1;
    }
    i - from
}

/// Classifying the characters from `q` and scanning the letters finds the
/// identifier that the grammar finds.
proof fn lemma_letter_run(s: grammar::Src, q: int, e: int, letters: Seq<bool>, from: int)
    requires
        q + letters.len() <= e,
        0 <= from <= letters.len(),
        forall|k: int| 0 <= k < from ==> letters[k],
        forall|k: int| 0 <= k < letters.len() ==> letters[k] == alphabetic(#[trigger] s.at(q + k)),
        (letters.len() == e - q && forall|k: int| 0 <= k < letters.len() ==> letters[k])
            || (letters.len() > 0 && !letters[letters.len() - 1]),
    ensures
        q + letter_run(letters, from) == grammar::alpha_run(s, q + from, e),
    decreases letters.len() - from,
{
    if from < letters.len() {
        assert(letters[from] == alphabetic(s.at(q + from)));
        if letters[from] {
            lemma_letter_run(s, q, e, letters, from + 1);
        }
    }
}

impl Literal {
    /// A string literal after optional whitespace. A backslash takes the next
    /// character as it is.
    pub fn parse_string(input: &mut ParseStream) -> (r: Result<Literal, Error>)
        requires
            old(input).wf(),
        ensures
            final(input).wf(),
            final(input).same_window(old(input)),
            match grammar::literal(old(input).src(), old(input).pos(), old(input).end()) {
                Ok((l, q)) => r matches Ok(x) && x@ == l && final(input).pos() == q,
                Err(m) => r matches Err(e) && e@ == seq![m] && final(input).pos() == old(input).pos(),
            },
    {
        let start = input.curr;
        input.skip_whitespace();
        proof {
            grammar::lemma_skip_ws(input.src(), start as int, input.end());
        }
        let q = input.curr;
        let ghost s = input.src();
        let ghost e = input.end();
        match input.get() {
            Some(c) => {
                if c != '"' {
                    input.set_pos(start);
                    return Err(Error::new(input.tok_span(q), ErrorKind::ExpectedToken(TokenKind::Quote)));
                }
            },
            None => {
                input.set_pos(start);
                return Err(Error::new(input.tok_span(q), ErrorKind::ExpectedToken(TokenKind::Quote)));
            },
        }
        input.advance();
        let mut content = String::new();
        let mut count: usize = 0;
        loop
            invariant
                input.wf(),
                s == input.src(),
                e == input.end(),
                input.same_window(old(input)),
                old(input).window.start <= q < input.pos() <= e,
                count == content@.len(),
                count <= input.pos() - q,
                grammar::lit_body(s, input.pos(), e, content@) == grammar::lit_body(s, q + 1, e, seq![]),
                start as int == old(input).pos(),
                old(input).window.start <= start <= q,
                q < e && s.at(q as int) == '"',
                q as int == grammar::skip_ws(s, old(input).pos(), e),
                s == old(input).src(),
                e == old(input).end(),
            decreases e - input.pos(),
        {
            let i = input.curr;
            match input.get() {
                None => {
                    assert(grammar::lit_body(s, i as int, e, content@) == Err::<(Seq<char>, int), ErrorMessage>(
                        grammar::fail(s.tok(i as int), ErrorKind::ExpectedToken(TokenKind::Quote))));
                    input.set_pos(start);
                    return Err(Error::new(input.tok_span(i), ErrorKind::ExpectedToken(TokenKind::Quote)));
                },
                Some(c) => {
                    if c == '\\' {
                        input.advance();
                        match input.get() {
                            None => {
                                assert(grammar::lit_body(s, i as int, e, content@) == Err::<(Seq<char>, int), ErrorMessage>(
                                    grammar::fail(s.tok(i + 1), ErrorKind::EscapeWithoutEscaped)));
                                input.set_pos(start);
                                return Err(Error::new(input.tok_span(i + 1), ErrorKind::EscapeWithoutEscaped));
                            },
                            Some(escaped) => {
                                push_char(&mut content, escaped);
                            },
                        }
                    } else if c == '"' {
                        assert(grammar::lit_body(s, i as int, e, content@) == Ok::<(Seq<char>, int), ErrorMessage>((content@, i as int)));
                        input.advance();
                        proof {
                            grammar::lemma_byte_order(s, q as int, i as int);
                            grammar::lemma_byte_order(s, i as int, s.hi());
                        }
                        let b = input.byte_at(q);
                        return Ok(Literal { span: Span { start: b, end: b + count }, content });
                    } else {
                        push_char(&mut content, c);
                    }
                    input.advance();
                    count = count + 1;
                },
            }
        }
    }
}

/// Finds a balanced pair of parentheses after optional whitespace, ignoring
/// parentheses inside string literals. On success the cursor moves just past
/// the `)`, and the result is a stream over the text between the two
/// parentheses (with its own memo, at the same byte offsets) and the bytes
/// from `(` to `)`; on failure the cursor has not moved.
pub fn parse_parenthesis(input: &mut ParseStream) -> (r: Result<(ParseStream, Paren), Error>)
    requires
        old(input).wf(),
    ensures
        final(input).wf(),
        final(input).same_window(old(input)),
        match grammar::enclosed(old(input).src(), old(input).pos(), old(input).end()) {
            Ok((q, after)) => r matches Ok((child, paren)) && {
                &&& paren.span == old(input).src().span(q, after)
                &&& final(input).pos() == after
                &&& child.wf()
                &&& child.src() == (grammar::Src {
                    text: old(input).src().slice(q + 1, after - 1),
                    base: 0,
                    origin: old(input).src().byte(q + 1),
                })
                &&& child.window == (Span { start: 0, end: (after - 1 - (q + 1)) as usize })
                &&& child.pos() == 0
            },
            Err(m) => r matches Err(e) && e@ == seq![m] && final(input).pos() == old(input).pos(),
        },
{
    let ghost s = input.src();
    proof {
        grammar::lemma_enclosed(s, input.pos(), input.end());
    }
    match parse_enclosed(input) {
        Ok(after) => {
            let q = input.curr;
            let inner = string_of(&input.text, q + 1, after - 1);
            let open = input.byte_at(q + 1);
            proof {
                grammar::lemma_byte_order(s, q + 1, after - 1);
                grammar::lemma_byte_order(s, after - 1, s.hi());
                let t = s.slice(q + 1, after - 1);
                assert(s.text.take(after - 1) =~= s.text.take(q + 1) + t);
                lemma_utf8_concat(s.text.take(q + 1), t);
            }
            let child = ParseStream::new(Span::new(open, open), inner.as_str());
            let paren = Paren { span: Span { start: input.byte_at(q), end: input.byte_at(after) } };
            input.set_pos(after);
            Ok((child, paren))
        },
        Err(e) => Err(e),
    }
}

} // verus!
