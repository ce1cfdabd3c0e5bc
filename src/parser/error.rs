use vstd::prelude::*;
use vstd::string::StringExecFns;
use crate::span::{Span, merged};

verus! {

/// The single-character tokens that the grammar expects by name.
#[derive(Clone, Copy, Debug, PartialEq, Eq, Structural)]
pub enum TokenKind {
    Dot,
    Equal,
    Lambda,
    Quote,
}

/// What went wrong while compiling a piece of source text.
#[derive(Clone, Copy, Debug, PartialEq, Eq, Structural)]
pub enum ErrorKind {
    ExpectedToken(TokenKind),
    ExpectedIdentifier,
    ExpectedParenthesis,
    EscapeWithoutEscaped,
    UnexpectedTrailingInput,
    UnmatchedParenthesis,
    UnmatchedQuote,
    ExpectedExpression,
    UndeclaredName,
}

/// One diagnostic: a kind of failure and where in the source it happened.
#[derive(Clone, Copy, Debug, PartialEq, Eq, Structural)]
pub struct ErrorMessage {
    pub span: Span,
    pub kind: ErrorKind,
}

pub open spec fn token_name(t: TokenKind) -> Seq<char> {
    match t {
        TokenKind::Dot => "Dot"@,
        TokenKind::Equal => "Equal"@,
        TokenKind::Lambda => "Lambda"@,
        TokenKind::Quote => "Quote"@,
    }
}

/// The text shown to a user for each kind of failure.
pub open spec fn kind_text(k: ErrorKind) -> Seq<char> {
    match k {
        ErrorKind::ExpectedToken(t) => "expected token "@ + token_name(t),
        ErrorKind::ExpectedIdentifier => "expected an identifier"@,
        ErrorKind::ExpectedParenthesis => "expected a '('"@,
        ErrorKind::EscapeWithoutEscaped => "escape without escaped character"@,
        ErrorKind::UnexpectedTrailingInput => "unexpected trailing input"@,
        ErrorKind::UnmatchedParenthesis => "unmatched parenthesis"@,
        ErrorKind::UnmatchedQuote => "unmatched quote"@,
        ErrorKind::ExpectedExpression => "expected an expression"@,
        ErrorKind::UndeclaredName => "use of undeclared variable or macro"@,
    }
}

impl ErrorMessage {
    pub fn new(span: Span, kind: ErrorKind) -> (r: ErrorMessage)
        ensures
            r == (ErrorMessage { span, kind }),
    {
        ErrorMessage { span, kind }
    }

    pub fn message(&self) -> (r: String)
        ensures
            r@ == kind_text(self.kind),
    {
        match self.kind {
            ErrorKind::ExpectedToken(t) => {
                let mut s = String::from_str("expected token ");
                let name = match t {
                    TokenKind::Dot => "Dot",
                    TokenKind::Equal => "Equal",
                    TokenKind::Lambda => "Lambda",
                    TokenKind::Quote => "Quote",
                };
                s.append(name);
                s
            },
            ErrorKind::ExpectedIdentifier => String::from_str("expected an identifier"),
            ErrorKind::ExpectedParenthesis => String::from_str("expected a '('"),
            ErrorKind::EscapeWithoutEscaped => String::from_str("escape without escaped character"),
            ErrorKind::UnexpectedTrailingInput => String::from_str("unexpected trailing input"),
            ErrorKind::UnmatchedParenthesis => String::from_str("unmatched parenthesis"),
            ErrorKind::UnmatchedQuote => String::from_str("unmatched quote"),
            ErrorKind::ExpectedExpression => String::from_str("expected an expression"),
            ErrorKind::UndeclaredName => String::from_str("use of undeclared variable or macro"),
        }
    }
}

/// A compile-time failure: one or more located messages.
#[derive(Debug)]
pub struct Error {
    pub messages: Vec<ErrorMessage>,
}

impl View for Error {
    type V = Seq<ErrorMessage>;

    open spec fn view(&self) -> Seq<ErrorMessage> {
        self.messages@
    }
}

/// The span that covers every message of a non-empty list.
pub open spec fn cover(ms: Seq<ErrorMessage>) -> Span
    decreases ms.len(),
{
    if ms.len() <= 1 {
        ms[0].span
    } else {
        merged(cover(ms.drop_last()), ms.last().span)
    }
}

/// Of two failures, the one whose cover starts further into the input
/// (the second on a tie).
pub open spec fn further(a: Seq<ErrorMessage>, b: Seq<ErrorMessage>) -> Seq<ErrorMessage> {
    if cover(a).start > cover(b).start {
        a
    } else {
        b
    }
}

impl Clone for Error {
    fn clone(&self) -> (r: Error)
        ensures
            r@ == self@,
    {
        let ms = self.messages.clone();
        assert(ms@ =~= self.messages@);
        Error { messages: ms }
    }
}

impl Error {
    pub fn new(span: Span, kind: ErrorKind) -> (r: Error)
        ensures
            r@ == seq![ErrorMessage { span, kind }],
    {
        Error { messages: vec![ErrorMessage { span, kind }] }
    }

    pub fn cover_span(&self) -> (r: Span)
        requires
            self@.len() > 0,
        ensures
            r == cover(self@),
    {
        let mut r = self.messages[0].span;
        let mut i: usize = 1;
        while i < self.messages.len()
            invariant
                1 <= i <= self@.len(),
                r == cover(self@.take(i as int)),
            decreases self@.len() - i,
        {
            assert(self@.take(i + 1).drop_last() =~= self@.take(i as int));
            r = r.merge(self.messages[i].span);
            i = i + 1;
        }
        assert(self@.take(i as int) =~= self@);
        r
    }

    /// Keeps the failure that got further into the input.
    pub fn or(self, other: Error) -> (r: Error)
        requires
            self@.len() > 0,
            other@.len() > 0,
        ensures
            r@ == further(self@, other@),
    {
        if self.cover_span().start > other.cover_span().start {
            self
        } else {
            other
        }
    }

    pub fn push(&mut self, span: Span, kind: ErrorKind)
        ensures
            final(self)@ == old(self)@.push(ErrorMessage { span, kind }),
    {
        self.messages.push(ErrorMessage { span, kind });
    }

    pub fn extend(&mut self, other: Error)
        ensures
            final(self)@ == old(self)@ + other@,
    {
        let mut other = other;
        self.messages.append(&mut other.messages);
    }
}

} // verus!
