use lambda::parser::ast::{Appl, Close, Expr, Program, Stmt};
use lambda::parser::error::{Error, ErrorKind, TokenKind};
use lambda::parser::parse_stream::ParseStream;
use lambda::parser::tokens;
use lambda::parser::{Parser, Spanned};
use lambda::span::Span;

#[test]
fn test_multiple_appl() {
    let mut stream = ParseStream::from("(\\a. a) (\\a. a) \"hello\"");
    assert!(Appl::parse(&mut stream).is_ok());
    assert!(stream.is_empty(), "remaining: {}", stream.get_remaining());
}

#[test]
fn test_parse_stmt() {
    let mut stream = ParseStream::from("\\a. a a");
    assert!(Stmt::parse(&mut stream).is_ok());
    assert!(stream.is_empty(), "remaining: {}", stream.get_remaining());
}

#[test]
fn test_literal_parser() {
    let mut stream = ParseStream::from("\\a. a a");
    assert!(Expr::parse(&mut stream).is_ok());
    assert!(stream.is_empty(), "remaining: {}", stream.get_remaining());
}

#[test]
fn test_paren() {
    let mut stream = ParseStream::from("(\\a. a a)");
    assert!(Expr::parse(&mut stream).is_ok());
    assert!(stream.is_empty(), "remaining: {}", stream.get_remaining());
}

#[test]
fn test_var() {
    let mut stream = ParseStream::from("a");
    assert!(tokens::Var::parse(&mut stream).is_ok());
    assert!(stream.is_empty(), "remaining: {}", stream.get_remaining());
}

#[test]
fn test_literal() {
    let mut stream = ParseStream::from("\"hello world\"");
    assert!(tokens::Literal::parse(&mut stream).is_ok());
    assert!(stream.is_empty(), "remaining: {}", stream.get_remaining());
}

fn lambda_of(c: &Close) -> &lambda::parser::ast::Lambda {
    match c {
        Close::Grouping(e, _) => match &**e {
            Expr::Lambda(l) => l,
            _ => panic!("expected a lambda"),
        },
        _ => panic!("expected a parenthesised term"),
    }
}

#[test]
fn application_of_two_lambdas() {
    let mut stream = ParseStream::from("(λa. a) (λb. b)");
    let e = Expr::parse(&mut stream).unwrap();
    assert_eq!(stream.curr_span().start, 17);
    match e {
        Expr::Appl(a) => {
            let l = lambda_of(&a.lhs);
            let r = lambda_of(&a.rhs);
            assert_eq!(l.var.name, "a");
            assert_eq!(r.var.name, "b");
            match (&*l.expr, &*r.expr) {
                (Expr::Close(Close::Var(x)), Expr::Close(Close::Var(y))) => {
                    assert_eq!(x.name, "a");
                    assert_eq!(y.name, "b");
                },
                _ => panic!("expected variable bodies"),
            }
        },
        _ => panic!("expected an application"),
    }
}

#[test]
fn reparse_at_same_offset_is_identical() {
    let mut stream = ParseStream::from("(\\x. x x) \"s\" (\\y. y)");
    let first = Expr::parse(&mut stream).unwrap();
    let end = stream.curr_span().start;
    stream.goto(0);
    let second = Expr::parse(&mut stream).unwrap();
    assert_eq!(first, second);
    assert_eq!(stream.curr_span().start, end);
}

#[test]
fn failed_parse_is_cached_identically() {
    let mut stream = ParseStream::from("(a b");
    let first = Expr::parse(&mut stream).err().unwrap();
    let second = Expr::parse(&mut stream).err().unwrap();
    assert_eq!(first.messages.len(), 1);
    assert_eq!(first.messages[0], second.messages[0]);
    assert_eq!(stream.curr_span().start, 0);
}

#[test]
fn chain_of_three_nests_left() {
    let mut stream = ParseStream::from("a b c");
    let e = Appl::parse(&mut stream).unwrap();
    match (&e.lhs, &e.rhs) {
        (Close::Grouping(inner, g), Close::Var(c)) => {
            assert_eq!(c.name, "c");
            assert_eq!(g.span, Span::new(0, 5));
            match &**inner {
                Expr::Appl(ab) => match (&ab.lhs, &ab.rhs) {
                    (Close::Var(a), Close::Var(b)) => {
                        assert_eq!(a.name, "a");
                        assert_eq!(b.name, "b");
                    },
                    _ => panic!("expected two variables"),
                },
                _ => panic!("expected an application"),
            }
        },
        _ => panic!("expected a synthetic group"),
    }
}

#[test]
fn identifier_token_span_and_name() {
    let mut stream = ParseStream::from("  abc.");
    let v = tokens::Var::parse(&mut stream).unwrap();
    assert_eq!(v.name, "abc");
    assert_eq!(v.span, Span::new(2, 5));
    assert_eq!(stream.get(), Some('.'));
}

#[test]
fn identifier_expected() {
    let mut stream = ParseStream::from("  .");
    let err = tokens::Var::parse(&mut stream).err().unwrap();
    assert_eq!(err.messages[0].kind, ErrorKind::ExpectedIdentifier);
    assert_eq!(err.messages[0].span, Span::new(2, 3));
    assert_eq!(stream.curr_span().start, 0);
}

#[test]
fn literal_escapes_take_next_character() {
    let mut stream = ParseStream::from("\"a\\\"b\\\\\"");
    let l = tokens::Literal::parse(&mut stream).unwrap();
    assert_eq!(l.content, "a\"b\\");
    assert!(stream.is_empty());
}

#[test]
fn unterminated_literal() {
    let mut stream = ParseStream::from("\"abc");
    let err = tokens::Literal::parse(&mut stream).err().unwrap();
    assert_eq!(err.messages[0].kind, ErrorKind::ExpectedToken(TokenKind::Quote));
    assert_eq!(err.messages[0].span, Span::new(4, 5));
}

#[test]
fn escape_at_end_of_input() {
    let mut stream = ParseStream::from("\"ab\\");
    let err = tokens::Literal::parse(&mut stream).err().unwrap();
    assert_eq!(err.messages[0].kind, ErrorKind::EscapeWithoutEscaped);
}

#[test]
fn unmatched_parenthesis() {
    let mut stream = ParseStream::from("((a)");
    let err = tokens::parse_parenthesis(&mut stream).err().unwrap();
    assert_eq!(err.messages[0].kind, ErrorKind::UnmatchedParenthesis);
    assert_eq!(err.messages[0].span, Span::new(0, 1));
}

#[test]
fn unmatched_quote_inside_parentheses() {
    let mut stream = ParseStream::from("(a \"b)");
    let err = tokens::parse_parenthesis(&mut stream).err().unwrap();
    assert_eq!(err.messages[0].kind, ErrorKind::UnmatchedQuote);
    assert_eq!(err.messages[0].span, Span::new(3, 4));
}

#[test]
fn parenthesis_inside_string_is_ignored() {
    let mut stream = ParseStream::from("(a \")\") b");
    let (child, p) = tokens::parse_parenthesis(&mut stream).unwrap();
    assert_eq!(p.span, Span::new(0, 7));
    assert_eq!(child.get_remaining(), "a \")\"");
    assert_eq!(child.curr_span(), Span::new(1, 6));
    assert_eq!(stream.get_remaining(), " b");
}

#[test]
fn expected_parenthesis() {
    let mut stream = ParseStream::from("a");
    let err = tokens::parse_parenthesis(&mut stream).err().unwrap();
    assert_eq!(err.messages[0].kind, ErrorKind::ExpectedParenthesis);
}

#[test]
fn bad_expression_reports_expected_expression() {
    let mut stream = ParseStream::from("a )");
    let err = Expr::parse(&mut stream).err().unwrap();
    assert_eq!(err.messages.len(), 1);
    assert_eq!(err.messages[0].kind, ErrorKind::ExpectedExpression);
}

#[test]
fn trailing_input_after_closed_term() {
    let mut stream = ParseStream::from("(a) )");
    let err = Expr::parse(&mut stream).err().unwrap();
    assert_eq!(err.messages[0].kind, ErrorKind::ExpectedExpression);
    assert_eq!(err.messages[0].span, Span::new(4, 5));
}

#[test]
fn program_skips_blank_lines() {
    let mut stream = ParseStream::from("Id = \\a. a\n\n   \nId\n");
    let p = Program::parse(&mut stream).unwrap();
    assert_eq!(p.stmts.len(), 2);
    match &p.stmts[0] {
        Stmt::Macro(m) => {
            assert_eq!(m.name.name, "Id");
            assert_eq!(m.name.span, Span::new(0, 2));
        },
        _ => panic!("expected a definition"),
    }
    match &p.stmts[1] {
        Stmt::Expr(Expr::Close(Close::Var(v))) => assert_eq!(v.span, Span::new(16, 18)),
        _ => panic!("expected a variable"),
    }
}

#[test]
fn stream_cursor_operations() {
    let mut stream = ParseStream::from("  xy z");
    assert_eq!(stream.next(), Some('x'));
    assert!(stream.starts_with("xy"));
    assert!(!stream.starts_with("xz"));
    assert_eq!(stream.peek(2), Some(String::from("xy")));
    assert_eq!(stream.peek(9), None);
    stream.advance_by(3);
    assert_eq!(stream.get_remaining(), "z");
    stream.advance_by(10);
    assert!(stream.is_empty());
    stream.goto_remaining(3);
    assert_eq!(stream.get(), Some('y'));
    stream.advance();
    assert_eq!(stream.curr_span(), Span::new(4, 6));
}

#[test]
fn stream_with_offset() {
    let mut stream = ParseStream::new(Span::new(10, 10), "ab");
    assert_eq!(stream.curr_span(), Span::new(10, 12));
    let v = tokens::Var::parse(&mut stream).unwrap();
    assert_eq!(v.span, Span::new(10, 12));
}

#[test]
fn recorded_errors_are_taken_once() {
    let mut stream = ParseStream::from("a");
    assert!(stream.assert_no_errors().is_ok());
    stream.error(Error::new(Span::new(0, 1), ErrorKind::ExpectedIdentifier));
    stream.error(Error::new(Span::new(1, 2), ErrorKind::UnmatchedQuote));
    let e = stream.assert_no_errors().err().unwrap();
    assert_eq!(e.messages.len(), 2);
    assert!(stream.assert_no_errors().is_ok());
}

#[test]
fn line_and_column_of_a_span() {
    let stream = ParseStream::from("ab\ncd\n\nef");
    assert_eq!(stream.get_line_column_number(Span::new(0, 1)), Some((0, 0)));
    assert_eq!(stream.get_line_column_number(Span::new(4, 5)), Some((1, 1)));
    assert_eq!(stream.get_line_column_number(Span::new(8, 9)), Some((3, 1)));
    assert_eq!(stream.get_line_column_number(Span::new(2, 3)), None);
    assert_eq!(stream.get_line_column_number(Span::new(10, 11)), None);
}

#[test]
fn span_operations() {
    let a = Span::new(2, 5);
    let b = Span::new(4, 9);
    assert_eq!(a.merge(b), Span::new(2, 9));
    assert_eq!(a.width(), 3);
    assert_eq!(a.with_width(1), Span::new(2, 3));
    assert_eq!(a.start(), Span::new(2, 3));
    assert_eq!(a.end(), Span::new(4, 5));
    assert_eq!(Span::new_start(7), Span::new(7, 8));
    assert!(a.merge(b).contains(a));
    assert!(!a.contains(b));
    assert_eq!(a.into_range(), 2..5);
    assert_eq!(a.cmp(&b), std::cmp::Ordering::Less);
    assert_eq!(Span::new(2, 4).cmp(&a), std::cmp::Ordering::Less);
    assert_eq!(a.cmp(&Span::new(2, 5)), std::cmp::Ordering::Equal);
}

#[test]
fn error_keeps_the_furthest() {
    let near = Error::new(Span::new(1, 2), ErrorKind::ExpectedIdentifier);
    let far = Error::new(Span::new(5, 6), ErrorKind::UnmatchedQuote);
    let kept = far.or(near);
    assert_eq!(kept.messages[0].kind, ErrorKind::UnmatchedQuote);
    let mut both = Error::new(Span::new(3, 4), ErrorKind::ExpectedIdentifier);
    both.push(Span::new(8, 9), ErrorKind::UnmatchedParenthesis);
    assert_eq!(both.cover_span(), Span::new(3, 9));
    assert_eq!(both.messages[1].message(), "unmatched parenthesis");
}

#[test]
fn single_character_tokens() {
    let mut stream = ParseStream::from(" .=λ");
    assert_eq!(tokens::parse_token(&mut stream, TokenKind::Dot).unwrap(), Span::new(1, 2));
    assert_eq!(tokens::parse_token(&mut stream, TokenKind::Equal).unwrap(), Span::new(2, 3));
    let err = tokens::parse_token(&mut stream, TokenKind::Dot).err().unwrap();
    assert_eq!(err.messages[0].kind, ErrorKind::ExpectedToken(TokenKind::Dot));
    assert_eq!(err.messages[0].span, Span::new(3, 4));
    assert_eq!(err.messages[0].message(), "expected token Dot");
    assert_eq!(tokens::parse_token(&mut stream, TokenKind::Lambda).unwrap(), Span::new(3, 4));
    assert!(stream.is_empty());
}

#[test]
fn expression_span_covers_its_tokens() {
    let mut stream = ParseStream::from("(\\a. a) b");
    let e = Expr::parse(&mut stream).unwrap();
    assert_eq!(e.span(), Span::new(0, 9));
}

#[test]
fn parse_through_the_stream() {
    let mut stream = ParseStream::from("x = \\y. y");
    let st: Stmt = stream.parse().unwrap();
    match st {
        Stmt::Macro(m) => assert_eq!(m.name.name, "x"),
        _ => panic!("expected a definition"),
    }
}

#[test]
fn letter_runs() {
    assert_eq!(tokens::scan_letters(&vec![true, true, false, true], 0), 2);
    assert_eq!(tokens::scan_letters(&vec![true, true, false, true], 3), 1);
    assert_eq!(tokens::scan_letters(&vec![false], 0), 0);
    assert_eq!(tokens::scan_letters(&vec![], 0), 0);
}

#[test]
fn offsets_count_bytes() {
    let mut stream = ParseStream::from("\u{3000}λx. x");
    stream.skip_whitespace();
    assert_eq!(stream.curr_span().start, 3);
    stream.advance();
    assert_eq!(stream.curr_span().start, 5);
    assert_eq!(stream.get(), Some('x'));
    assert_eq!(stream.curr_span().end, 9);
    assert!(stream.goto(3));
    assert_eq!(stream.get(), Some('λ'));
    assert!(!stream.goto(4));
    assert_eq!(stream.get(), Some('λ'));
}

#[test]
fn spans_are_byte_offsets() {
    let mut stream = ParseStream::from("λé. é");
    let l = lambda::parser::ast::Lambda::parse(&mut stream).unwrap();
    assert_eq!(l.lambda_token.span, Span::new(0, 1));
    assert_eq!(l.var.span, Span::new(2, 4));
    assert_eq!(l.dot_token.span, Span::new(4, 5));
    match &*l.expr {
        Expr::Close(Close::Var(v)) => assert_eq!(v.span, Span::new(6, 8)),
        _ => panic!("expected a variable"),
    }
    let mut bad = ParseStream::from("λé. )");
    let err = lambda::parser::ast::Lambda::parse(&mut bad).err().unwrap();
    assert_eq!(err.messages[0].span.start, 6);
}

#[test]
fn same_remaining_text_same_parse() {
    let mut a = ParseStream::from("zz\\a. a a");
    let mut b = ParseStream::from("yy\\a. a a");
    assert!(a.goto(2));
    assert!(b.goto(2));
    let x = Expr::parse(&mut a).unwrap();
    let y = Expr::parse(&mut b).unwrap();
    assert_eq!(x, y);
    assert_eq!(a.curr_span(), b.curr_span());
}
