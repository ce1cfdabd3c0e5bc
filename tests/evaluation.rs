use lambda::compiler::{compile_program, compile_stmt, LiteralSet, MacroTable, StmtReturn};
use lambda::error::{Error, RuntimeError};
use lambda::interpreter::Expr;
use lambda::parser::error::ErrorKind;
use lambda::span::Span;

#[test]
fn test_compilation() {
    let input = "(\\a. a a) (\\a. a a)";
    assert!(compile_program(input).is_ok());
}

#[test]
fn test_infinite_loop() {
    let input = "(\\a. a a) (\\a. a a)";
    let mut compiled = compile_program(input).ok().unwrap();
    assert!(compiled.eval().is_err());
}

#[test]
fn test_id() {
    let input = "(\\a. a) \"hello\"";
    let mut literals = LiteralSet::new();
    let mut macros = MacroTable::new();
    match compile_stmt(input, &mut literals, &mut macros) {
        Ok(StmtReturn::Expr(mut expr)) => assert!(expr.eval().is_ok()),
        Ok(StmtReturn::Macro(_)) => assert!(false, "should be an expr"),
        Err(err) => assert!(false, "failed with error: {}", err.messages[0].message()),
    }
}

#[test]
fn test_lambda_and() {
    let input = r#"
            True  = \a. \b. a
            False = \a. \b. b
            And   = \a. \b. a b False

            And True False
        "#;
    let mut expr = match compile_program(input) {
        Ok(ex) => ex.expr,
        Err(_) => panic!("compilation failed"),
    };
    match expr.eval() {
        Ok(_) => {},
        err => panic!("err is {:?}", err),
    }
}

fn single_error(input: &str) -> lambda::parser::error::ErrorMessage {
    match compile_program(input) {
        Ok(_) => panic!("expected a failure"),
        Err(e) => {
            assert_eq!(e.messages.len(), 1);
            e.messages[0]
        },
    }
}

#[test]
fn self_application_hits_the_bound() {
    let mut compiled = compile_program("(λx. x x) (λx. x x)").ok().unwrap();
    let half = Expr::Lambda {
        param: 0,
        expr: Box::new(Expr::Appl { f: Box::new(Expr::Var(0)), arg: Box::new(Expr::Var(0)) }),
    };
    let omega = Expr::Appl { f: Box::new(half.clone()), arg: Box::new(half) };
    assert_eq!(compiled.expr, omega);
    assert_eq!(compiled.eval(), Err(RuntimeError::IterationExceeded));
    assert_eq!(compiled.expr, omega);
}

#[test]
fn identity_on_literal() {
    let mut compiled = compile_program("(λx. x) \"hello\"").ok().unwrap();
    assert!(compiled.eval().is_ok());
    match &compiled.expr {
        Expr::Literal(s) => assert_eq!(s.as_str(), "hello"),
        other => panic!("unexpected result {}", other.to_string()),
    }
    assert_eq!(compiled.expr.to_string(), "\"hello\"");
}

#[test]
fn undeclared_name_is_reported_at_its_span() {
    let m = single_error("(\\x. x) foo");
    assert_eq!(m.kind, ErrorKind::UndeclaredName);
    assert_eq!(m.span, Span::new(8, 11));
    assert_eq!(m.message(), "use of undeclared variable or macro");
}

#[test]
fn macro_cannot_see_later_definitions() {
    let m = single_error("A = \\x. B\nB = \\y. y\nA");
    assert_eq!(m.kind, ErrorKind::UndeclaredName);
    assert_eq!(m.span, Span::new(8, 9));
}

#[test]
fn macro_body_cannot_see_use_site_variables() {
    let m = single_error("K = y\n\\y. K");
    assert_eq!(m.kind, ErrorKind::UndeclaredName);
    assert_eq!(m.span, Span::new(4, 5));
}

#[test]
fn program_without_expression() {
    let m = single_error("Id = \\a. a");
    assert_eq!(m.kind, ErrorKind::ExpectedExpression);
    assert_eq!(m.span, Span::new(0, 10));
}

#[test]
fn empty_program() {
    let m = single_error("");
    assert_eq!(m.kind, ErrorKind::ExpectedExpression);
}

#[test]
fn parse_error_comes_through() {
    let m = single_error("(a");
    assert_eq!(m.kind, ErrorKind::ExpectedExpression);
}

#[test]
fn renaming_gives_the_same_compiled_form() {
    let a = compile_program("\\a. a").ok().unwrap().expr;
    let b = compile_program("\\b. b").ok().unwrap().expr;
    assert_eq!(a, b);
    let mut c = Expr::Lambda { param: 5, expr: Box::new(Expr::Lambda { param: 9, expr: Box::new(Expr::Var(5)) }) };
    c.alpha_convert();
    let d = compile_program("\\x. \\y. x").ok().unwrap().expr;
    assert_eq!(c, d);
}

#[test]
fn alpha_convert_from_offset() {
    let mut c = Expr::Lambda { param: 0, expr: Box::new(Expr::Var(0)) };
    c.alpha_convert_from(3);
    assert_eq!(c, Expr::Lambda { param: 3, expr: Box::new(Expr::Var(3)) });
    let p = c.pure_alpha_convert();
    assert_eq!(p, Expr::Lambda { param: 0, expr: Box::new(Expr::Var(0)) });
}

#[test]
fn shadowing_binds_innermost() {
    let e = compile_program("\\a. \\a. a").ok().unwrap().expr;
    assert_eq!(e, Expr::Lambda { param: 0, expr: Box::new(Expr::Lambda { param: 1, expr: Box::new(Expr::Var(1)) }) });
}

#[test]
fn boolean_and_reduces_to_false() {
    let input = "True = \\a. \\b. a\nFalse = \\a. \\b. b\nAnd = \\a. \\b. a b False\nAnd True False";
    let mut compiled = compile_program(input).ok().unwrap();
    assert!(compiled.eval().is_ok());
    match &compiled.expr {
        Expr::MacroRef(m) => {
            assert_eq!(m.name, "False");
            assert_eq!(m.expr, Expr::Lambda { param: 0, expr: Box::new(Expr::Lambda { param: 1, expr: Box::new(Expr::Var(1)) }) });
        },
        other => panic!("unexpected result {}", other.to_string()),
    }
    assert_eq!(compiled.expr.to_string(), "False");
}

#[test]
fn macro_result_shows_its_name() {
    let mut compiled = compile_program("Id = \\a. a\nId").ok().unwrap();
    assert!(compiled.eval().is_ok());
    assert_eq!(compiled.expr.to_string(), "Id");
}

#[test]
fn session_keeps_definitions() {
    let mut literals = LiteralSet::new();
    let mut macros = MacroTable::new();
    match compile_stmt("Id = \\a. a", &mut literals, &mut macros) {
        Ok(StmtReturn::Macro(name)) => assert_eq!(name, "Id"),
        _ => panic!("expected a definition"),
    }
    assert_eq!(macros.len(), 1);
    match compile_stmt("Id \"x\"", &mut literals, &mut macros) {
        Ok(StmtReturn::Expr(mut e)) => {
            assert!(e.eval().is_ok());
            assert_eq!(e.to_string(), "\"x\"");
        },
        _ => panic!("expected an expression"),
    }
    assert_eq!(literals.len(), 1);
    let err = compile_stmt("Nope \"y\"", &mut literals, &mut macros).err().unwrap();
    assert_eq!(err.messages[0].kind, ErrorKind::UndeclaredName);
    assert_eq!(err.messages[0].span, Span::new(0, 4));
    assert_eq!(literals.len(), 1);
    assert_eq!(macros.len(), 1);
}

#[test]
fn shared_literals_are_interned() {
    let compiled = compile_program("(\\x. \\y. x) \"s\" \"s\"").ok().unwrap();
    assert_eq!(compiled.literals.len(), 1);
}

#[test]
fn display_forms() {
    let app = Expr::Appl {
        f: Box::new(Expr::Lambda { param: 0, expr: Box::new(Expr::Var(0)) }),
        arg: Box::new(Expr::Appl { f: Box::new(Expr::Var(1)), arg: Box::new(Expr::Var(2)) }),
    };
    assert_eq!(app.to_string(), "(λa. a) (b c)");
    let lits = compile_program("(\\x. x) (\"a\" \"b\")").ok().unwrap().expr;
    match &lits {
        Expr::Appl { arg, .. } => assert_eq!(arg.to_string(), "\"ab\""),
        _ => panic!("expected an application"),
    }
    assert_eq!(Expr::Nothing.to_string(), "[nothing expression]");
}

#[test]
fn nothing_cannot_be_evaluated() {
    let mut e = Expr::Nothing;
    assert_eq!(e.eval(), Err(RuntimeError::NothingEval));
}

#[test]
fn depth_bound_is_reported() {
    let mut e = Expr::Var(0);
    assert_eq!(e.eval_depth(65, false), Err(RuntimeError::RecursionDepthExceeded));
    assert!(e.eval_depth(64, false).is_ok());
}

#[test]
fn normal_form_predicates() {
    let eta = Expr::Lambda {
        param: 0,
        expr: Box::new(Expr::Appl { f: Box::new(Expr::Var(1)), arg: Box::new(Expr::Var(0)) }),
    };
    assert!(eta.is_n_reducible());
    assert!(!eta.is_normal_form());
    assert!(!eta.is_whnf());
    let not_eta = Expr::Lambda {
        param: 0,
        expr: Box::new(Expr::Appl { f: Box::new(Expr::Var(0)), arg: Box::new(Expr::Var(0)) }),
    };
    assert!(!not_eta.is_n_reducible());
    assert!(not_eta.is_normal_form());
    assert_eq!(not_eta.get_biggest_var_id(), Some(0));
    assert_eq!(Expr::Nothing.get_biggest_var_id(), None);
}

#[test]
fn take_and_replace() {
    let mut e = Expr::Var(3);
    let old = e.replace(Expr::Var(4));
    assert_eq!(old, Expr::Var(3));
    assert_eq!(e.take(), Expr::Var(4));
    assert_eq!(e, Expr::Nothing);
}

#[test]
fn runtime_error_messages() {
    assert_eq!(RuntimeError::new(), RuntimeError::Unknown);
    assert_eq!(RuntimeError::default(), RuntimeError::Unknown);
    assert_eq!(RuntimeError::NothingEval.message(), "Tried to evaluate a nothing expression");
}

#[test]
fn redex_on_the_spine_is_not_whnf() {
    let redex = Expr::Appl {
        f: Box::new(Expr::Lambda { param: 0, expr: Box::new(Expr::Var(0)) }),
        arg: Box::new(Expr::Var(1)),
    };
    assert!(!redex.is_whnf());
    let stuck = Expr::Appl { f: Box::new(Expr::Var(1)), arg: Box::new(Expr::Var(2)) };
    assert!(stuck.is_whnf());
    let mut compiled = compile_program("Id = \\a. a\nId Id").ok().unwrap();
    assert!(!compiled.expr.is_whnf());
    assert!(compiled.eval().is_ok());
    assert!(compiled.expr.is_whnf());
}

#[test]
fn eta_check_uses_free_occurrence() {
    let inner = Expr::Lambda { param: 0, expr: Box::new(Expr::Var(0)) };
    let e = Expr::Lambda {
        param: 0,
        expr: Box::new(Expr::Appl { f: Box::new(inner), arg: Box::new(Expr::Var(0)) }),
    };
    assert!(e.is_n_reducible());
}

#[test]
fn beta_redex_is_not_normal() {
    let redex = Expr::Appl {
        f: Box::new(Expr::Lambda { param: 0, expr: Box::new(Expr::Var(0)) }),
        arg: Box::new(Expr::Var(1)),
    };
    assert!(!redex.is_normal_form());
    let lam = Expr::Lambda { param: 0, expr: Box::new(redex) };
    assert!(!lam.is_normal_form());
}

#[test]
fn biggest_index_looks_at_both_sides() {
    let lits = compile_program("\"a\"").ok().unwrap().expr;
    let e = Expr::Appl { f: Box::new(lits), arg: Box::new(Expr::Var(3)) };
    assert_eq!(e.get_biggest_var_id(), Some(3));
}

#[test]
fn program_keeps_its_definitions() {
    let input = "True = \\a. \\b. a\nFalse = \\a. \\b. b\nAnd = \\a. \\b. a b False\nAnd True False";
    let compiled = compile_program(input).ok().unwrap();
    let names: Vec<String> = compiled.macros.entries.iter().map(|m| m.name.clone()).collect();
    assert_eq!(names, vec!["True", "False", "And"]);
    assert_eq!(compiled.macros.entries[1].expr, Expr::Lambda { param: 0, expr: Box::new(Expr::Lambda { param: 1, expr: Box::new(Expr::Var(1)) }) });
}

#[test]
fn errors_are_cleared_after_taking() {
    let mut stream = lambda::parser::parse_stream::ParseStream::from("a");
    stream.error(lambda::parser::error::Error::new(Span::new(0, 1), ErrorKind::ExpectedIdentifier));
    assert!(stream.assert_no_errors().is_err());
    assert!(stream.assert_no_errors().is_ok());
}
