use mathparser::ast::{BinOp, Cmp, Command, Expr, Pred, Span};
use mathparser::lexer::ParseError;
use mathparser::{parse_command, parse_expr};

#[test]
fn spans_of_nodes() {
    let e = parse_expr("1 + foo(2, x)").unwrap();
    match e {
        Expr::BinOp(lhs, op, rhs) => {
            assert_eq!(op, Span(BinOp::Add, (2, 3)));
            assert_eq!(lhs.1, (0, 1));
            assert_eq!(rhs.1, (4, 13));
            match &rhs.0 {
                Expr::Func(name, args) => {
                    assert_eq!(name, &Span("foo".to_owned(), (4, 7)));
                    assert_eq!(args.1, (7, 13));
                    assert_eq!(args.len(), 2);
                    assert_eq!(args[0].1, (8, 9));
                    assert_eq!(args[1].0, Expr::Ident(Span("x".to_owned(), (11, 12))));
                }
                _ => panic!("expected a call"),
            }
        }
        _ => panic!("expected a sum"),
    }
}

#[test]
fn parentheses_keep_inner_offsets() {
    match parse_expr("(2 * 3)").unwrap() {
        Expr::BinOp(lhs, op, rhs) => {
            assert_eq!(op.0, BinOp::Mul);
            assert_eq!(lhs.1, (1, 2));
            assert_eq!(rhs.1, (5, 6));
        }
        _ => panic!("expected a product"),
    }
}

#[test]
fn call_without_arguments() {
    match parse_expr("g()").unwrap() {
        Expr::Func(name, args) => {
            assert_eq!(name, Span("g".to_owned(), (0, 1)));
            assert_eq!(args.1, (1, 3));
            assert!(args.is_empty());
        }
        _ => panic!("expected a call"),
    }
}

#[test]
fn command_kinds() {
    match parse_command("f(1) <= 3").unwrap() {
        Command::Pred(Pred::Cmp(lhs, op, rhs)) => {
            assert_eq!(op, Span(Cmp::Le, (5, 7)));
            assert_eq!(lhs.1, (0, 4));
            assert_eq!(rhs.1, (8, 9));
        }
        _ => panic!("expected a comparison"),
    }
    assert!(matches!(parse_command("f(1) + 3").unwrap(), Command::Expr(_)));
}

#[test]
fn conditional_spans() {
    match parse_expr("if x > 1 then 2 else 3").unwrap() {
        Expr::If(cond, then, otherwise) => {
            assert_eq!(cond.1, (3, 8));
            assert_eq!(then.1, (14, 15));
            assert_eq!(otherwise.1, (21, 22));
        }
        _ => panic!("expected a conditional"),
    }
}

#[test]
fn parse_failures() {
    assert_eq!(
        parse_expr("2 + if 1 = 1 then 1 else 0"),
        Err(ParseError::UnrecognizedToken { start: 4, end: 6 })
    );
    assert_eq!(parse_expr("2 $ 3"), Err(ParseError::InvalidToken { location: 2 }));
    assert_eq!(parse_expr("2 3"), Err(ParseError::ExtraToken { start: 2, end: 3 }));
    assert_eq!(parse_expr("2 +"), Err(ParseError::UnrecognizedEof { location: 3 }));
    assert_eq!(parse_expr(""), Err(ParseError::UnrecognizedEof { location: 0 }));
    assert_eq!(parse_expr("f(1,)"), Err(ParseError::UnrecognizedToken { start: 4, end: 5 }));
    assert_eq!(parse_expr("1 = 2"), Err(ParseError::ExtraToken { start: 2, end: 3 }));
    assert_eq!(parse_command("1 = 2 = 3"), Err(ParseError::ExtraToken { start: 6, end: 7 }));
    assert_eq!(parse_expr("é"), Err(ParseError::InvalidToken { location: 0 }));
}

#[test]
fn keywords_are_not_names() {
    assert!(parse_expr("then").is_err());
    assert!(matches!(parse_expr("iffy").unwrap(), Expr::Ident(_)));
}
