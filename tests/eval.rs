use mathparser::ast::{BinOp, Span};
use mathparser::eval::{Context, EvalError, FuncDef, FunctionCall, SymbolValue};
use mathparser::parse_expr;
use mathparser::rational::Rational;

fn ratio(numer: i64, denom: i64) -> Rational {
    Rational::from_integer(numer).div(&Rational::from_integer(denom))
}

fn empty_ctx(expr: &str) -> Result<Rational, EvalError> {
    let ctx = Context::new();
    with_ctx(&ctx, expr)
}

fn with_ctx(ctx: &Context, expr: &str) -> Result<Rational, EvalError> {
    let mut calls = Vec::new();
    parse_expr(expr).unwrap().evaluate(ctx, &mut calls)
}

fn square() -> FuncDef {
    FuncDef {
        name: "f".to_owned(),
        argument_names: vec!["x".to_owned()],
        value_expr: parse_expr("x*x").unwrap(),
    }
}

#[test]
fn it_works() {
    assert_eq!(empty_ctx("2 + 2"), Ok(ratio(4, 1)));
}

#[test]
fn handles_negatives() {
    assert_eq!(empty_ctx("2 + -3"), Ok(ratio(-1, 1)));
}

#[test]
fn div0_doesnt_explode() {
    assert_eq!(empty_ctx("2 / 0"), Err(EvalError::DivisionByZero(Span(BinOp::Div, (2, 3)))));
}

#[test]
fn if_needs_parentheses() {
    assert!(parse_expr("2 + if 1 = 1 then 1 else 0").is_err());
}

#[test]
fn reduced_fractions_equal() {
    assert_eq!(empty_ctx("if 2/3 = 4/6 then 1 else 0"), Ok(ratio(1, 1)));
}

#[test]
fn false_conditions() {
    assert_eq!(empty_ctx("if 3 < 2 then 1 else 0"), Ok(ratio(0, 1)));
}

#[test]
fn unevaluated_branch_no_error() {
    assert_eq!(empty_ctx("if 0 = 1 then 3 / 0 else 7"), Ok(ratio(7, 1)));
}

#[test]
fn unknown_variable() {
    assert_eq!(
        empty_ctx("3 * x"),
        Err(EvalError::UnknownVariable(Span("x".to_owned(), (4, 5))))
    );
}

#[test]
fn handles_variable() {
    let mut ctx = Context::new();
    ctx.insert("x".to_owned(), SymbolValue::Num(ratio(7, 1)));
    assert_eq!(with_ctx(&ctx, "3 * x"), Ok(ratio(21, 1)));
}

#[test]
fn handles_function() {
    let mut ctx = Context::new();
    ctx.insert("f".to_owned(), SymbolValue::Func(square()));

    let expr = parse_expr("f(3) + 4").unwrap();
    let mut calls = Vec::new();
    let value = expr.evaluate(&ctx, &mut calls);
    assert_eq!(value, Ok(ratio(13, 1)));
    assert_eq!(calls, vec![FunctionCall { name: "f".to_owned(), args: vec![ratio(3, 1)] }]);
}

#[test]
fn detects_arity_error_early() {
    let mut ctx = Context::new();
    ctx.insert("f".to_owned(), SymbolValue::Func(square()));

    let expr = parse_expr("f(2, f(7))").unwrap();
    let mut calls = Vec::new();
    let value = expr.evaluate(&ctx, &mut calls);
    assert_eq!(
        value,
        Err(EvalError::Arity {
            function: Span("f".to_owned(), (0, 1)),
            arglist: (1, 10),
            expected: 1,
            actual: 2,
        })
    );
    assert!(calls.is_empty());
}

#[test]
fn tracks_location_of_function_calls() {
    assert_eq!(
        empty_ctx("1 + foo(2)"),
        Err(EvalError::UnknownFunction(Span("foo".to_owned(), (4, 7))))
    );
}

#[test]
fn function_lexical_scoping() {
    let mut ctx = Context::new();
    ctx.insert("f".to_owned(), SymbolValue::Func(square()));
    ctx.insert("x".to_owned(), SymbolValue::Num(ratio(7, 1)));
    let expr = parse_expr("f(3) + x").unwrap();
    let mut calls = Vec::new();
    let value = expr.evaluate(&ctx, &mut calls);
    assert_eq!(value, Ok(ratio(16, 1)));
    assert_eq!(calls, vec![FunctionCall { name: "f".to_owned(), args: vec![ratio(3, 1)] }]);
}

#[test]
fn body_cannot_see_caller_variables() {
    let mut ctx = Context::new();
    ctx.insert(
        "g".to_owned(),
        SymbolValue::Func(FuncDef {
            name: "g".to_owned(),
            argument_names: vec!["a".to_owned()],
            value_expr: parse_expr("a + y").unwrap(),
        }),
    );
    ctx.insert("y".to_owned(), SymbolValue::Num(ratio(1, 1)));
    assert_eq!(
        with_ctx(&ctx, "g(2)"),
        Err(EvalError::UnknownVariable(Span("y".to_owned(), (4, 5))))
    );
}

#[test]
fn parenthesised_conditional_evaluates() {
    assert_eq!(empty_ctx("2 + (if 1 = 1 then 1 else 0)"), Ok(ratio(3, 1)));
}

#[test]
fn exact_fractions() {
    assert_eq!(empty_ctx("1/3 + 1/6"), Ok(ratio(1, 2)));
    assert_eq!(empty_ctx("2/3 * 3/4"), Ok(ratio(1, 2)));
    assert_eq!(empty_ctx("1/2 - 3/4"), Ok(ratio(-1, 4)));
    assert_eq!(empty_ctx("(1/2) / (3/4)"), Ok(ratio(2, 3)));
}

#[test]
fn remainders_truncate_toward_zero() {
    assert_eq!(empty_ctx("7 % 3"), Ok(ratio(1, 1)));
    assert_eq!(empty_ctx("-7 % 3"), Ok(ratio(-1, 1)));
    assert_eq!(empty_ctx("7 % -3"), Ok(ratio(1, 1)));
    assert_eq!(empty_ctx("7/2 % 1"), Ok(ratio(1, 2)));
    assert_eq!(empty_ctx("5 % 0"), Err(EvalError::DivisionByZero(Span(BinOp::Mod, (2, 3)))));
}

#[test]
fn operators_bind_and_associate() {
    assert_eq!(empty_ctx("2 + 3 * 4"), Ok(ratio(14, 1)));
    assert_eq!(empty_ctx("10 - 3 - 2"), Ok(ratio(5, 1)));
    assert_eq!(empty_ctx("12 / 3 / 2"), Ok(ratio(2, 1)));
    assert_eq!(empty_ctx("--3"), Ok(ratio(3, 1)));
    assert_eq!(empty_ctx("-(2 + 3) * 2"), Ok(ratio(-10, 1)));
}

#[test]
fn comparisons() {
    assert_eq!(empty_ctx("if 1 <= 1 then 1 else 0"), Ok(ratio(1, 1)));
    assert_eq!(empty_ctx("if 1 >= 2 then 1 else 0"), Ok(ratio(0, 1)));
    assert_eq!(empty_ctx("if 1/2 > 1/3 then 1 else 0"), Ok(ratio(1, 1)));
    assert_eq!(empty_ctx("if -1 < 0 then 1 else 0"), Ok(ratio(1, 1)));
}

#[test]
fn large_literals_are_exact() {
    assert_eq!(
        empty_ctx("100000000000000000000 - 99999999999999999999"),
        Ok(ratio(1, 1))
    );
    assert_eq!(empty_ctx("18446744073709551616 / 9223372036854775808"), Ok(ratio(2, 1)));
}

#[test]
fn names_bound_to_the_wrong_kind() {
    let mut ctx = Context::new();
    ctx.insert("f".to_owned(), SymbolValue::Func(square()));
    ctx.insert("n".to_owned(), SymbolValue::Num(ratio(1, 1)));
    assert_eq!(with_ctx(&ctx, "f + 1"), Err(EvalError::NotAVariable(Span("f".to_owned(), (0, 1)))));
    assert_eq!(with_ctx(&ctx, "n(1)"), Err(EvalError::NotAFunction(Span("n".to_owned(), (0, 1)))));
}

#[test]
fn later_binding_replaces_earlier() {
    let mut ctx = Context::new();
    ctx.insert("x".to_owned(), SymbolValue::Num(ratio(1, 1)));
    ctx.insert("x".to_owned(), SymbolValue::Num(ratio(5, 1)));
    assert_eq!(ctx.0.len(), 1);
    assert_eq!(with_ctx(&ctx, "x"), Ok(ratio(5, 1)));
}

#[test]
fn repeated_parameter_takes_last_argument() {
    let mut ctx = Context::new();
    ctx.insert(
        "f".to_owned(),
        SymbolValue::Func(FuncDef {
            name: "f".to_owned(),
            argument_names: vec!["x".to_owned(), "x".to_owned()],
            value_expr: parse_expr("x").unwrap(),
        }),
    );
    assert_eq!(with_ctx(&ctx, "f(1, 2)"), Ok(ratio(2, 1)));
}

#[test]
fn nested_calls_are_recorded_in_order() {
    let mut ctx = Context::new();
    ctx.insert("f".to_owned(), SymbolValue::Func(square()));
    let mut calls = Vec::new();
    let value = parse_expr("f(f(2)) + f(1)").unwrap().evaluate(&ctx, &mut calls);
    assert_eq!(value, Ok(ratio(17, 1)));
    assert_eq!(
        calls,
        vec![
            FunctionCall { name: "f".to_owned(), args: vec![ratio(2, 1)] },
            FunctionCall { name: "f".to_owned(), args: vec![ratio(4, 1)] },
            FunctionCall { name: "f".to_owned(), args: vec![ratio(1, 1)] },
        ]
    );
}

#[test]
fn calls_before_a_failure_are_recorded() {
    let mut ctx = Context::new();
    ctx.insert("f".to_owned(), SymbolValue::Func(square()));
    let mut calls = Vec::new();
    let value = parse_expr("f(2) / (f(0) - 0)").unwrap().evaluate(&ctx, &mut calls);
    assert_eq!(value, Err(EvalError::DivisionByZero(Span(BinOp::Div, (5, 6)))));
    assert_eq!(calls.len(), 2);
}
