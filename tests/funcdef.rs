use mathparser::ast::Span;
use mathparser::errors::MathError;
use mathparser::eval::{Context, EvalError, FuncDef, SymbolValue};
use mathparser::lexer::ParseError;
use mathparser::models::{Problem, ProblemId};
use mathparser::problem::ParsedProblem;
use mathparser::rational::Rational;
use mathparser::{parse_command, parse_expr};

fn definition(text: &str) -> Result<FuncDef, MathError> {
    FuncDef::try_from(parse_command(text).unwrap())
}

#[test]
fn extracts_a_definition() {
    let f = definition("f(x, y) = x + y").unwrap();
    assert_eq!(f.name, "f");
    assert_eq!(f.argument_names, vec!["x".to_owned(), "y".to_owned()]);
    assert_eq!(f.value_expr.describe(), "a sum");
    let mut ctx = Context::new();
    ctx.insert("x".to_owned(), SymbolValue::Num(Rational::from_integer(2)));
    ctx.insert("y".to_owned(), SymbolValue::Num(Rational::from_integer(5)));
    let mut calls = Vec::new();
    assert_eq!(f.value_expr.evaluate(&ctx, &mut calls), Ok(Rational::from_integer(7)));
}

#[test]
fn argument_must_be_a_name() {
    assert_eq!(
        definition("f(1, y) = x").unwrap_err(),
        MathError {
            span: Some((2, 3)),
            message: "Expected an argument name, got a number instead".to_owned(),
        }
    );
}

#[test]
fn bare_expression_is_not_an_equation() {
    assert_eq!(
        definition("f(x, y)").unwrap_err(),
        MathError {
            span: None,
            message: "Expected an equation, got a function application instead".to_owned(),
        }
    );
}

#[test]
fn comparison_is_not_an_equation() {
    assert_eq!(
        definition("f(x, y) < 3").unwrap_err(),
        MathError {
            span: Some((8, 9)),
            message: "Expected an equation, got a comparison instead".to_owned(),
        }
    );
}

#[test]
fn left_side_must_be_an_application() {
    assert_eq!(
        definition("x * 2 = 3").unwrap_err(),
        MathError {
            span: Some((0, 5)),
            message: "Expected a function application on the left side of the equality, got a product instead"
                .to_owned(),
        }
    );
}

#[test]
fn applying_a_definition_matches_its_body() {
    let g = definition("g(a, b) = a * b - a").unwrap();
    let mut direct = Context::new();
    direct.insert("a".to_owned(), SymbolValue::Num(Rational::from_integer(3)));
    direct.insert("b".to_owned(), SymbolValue::Num(Rational::from_integer(4)));
    let mut calls = Vec::new();
    let expected = g.value_expr.evaluate(&direct, &mut calls);

    let mut ctx = Context::new();
    ctx.insert("g".to_owned(), SymbolValue::Func(g));
    let applied = parse_expr("g(3, 4)").unwrap().evaluate(&ctx, &mut calls);
    assert_eq!(applied, expected);
    assert_eq!(applied, Ok(Rational::from_integer(9)));
}

#[test]
fn describes_every_kind() {
    let kinds = [
        ("f(1)", "a function application"),
        ("x", "a variable name"),
        ("if 1 = 1 then 2 else 3", "a conditional expression"),
        ("1 + 2", "a sum"),
        ("1 - 2", "a subtraction"),
        ("1 * 2", "a product"),
        ("1 / 2", "a quotient"),
        ("1 % 2", "a remainder"),
        ("-1", "a negation"),
        ("1", "a number"),
    ];
    for (text, kind) in kinds {
        assert_eq!(parse_expr(text).unwrap().describe(), kind);
    }
}

#[test]
fn eval_error_messages() {
    let arity = MathError::from_eval_error(EvalError::Arity {
        function: Span("f".to_owned(), (0, 1)),
        arglist: (1, 10),
        expected: 1,
        actual: 12,
    });
    assert_eq!(arity.span, Some((1, 10)));
    assert_eq!(arity.message, "`f` takes 1 arguments, but 12 were provided");
    let unknown = MathError::from_eval_error(EvalError::UnknownVariable(Span("x".to_owned(), (4, 5))));
    assert_eq!(unknown.span, Some((4, 5)));
    assert_eq!(unknown.message, "No such variable: `x`");
    let func = MathError::from_eval_error(EvalError::UnknownFunction(Span("foo".to_owned(), (4, 7))));
    assert_eq!(func.message, "No such function: `foo`");
    let not_var = MathError::from_eval_error(EvalError::NotAVariable(Span("f".to_owned(), (0, 1))));
    assert_eq!(not_var.message, "`f` is a function, not a variable");
    let not_fn = MathError::from_eval_error(EvalError::NotAFunction(Span("n".to_owned(), (0, 1))));
    assert_eq!(not_fn.message, "`n` is a variable, not a function");
}

#[test]
fn division_by_zero_message() {
    let mut calls = Vec::new();
    let err = parse_expr("2 / 0").unwrap().evaluate(&Context::new(), &mut calls).unwrap_err();
    let shown = MathError::from_eval_error(err);
    assert_eq!(shown.span, Some((2, 3)));
    assert_eq!(shown.message, "Tried to divide by zero");
}

#[test]
fn parse_error_messages() {
    let eof = MathError::from_parse_error(ParseError::UnrecognizedEof { location: 3 });
    assert_eq!(eof, MathError { span: Some((3, 4)), message: "Expression ended unexpectedly".to_owned() });
    let invalid = MathError::from_parse_error(ParseError::InvalidToken { location: 2 });
    assert_eq!(invalid, MathError { span: Some((2, 3)), message: "You lost me here...".to_owned() });
    let token = MathError::from_parse_error(ParseError::UnrecognizedToken { start: 4, end: 6 });
    assert_eq!(token, MathError { span: Some((4, 6)), message: "You lost me here...".to_owned() });
    let extra = MathError::from_parse_error(ParseError::ExtraToken { start: 2, end: 3 });
    assert_eq!(extra.span, Some((2, 3)));
}

fn test_problem(formula: &str) -> Problem {
    Problem {
        id: ProblemId(1),
        name: "Test".to_owned(),
        description: "Test".to_owned(),
        difficulty: "Test".to_owned(),
        formula: formula.to_owned(),
        domain: "rational(x, y)".to_owned(),
        score_query: 1,
        score_guess_correct: 0,
        score_guess_incorrect: 2,
        score_submit_incorrect: 2,
    }
}

#[test]
fn func_decl_works() {
    let parsed = ParsedProblem::try_from(test_problem("f(x, y) = x + y")).unwrap();
    assert_eq!(parsed.func_decl(), "f(x, y)");
    assert_eq!(parsed.func_def().argument_names, vec!["x".to_owned(), "y".to_owned()]);
    assert_eq!(parsed.domain, "rational(x, y)");
}

#[test]
fn problem_with_bad_formula() {
    let err = ParsedProblem::try_from(test_problem("f(x, y) = ")).unwrap_err();
    assert_eq!(err, MathError { span: Some((9, 10)), message: "Expression ended unexpectedly".to_owned() });
    let err = ParsedProblem::try_from(test_problem("f(2) = 3")).unwrap_err();
    assert_eq!(err.message, "Expected an argument name, got a number instead");
}

#[test]
fn arity_error_points_at_argument_list() {
    let mut ctx = Context::new();
    ctx.insert("f".to_owned(), SymbolValue::Func(definition("f(x) = x*x").unwrap()));
    let mut calls = Vec::new();
    let err = parse_expr("1 + f(2, 3)").unwrap().evaluate(&ctx, &mut calls).unwrap_err();
    let shown = MathError::from_eval_error(err);
    assert_eq!(shown.span, Some((5, 11)));
    assert_eq!(shown.message, "`f` takes 1 arguments, but 2 were provided");
}
