//! The one error type shown to users, made from parse and evaluation
//! failures, and the reading of an equation as a function definition.

use crate::ast::{args_view, lemma_args_view, BinOp, Cmp, Command, CommandV, Expr, ExprV, Offsets, Pred, PredV};
use crate::eval::{names_view, EvalError, Failure, FuncDef, FuncDefV};
use crate::lexer::ParseError;
use vstd::prelude::*;

verus! {

/// A message for the user, and the offsets of the text it is about; with no
/// offsets the whole input is meant.
#[derive(Clone, Debug, PartialEq, Eq)]
pub struct MathError {
    pub span: Option<(usize, usize)>,
    pub message: String,
}

/// The offsets of the single position `p`.
pub open spec fn position(p: usize) -> Offsets {
    if p < usize::MAX {
        (p, (p + 1) as usize)
    } else {
        (p, p)
    }
}

pub open spec fn parse_error_span(e: ParseError) -> Offsets {
    match e {
        ParseError::InvalidToken { location } => position(location),
        ParseError::UnrecognizedToken { start, end } => (start, end),
        ParseError::UnrecognizedEof { location } => position(location),
        ParseError::ExtraToken { start, end } => (start, end),
    }
}

pub open spec fn parse_error_message(e: ParseError) -> Seq<char> {
    match e {
        ParseError::UnrecognizedEof { .. } => "Expression ended unexpectedly"@,
        _ => "You lost me here..."@,
    }
}

pub open spec fn digit_char(d: nat) -> char {
    ((d % 10) + 48) as char
}

/// The decimal digits of `n`.
pub open spec fn decimal_chars(n: nat) -> Seq<char>
    decreases n,
{
    if n < 10 {
        seq![digit_char(n)]
    } else {
        decimal_chars(n / 10).push(digit_char(n % 10))
    }
}

pub open spec fn failure_span(f: Failure) -> Offsets {
    match f {
        Failure::UnknownVariable(_, at) => at,
        Failure::UnknownFunction(_, at) => at,
        Failure::NotAVariable(_, at) => at,
        Failure::NotAFunction(_, at) => at,
        Failure::Arity(_, _, list_at, _, _) => list_at,
        Failure::DivisionByZero(_, at) => at,
    }
}

pub open spec fn failure_message(f: Failure) -> Seq<char> {
    match f {
        Failure::UnknownVariable(n, _) => "No such variable: `"@ + n + "`"@,
        Failure::UnknownFunction(n, _) => "No such function: `"@ + n + "`"@,
        Failure::NotAVariable(n, _) => "`"@ + n + "` is a function, not a variable"@,
        Failure::NotAFunction(n, _) => "`"@ + n + "` is a variable, not a function"@,
        Failure::Arity(n, _, _, expected, actual) => "`"@ + n + "` takes "@ + decimal_chars(expected)
            + " arguments, but "@ + decimal_chars(actual) + " were provided"@,
        Failure::DivisionByZero(_, _) => "Tried to divide by zero"@,
    }
}

/// How an expression is named in messages.
pub open spec fn description(e: ExprV) -> Seq<char> {
    match e {
        ExprV::Func(..) => "a function application"@,
        ExprV::Ident(..) => "a variable name"@,
        ExprV::If(..) => "a conditional expression"@,
        ExprV::BinOp(_, op, _, _) => match op {
            BinOp::Add => "a sum"@,
            BinOp::Sub => "a subtraction"@,
            BinOp::Mul => "a product"@,
            BinOp::Div => "a quotient"@,
            BinOp::Mod => "a remainder"@,
        },
        ExprV::Neg(..) => "a negation"@,
        ExprV::Num(..) => "a number"@,
    }
}

/// `k` is the first argument that is not a bare name.
pub open spec fn first_non_name(args: Seq<(ExprV, Offsets)>, k: int) -> bool {
    &&& 0 <= k < args.len()
    &&& !(args[k].0 is Ident)
    &&& forall|j: int| 0 <= j < k ==> (#[trigger] args[j]).0 is Ident
}

/// The names of arguments that are all bare names.
pub open spec fn arg_names(args: Seq<(ExprV, Offsets)>) -> Seq<Seq<char>> {
    args.map_values(|a: (ExprV, Offsets)| a.0->Ident_0)
}

/// A command read as `name(params...) = body`, or the offsets and message
/// that say why it is not one.
pub open spec fn definition_of(c: CommandV) -> Result<FuncDefV, (Option<Offsets>, Seq<char>)> {
    match c {
        CommandV::Pred(PredV::Cmp(lhs, op, op_at, rhs)) => if op != Cmp::Eq {
            Err((Some(op_at), "Expected an equation, got a comparison instead"@))
        } else {
            match lhs.0 {
                ExprV::Func(name, _, args, _) => if exists|k: int| first_non_name(args, k) {
                    let k = choose|k: int| first_non_name(args, k);
                    Err(
                        (
                            Some(args[k].1),
                            "Expected an argument name, got "@ + description(args[k].0)
                                + " instead"@,
                        ),
                    )
                } else {
                    Ok(FuncDefV { name, params: arg_names(args), body: rhs.0 })
                },
                other => Err(
                    (
                        Some(lhs.1),
                        "Expected a function application on the left side of the equality, got "@
                            + description(other) + " instead"@,
                    ),
                ),
            }
        },
        CommandV::Expr(e) => Err((None, "Expected an equation, got "@ + description(e) + " instead"@)),
    }
}

proof fn lemma_first_non_name(args: Seq<(ExprV, Offsets)>, k: int)
    requires
        first_non_name(args, k),
    ensures
        (choose|j: int| first_non_name(args, j)) == k,
{
    let j = choose|j: int| first_non_name(args, j);
    assert(first_non_name(args, j));
    if j < k {
        assert(args[j].0 is Ident);
    } else if k < j {
        assert(args[k].0 is Ident);
    }
}

fn digit_str(d: usize) -> (r: &'static str)
    requires
        d < 10,
    ensures
        r@ == seq![digit_char(d as nat)],
{
    proof {
        reveal_strlit("0");
        reveal_strlit("1");
        reveal_strlit("2");
        reveal_strlit("3");
        reveal_strlit("4");
        reveal_strlit("5");
        reveal_strlit("6");
        reveal_strlit("7");
        reveal_strlit("8");
        reveal_strlit("9");
    }
    let r = if d == 0 {
        "0"
    } else if d == 1 {
        "1"
    } else if d == 2 {
        "2"
    } else if d == 3 {
        "3"
    } else if d == 4 {
        "4"
    } else if d == 5 {
        "5"
    } else if d == 6 {
        "6"
    } else if d == 7 {
        "7"
    } else if d == 8 {
        "8"
    } else {
        "9"
    };
    assert(r@ =~= seq![digit_char(d as nat)]);
    r
}

/// `n` written in decimal.
pub(crate) fn decimal_string(n: usize) -> (r: String)
    ensures
        r@ == decimal_chars(n as nat),
    decreases n,
{
    if n < 10 {
        String::from_str(digit_str(n))
    } else {
        let r = decimal_string(n / 10).concat(digit_str(n % 10));
        assert(r@ =~= decimal_chars(n as nat));
        r
    }
}

impl MathError {
    /// The message for a text that could not be parsed.
    pub fn from_parse_error(error: ParseError) -> (r: MathError)
        ensures
            r.span == Some(parse_error_span(error)),
            r.message@ == parse_error_message(error),
    {
        match error {
            ParseError::InvalidToken { location } => MathError {
                span: Some(
                    if location < usize::MAX {
                        (location, location + 1)
                    } else {
                        (location, location)
                    },
                ),
                message: String::from_str("You lost me here..."),
            },
            ParseError::UnrecognizedToken { start, end } => MathError {
                span: Some((start, end)),
                message: String::from_str("You lost me here..."),
            },
            ParseError::ExtraToken { start, end } => MathError {
                span: Some((start, end)),
                message: String::from_str("You lost me here..."),
            },
            ParseError::UnrecognizedEof { location } => MathError {
                span: Some(
                    if location < usize::MAX {
                        (location, location + 1)
                    } else {
                        (location, location)
                    },
                ),
                message: String::from_str("Expression ended unexpectedly"),
            },
        }
    }

    /// The message for an evaluation that failed.
    pub fn from_eval_error(error: EvalError) -> (r: MathError)
        ensures
            r.span == Some(failure_span(error@)),
            r.message@ == failure_message(error@),
    {
        match error {
            EvalError::UnknownVariable(name) => MathError {
                span: Some(name.1),
                message: String::from_str("No such variable: `").concat(name.0.as_str()).concat("`"),
            },
            EvalError::UnknownFunction(name) => MathError {
                span: Some(name.1),
                message: String::from_str("No such function: `").concat(name.0.as_str()).concat("`"),
            },
            EvalError::NotAVariable(name) => MathError {
                span: Some(name.1),
                message: String::from_str("`").concat(name.0.as_str()).concat(
                    "` is a function, not a variable",
                ),
            },
            EvalError::NotAFunction(name) => MathError {
                span: Some(name.1),
                message: String::from_str("`").concat(name.0.as_str()).concat(
                    "` is a variable, not a function",
                ),
            },
            EvalError::Arity { function, arglist, expected, actual } => {
                let expected = decimal_string(expected);
                let actual = decimal_string(actual);
                MathError {
                    span: Some(arglist),
                    message: String::from_str("`").concat(function.0.as_str()).concat(
                        "` takes ",
                    ).concat(expected.as_str()).concat(" arguments, but ").concat(
                        actual.as_str(),
                    ).concat(" were provided"),
                }
            },
            EvalError::DivisionByZero(op) => MathError {
                span: Some(op.1),
                message: String::from_str("Tried to divide by zero"),
            },
        }
    }
}

impl Expr {
    /// How this kind of expression is named in messages.
    pub fn describe(&self) -> (r: &'static str)
        ensures
            r@ == description(self@),
    {
        match self {
            Expr::Func(_, _) => "a function application",
            Expr::Ident(_) => "a variable name",
            Expr::If(_, _, _) => "a conditional expression",
            Expr::BinOp(_, op, _) => match op.0 {
                BinOp::Add => "a sum",
                BinOp::Sub => "a subtraction",
                BinOp::Mul => "a product",
                BinOp::Div => "a quotient",
                BinOp::Mod => "a remainder",
            },
            Expr::Neg(_) => "a negation",
            Expr::Num(_) => "a number",
        }
    }
}

impl FuncDef {
    /// Reads an equation `name(a, b, ...) = body` as a function definition.
    pub fn try_from(cmd: Command) -> (r: Result<FuncDef, MathError>)
        ensures
            match r {
                Ok(f) => definition_of(cmd@) == Ok::<FuncDefV, (Option<Offsets>, Seq<char>)>(f@),
                Err(e) => definition_of(cmd@) == Err::<FuncDefV, (Option<Offsets>, Seq<char>)>(
                    (e.span, e.message@),
                ),
            },
    {
        let ghost c = cmd@;
        match cmd {
            Command::Pred(Pred::Cmp(lhs, op, rhs)) => {
                if op.0 != Cmp::Eq {
                    return Err(
                        MathError {
                            span: Some(op.1),
                            message: String::from_str("Expected an equation, got a comparison instead"),
                        },
                    );
                }
                let lhs_at = lhs.1;
                match lhs.0 {
                    Expr::Func(name, arglist) => {
                        let args = arglist.0;
                        let list_at = arglist.1;
                        let ghost av = args_view(args@);
                        proof {
                            lemma_args_view(args@);
                        }
                        assert(c == CommandV::Pred(
                            PredV::Cmp(
                                (ExprV::Func(name.0@, name.1, av, list_at), lhs_at),
                                Cmp::Eq,
                                op.1,
                                (rhs.0@, rhs.1),
                            ),
                        ));
                        let mut names: Vec<String> = Vec::new();
                        let mut i: usize = 0;
                        while i < args.len()
                            invariant
                                i <= args.len(),
                                c == cmd@,
                                c == CommandV::Pred(
                                    PredV::Cmp(
                                        (ExprV::Func(name.0@, name.1, av, list_at), lhs_at),
                                        Cmp::Eq,
                                        op.1,
                                        (rhs.0@, rhs.1),
                                    ),
                                ),
                                av == args_view(args@),
                                av.len() == args.len(),
                                forall|k: int|
                                    0 <= k < args.len() ==> #[trigger] av[k] == (
                                        args[k].0@,
                                        args[k].1,
                                    ),
                                forall|j: int| 0 <= j < i ==> (#[trigger] av[j]).0 is Ident,
                                names_view(names@) =~= arg_names(av.subrange(0, i as int)),
                            decreases args.len() - i,
                        {
                            match &args[i].0 {
                                Expr::Ident(id) => {
                                    let ghost before = names_view(names@);
                                    names.push(id.0.clone());
                                    assert(names_view(names@) =~= before.push(id.0@));
                                    assert(arg_names(av.subrange(0, i + 1)) =~= arg_names(
                                        av.subrange(0, i as int),
                                    ).push(id.0@));
                                },
                                e => {
                                    assert(!(av[i as int].0 is Ident));
                                    assert(first_non_name(av, i as int));
                                    proof {
                                        lemma_first_non_name(av, i as int);
                                    }
                                    return Err(
                                        MathError {
                                            span: Some(args[i].1),
                                            message: String::from_str(
                                                "Expected an argument name, got ",
                                            ).concat(e.describe()).concat(" instead"),
                                        },
                                    );
                                },
                            }
                            i += 1;
                        }
                        assert(av.subrange(0, av.len() as int) =~= av);
                        assert(!exists|k: int| first_non_name(av, k));
                        Ok(FuncDef { name: name.0, argument_names: names, value_expr: rhs.0 })
                    },
                    other => Err(
                        MathError {
                            span: Some(lhs_at),
                            message: String::from_str(
                                "Expected a function application on the left side of the equality, got ",
                            ).concat(other.describe()).concat(" instead"),
                        },
                    ),
                }
            },
            Command::Expr(e) => Err(
                MathError {
                    span: None,
                    message: String::from_str("Expected an equation, got ").concat(
                        e.describe(),
                    ).concat(" instead"),
                },
            ),
        }
    }
}

} // verus!
