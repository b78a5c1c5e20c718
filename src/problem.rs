//! A stored puzzle whose formula has been read as a function definition.

use crate::ast::{Command, CommandV, Offsets, Pred, PredV};
use crate::errors::{definition_of, parse_error_message, parse_error_span, MathError};
use crate::eval::{FuncDef, FuncDefV};
use crate::models::{Problem, ProblemId};
use crate::parser::{parse_command, parsed_command};
use vstd::prelude::*;
use vstd::utf8::encode_utf8;

verus! {

/// A puzzle with its formula read: the function it defines and where the
/// left side of the defining equation (`f(x, y)` in `f(x, y) = x + y`) lies
/// in the formula's text.
#[derive(Debug)]
pub struct ParsedProblem {
    pub id: ProblemId,
    pub name: String,
    pub description: String,
    pub difficulty: String,
    pub formula: String,
    pub declaration: (usize, usize),
    pub definition: FuncDef,
    pub domain: String,
    pub score_query: i32,
    pub score_guess_correct: i32,
    pub score_guess_incorrect: i32,
    pub score_submit_incorrect: i32,
}

/// The offsets of the left side of a comparison.
pub open spec fn left_side(c: CommandV) -> Offsets {
    match c {
        CommandV::Pred(PredV::Cmp(lhs, _, _, _)) => lhs.1,
        CommandV::Expr(_) => (0, 0),
    }
}

/// The definition that the formula text `b` states, with the offsets of its
/// left side, or the offsets and message of what is wrong with it.
pub open spec fn formula_definition(b: Seq<u8>) -> Result<
    (FuncDefV, Offsets),
    (Option<Offsets>, Seq<char>),
> {
    match parsed_command(b) {
        Err(e) => Err((Some(parse_error_span(e)), parse_error_message(e))),
        Ok(c) => match definition_of(c) {
            Err(x) => Err(x),
            Ok(f) => Ok((f, left_side(c))),
        },
    }
}

impl ParsedProblem {
    /// Reads the puzzle's formula as a function definition; the other fields
    /// are kept as they are.
    pub fn try_from(problem: Problem) -> (r: Result<ParsedProblem, MathError>)
        ensures
            match r {
                Ok(p) => {
                    &&& formula_definition(encode_utf8(problem.formula@)) == Ok::<
                        (FuncDefV, Offsets),
                        (Option<Offsets>, Seq<char>),
                    >((p.definition@, p.declaration))
                    &&& p.id == problem.id
                    &&& p.name == problem.name
                    &&& p.description == problem.description
                    &&& p.difficulty == problem.difficulty
                    &&& p.formula == problem.formula
                    &&& p.domain == problem.domain
                    &&& p.score_query == problem.score_query
                    &&& p.score_guess_correct == problem.score_guess_correct
                    &&& p.score_guess_incorrect == problem.score_guess_incorrect
                    &&& p.score_submit_incorrect == problem.score_submit_incorrect
                },
                Err(e) => formula_definition(encode_utf8(problem.formula@)) == Err::<
                    (FuncDefV, Offsets),
                    (Option<Offsets>, Seq<char>),
                >((e.span, e.message@)),
            },
    {
        let cmd = match parse_command(problem.formula.as_str()) {
            Ok(c) => c,
            Err(e) => return Err(MathError::from_parse_error(e)),
        };
        let ghost c = cmd@;
        let declaration = match &cmd {
            Command::Pred(Pred::Cmp(lhs, _, _)) => lhs.1,
            Command::Expr(_) => (0, 0),
        };
        assert(declaration == left_side(c));
        let definition = match FuncDef::try_from(cmd) {
            Ok(f) => f,
            Err(e) => return Err(e),
        };
        Ok(
            ParsedProblem {
                id: problem.id,
                name: problem.name,
                description: problem.description,
                difficulty: problem.difficulty,
                formula: problem.formula,
                declaration,
                definition,
                domain: problem.domain,
                score_query: problem.score_query,
                score_guess_correct: problem.score_guess_correct,
                score_guess_incorrect: problem.score_guess_incorrect,
                score_submit_incorrect: problem.score_submit_incorrect,
            },
        )
    }

    /// The left side of the defining equation, such as `f(x, y)`, cut out of
    /// the formula. The text is empty where the formula is not ASCII or the
    /// offsets do not lie within it; neither happens to a puzzle read by
    /// [`ParsedProblem::try_from`].
    pub fn func_decl(&self) -> (r: &str)
        ensures
            ({
                let (start, end) = self.declaration;
                if self.formula@.len() <= usize::MAX && vstd::string::string_is_ascii(&self.formula)
                    && start <= end <= self.formula@.len() {
                    r@ == self.formula@.subrange(start as int, end as int)
                } else {
                    r@ == Seq::<char>::empty()
                }
            }),
    {
        let (start, end) = self.declaration;
        let text = self.formula.as_str();
        if text.is_ascii() && start <= end && end <= text.unicode_len() {
            text.substring_ascii(start, end)
        } else {
            proof {
                reveal_strlit("");
            }
            ""
        }
    }

    /// The function that the formula defines.
    pub fn func_def(&self) -> (r: &FuncDef)
        ensures
            r == &self.definition,
    {
        &self.definition
    }
}

} // verus!
