//! An expression language: tokenizer, operator-precedence parser and evaluator.
use vstd::prelude::*;

pub mod tokenizer;
pub mod expression;
pub mod evaluator;
pub mod parser;
pub mod standard;
pub mod laws;

use crate::evaluator::{EvalError, Environment, eval, names_view};
use crate::expression::{Expression, Term};
use crate::parser::{ParseError, Parser, parse_program};
use crate::tokenizer::{LexError, TokenClass, Tokenizer, lex};

verus! {

/// Why a line of input produced no value.
#[derive(PartialEq, Eq, Structural, Clone, Copy, Debug)]
pub enum InterpretError {
    Lex(LexError),
    Parse(ParseError),
    Eval(EvalError),
}

/// The value of a line of input, whether it should be shown, and the
/// names that it read without their being bound.
pub struct Outcome {
    pub value: Expression,
    pub silent: bool,
    pub unresolved: Vec<String>,
}

/// The model of interpreting a line: its result and the environment after it.
pub struct InterpretModel {
    pub result: Result<(Term, bool, Seq<Seq<char>>), InterpretError>,
    pub env: Map<Seq<char>, Term>,
}

/// Interpreting `code` against `env`: a blank line is a silent `Nil`; any
/// other line is scanned, parsed whole and evaluated.
pub open spec fn interpretation(code: Seq<char>, env: Map<Seq<char>, Term>) -> InterpretModel {
    match lex(code) {
        Err(e) => InterpretModel { result: Err(InterpretError::Lex(e)), env },
        Ok(t) => if t.len() == 1 {
            InterpretModel { result: Ok((Term::Nil, true, seq![])), env }
        } else {
            match parse_program(code, t) {
                Err(e) => InterpretModel { result: Err(InterpretError::Parse(e)), env },
                Ok(term) => {
                    let o = eval(term, env);
                    match o.result {
                        Ok(v) => InterpretModel {
                            result: Ok((v, false, o.unresolved)),
                            env: o.env,
                        },
                        Err(e) => InterpretModel { result: Err(InterpretError::Eval(e)), env: o.env },
                    }
                },
            }
        },
    }
}

pub open spec fn outcome_matches(
    model: Result<(Term, bool, Seq<Seq<char>>), InterpretError>,
    r: Result<Outcome, InterpretError>,
) -> bool {
    match model {
        Ok((v, silent, u)) => r is Ok && r->Ok_0.value@ == v && r->Ok_0.silent == silent
            && names_view(r->Ok_0.unresolved@) == u,
        Err(e) => r == Err::<Outcome, InterpretError>(e),
    }
}

/// Interprets a line of code against `variables`.
pub fn interpret(variables: &mut Environment, code: String) -> (r: Result<Outcome, InterpretError>)
    ensures
        outcome_matches(interpretation(code@, old(variables)@).result, r),
        final(variables)@ == interpretation(code@, old(variables)@).env,
{
    let mut tokenizer = match Tokenizer::from(code.as_str()) {
        Ok(t) => t,
        Err(e) => return Err(InterpretError::Lex(e)),
    };
    if tokenizer.tokens.len() == 1 {
        let none: Vec<String> = Vec::new();
        proof {
            assert(names_view(none@) =~= seq![]);
        }
        return Ok(Outcome { value: Expression::Nil, silent: true, unresolved: none });
    }
    let parser = Parser::new();
    let expression = match parser.parse_all(&mut tokenizer) {
        Ok(e) => e,
        Err(e) => return Err(InterpretError::Parse(e)),
    };
    let mut unresolved: Vec<String> = Vec::new();
    proof {
        assert(names_view(unresolved@) =~= seq![]);
    }
    match expression.simplify(variables, &mut unresolved) {
        Ok(value) => {
            proof {
                assert(names_view(unresolved@) =~= seq![] + eval(expression@, old(variables)@).unresolved);
            }
            Ok(Outcome { value, silent: false, unresolved })
        },
        Err(e) => Err(InterpretError::Eval(e)),
    }
}

} // verus!
