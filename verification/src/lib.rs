//! A small language front end: text is lexed, parsed, resolved, type-checked
//! and evaluated, and no ill-scoped or ill-typed program reaches evaluation.

pub mod ast;
pub mod ast_common;
pub mod char_stream;
pub mod grammar;
pub mod interpreter;
pub mod mir;
pub mod parse_utils;
pub mod parser;
pub mod rast;
pub mod semantic;
pub mod soundness;
pub mod text;
pub mod token_stream;
pub mod tokens;
pub mod type_checker;
pub mod utils;

use vstd::prelude::*;

use crate::grammar::{parse_text, ParseFailure};
use crate::interpreter::{spec_execute_all, Environment, Interpreter, Value};
use crate::parser::{ParseErrorCtx, Parser};
use crate::rast::RastStmtModel;
use crate::semantic::{spec_transform_program, transform_program, SemanticErrorCtx, SemanticFailure};
use crate::soundness::lemma_accepted_program_executes;
use crate::token_stream::TokenStream;
use crate::type_checker::{spec_visit_program, visit_program, TypeErrorCtx};

verus! {

/// The error of the one phase that failed: parsing, which includes lexing,
/// resolution or type checking.
#[derive(Debug, PartialEq, Eq)]
pub enum EvalError {
    ParseError(ParseErrorCtx),
    SemanticError(SemanticErrorCtx),
    TypeError(TypeErrorCtx),
}

/// The mathematical value of an `EvalError`.
pub enum EvalFailure {
    ParseError(ParseFailure),
    SemanticError(SemanticFailure),
    TypeError(TypeErrorCtx),
}

impl View for EvalError {
    type V = EvalFailure;

    open spec fn view(&self) -> EvalFailure {
        match self {
            EvalError::ParseError(e) => EvalFailure::ParseError(e@),
            EvalError::SemanticError(e) => EvalFailure::SemanticError(e@),
            EvalError::TypeError(e) => EvalFailure::TypeError(*e),
        }
    }
}

impl From<ParseErrorCtx> for EvalError {
    fn from(e: ParseErrorCtx) -> (r: EvalError) {
        EvalError::ParseError(e)
    }
}

impl vstd::std_specs::convert::FromSpecImpl<ParseErrorCtx> for EvalError {
    open spec fn obeys_from_spec() -> bool {
        true
    }

    open spec fn from_spec(e: ParseErrorCtx) -> EvalError {
        EvalError::ParseError(e)
    }
}

impl From<SemanticErrorCtx> for EvalError {
    fn from(e: SemanticErrorCtx) -> (r: EvalError) {
        EvalError::SemanticError(e)
    }
}

impl vstd::std_specs::convert::FromSpecImpl<SemanticErrorCtx> for EvalError {
    open spec fn obeys_from_spec() -> bool {
        true
    }

    open spec fn from_spec(e: SemanticErrorCtx) -> EvalError {
        EvalError::SemanticError(e)
    }
}

impl From<TypeErrorCtx> for EvalError {
    fn from(e: TypeErrorCtx) -> (r: EvalError) {
        EvalError::TypeError(e)
    }
}

impl vstd::std_specs::convert::FromSpecImpl<TypeErrorCtx> for EvalError {
    open spec fn obeys_from_spec() -> bool {
        true
    }

    open spec fn from_spec(e: TypeErrorCtx) -> EvalError {
        EvalError::TypeError(e)
    }
}

/// What the phases before evaluation make of a text: the resolved program, or
/// the error of the first phase that fails. A later phase is not entered once
/// an earlier one has failed.
pub open spec fn spec_check(source: Seq<char>) -> Result<Seq<RastStmtModel>, EvalFailure> {
    match parse_text(source) {
        Err(failure) => Err(EvalFailure::ParseError(failure)),
        Ok(program) => {
            let resolved = spec_transform_program(program);
            match resolved.result {
                Err(failure) => Err(EvalFailure::SemanticError(failure)),
                Ok(statements) => match spec_visit_program(resolved.ctx, statements).result {
                    Err(e) => Err(EvalFailure::TypeError(e)),
                    Ok(_) => Ok(statements),
                },
            }
        },
    }
}

/// The values that the locals have after a text is evaluated, if the text is
/// accepted and evaluation can go to the end.
pub open spec fn spec_final_environment(source: Seq<char>) -> Option<Environment> {
    match spec_check(source) {
        Ok(statements) => spec_execute_all(Map::<usize, Value>::empty(), statements, 0),
        Err(_) => None,
    }
}

/// Determinism. What evaluation leaves depends on the text alone: the same
/// text is accepted or refused with the same error, and leaves the same
/// values in the same locals.
pub proof fn lemma_evaluation_is_deterministic(first: Seq<char>, second: Seq<char>)
    requires
        first == second,
    ensures
        spec_check(first) == spec_check(second),
        spec_final_environment(first) == spec_final_environment(second),
{
}

/// Runs the whole pipeline on a text and returns the interpreter with the
/// values that evaluation has left, or the error of the phase that failed.
pub fn run(src: &str) -> (r: Result<Interpreter, EvalError>)
    ensures
        match r {
            Ok(interpreter) => spec_check(src@) is Ok && spec_final_environment(src@) == Some(
                interpreter.env(),
            ),
            Err(e) => spec_check(src@) == Err::<Seq<RastStmtModel>, _>(e@),
        },
{
    let mut token_stream = TokenStream::new(src);
    let mut parser = Parser::new(&mut token_stream);
    let program = match parser.parse_program() {
        Ok(program) => program,
        Err(e) => {
            return Err(EvalError::from(e));
        },
    };
    let ghost parsed = program@;

    let (mut ctx, mut program) = match transform_program(program) {
        Ok(resolved) => resolved,
        Err(e) => {
            return Err(EvalError::from(e));
        },
    };
    proof {
        ctx.lemma_counts_fit();
    }
    match visit_program(&mut ctx, &mut program) {
        Ok(_) => {},
        Err(e) => {
            return Err(EvalError::from(e));
        },
    }

    proof {
        lemma_accepted_program_executes(parsed);
    }
    let mut interpreter = Interpreter::new(ctx);
    interpreter.execute_program(&program);
    Ok(interpreter)
}

/// Evaluates a text. No statement has a value, so on success there is nothing
/// to return; a failure is the error of the phase that failed.
pub fn eval(src: &str) -> (r: Result<Option<Value>, EvalError>)
    ensures
        match r {
            Ok(value) => value is None && spec_check(src@) is Ok,
            Err(e) => spec_check(src@) == Err::<Seq<RastStmtModel>, _>(e@),
        },
{
    match run(src) {
        Ok(_) => Ok(None),
        Err(e) => Err(e),
    }
}

} // verus!
