//! A tree-walking interpreter for a small, dynamically typed, expression
//! oriented scripting language.
//!
//! Source text is turned into tokens by the [`lexer`], tokens into an
//! abstract syntax tree by the [`parser`], and the tree is evaluated
//! directly against an environment of bindings by [`eval`].  Every stage
//! carries a mathematical model: the lexer is proved equal to a spec-level
//! scanner over character sequences, the parser to a spec-level Pratt
//! parser over token sequences, and the evaluator to a spec-level
//! interpreter over a frame arena.

pub mod ast;
pub mod eval;
pub mod laws;
pub mod lexer;
pub mod object;
pub mod parser;
pub mod token;
pub mod token_parser;

pub use token::Identifier;
pub use token::Token;
pub use token::TokenM;

use vstd::prelude::*;

use crate::eval::DEFAULT_FUEL;
use crate::eval::Program;
use crate::eval::eval_program;
use crate::lexer::Lexer;
use crate::lexer::spec_tokens_of;
use crate::object::ErrM;
use crate::object::EvalError;
use crate::object::Object;
use crate::object::err_view;
use crate::object::obj_view;
use crate::object::state_wf;
use crate::parser::Parser;
use crate::parser::spec_parse_program;
use crate::token_parser::ParseError;
use crate::token_parser::perrs_view;

verus! {

/// What evaluating a piece of source can fail with: the parse errors the
/// parser collected, or the one runtime error that aborted evaluation.
#[derive(Debug)]
pub enum Error {
    Parse(Vec<ParseError>),
    Eval(EvalError),
}

/// Evaluates one piece of source against a persistent program state.
///
/// The source is scanned and parsed; when the parser collected any
/// error, they all come back and nothing is evaluated.  Otherwise the
/// statements run at the root frame and the program's value comes back.
pub fn eval_source(source: &str, program: &mut Program) -> (r: Result<Object, Error>)
    requires
        state_wf(old(program).env@),
        old(program).env@.frames.len() >= 1,
    ensures
        state_wf(final(program).env@),
        final(program).env@.frames.len() >= old(program).env@.frames.len(),
        ({
            let (nodes, errs) = spec_parse_program(
                spec_tokens_of(source@),
                0,
                Seq::empty(),
                Seq::empty(),
            );
            if errs.len() > 0 {
                match r {
                    Err(Error::Parse(es)) => perrs_view(es@) == errs && final(program).env@
                        == old(program).env@,
                    _ => false,
                }
            } else {
                let res = eval_program(nodes, old(program).env@, DEFAULT_FUEL as nat);
                &&& final(program).env@ == res.st
                &&& match r {
                    Ok(v) => res.r == Ok::<object::ValM, ErrM>(obj_view(v)),
                    Err(Error::Eval(e)) => res.r == Err::<object::ValM, ErrM>(err_view(e)),
                    _ => false,
                }
            }
        }),
{
    let lexer = Lexer::new(source);
    let parser = Parser::new(lexer);
    if parser.errors.len() > 0 {
        return Err(Error::Parse(parser.errors));
    }
    proof {
        assert(perrs_view(parser.errors@) =~= Seq::<token_parser::PErrM>::empty());
        assert(spec_parse_program(spec_tokens_of(source@), 0, Seq::empty(), Seq::empty()).1.len()
            == 0);
    }
    match program.eval(parser) {
        Ok(v) => Ok(v),
        Err(e) => Err(Error::Eval(e)),
    }
}

} // verus!
