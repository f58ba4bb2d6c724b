//! A compiler for a small imperative language: a lexer, a recursive-descent
//! parser and a single-pass code generator that emits x86-64 assembly in
//! Intel syntax.
use vstd::prelude::*;

pub mod ast;
pub mod codegen;
pub mod instr;
pub mod lexer;
pub mod parser;
pub mod semantics;
pub mod ty;

use crate::ast::Ast;
use crate::codegen::{cg_program, initial_state, GenError, SofaGenerater};
use crate::instr::listing;
use crate::lexer::{tokenize, LexError};
use crate::parser::{ParseError, SofaParser};

verus! {

/// The first error of a compilation, by stage.
#[derive(Debug, Clone, Copy, PartialEq, Eq)]
pub enum CompileError {
    Lex(LexError),
    Parse(ParseError),
    Gen(GenError),
}

/// Compiles a whole source text to assembly text with a fresh generator.
pub fn compile(source: &str) -> (r: Result<String, CompileError>)
    ensures
        r matches Err(CompileError::Lex(e)) ==> lexer::lex(source@) == Err::<Seq<lexer::TokenView>, int>(
            e.pos as int,
        ),
        lexer::lex(source@) is Err ==> r matches Err(CompileError::Lex(_)),
        r matches Err(CompileError::Parse(_)) ==> lexer::lex(source@) is Ok,
        r matches Ok(t) ==> lexer::lex(source@) is Ok && exists|a: Ast|
            #[trigger] cg_program(a, initial_state()) matches Ok((c, _)) && t@ == listing(c),
        r matches Err(CompileError::Gen(e)) ==> lexer::lex(source@) is Ok && exists|a: Ast|
            #[trigger] cg_program(a, initial_state()) == Err::<(Seq<instr::Ins>, codegen::CgState), GenError>(e),
{
    let tokens = match tokenize(source) {
        Ok(t) => t,
        Err(e) => {
            return Err(CompileError::Lex(e));
        },
    };
    let parser = SofaParser::new(&tokens);
    let ast = match parser.parse() {
        Ok(a) => a,
        Err(e) => {
            return Err(CompileError::Parse(e));
        },
    };
    let mut generater = SofaGenerater::new();
    let r = generater.gen(&ast);
    proof {
        match cg_program(ast, initial_state()) {
            Ok((c, _)) => assert(Seq::<instr::Ins>::empty() + c =~= c),
            Err(_) => {},
        }
    }
    match r {
        Ok(text) => Ok(text),
        Err(e) => Err(CompileError::Gen(e)),
    }
}

} // verus!
