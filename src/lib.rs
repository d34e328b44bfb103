//! Front end of the stub generator language: tokenizer, parser and the
//! read-batching rewrite of the parsed tree.
pub mod ast;
pub mod parser;
pub mod preprocessor;
pub mod text;
pub mod tokenizer;
pub mod verdict;

use vstd::prelude::*;
use crate::ast::{Stub, StubV};
use crate::parser::{parse_generator_stub, parse_script, ErrV, ParseError};
use crate::preprocessor::{batched, transform};

verus! {

/// Tokenizes and parses a generator script, then batches its reads.
pub fn compile(script: &str) -> (r: Result<Stub, ParseError>)
    ensures
        match r {
            Ok(st) => parse_script(script@) matches Ok(p) && st@ == (StubV {
                commands: batched(p.commands),
                ..p
            }),
            Err(e) => parse_script(script@) == Err::<StubV, ErrV>(e@),
        },
{
    let mut stub = match parse_generator_stub(script) {
        Ok(s) => s,
        Err(e) => return Err(e),
    };
    transform(&mut stub);
    Ok(stub)
}

} // verus!
