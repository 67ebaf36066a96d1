//! A verified ahead-of-time translator from a tiny C-like language to
//! textual x86 assembly.
//!
//! The language consists of exactly one function, taking no parameters,
//! whose body is a single `return` statement; the returned expression is an
//! unsigned integer literal under an optional chain of prefix unary
//! operators (arithmetic negation `-`, bitwise complement `~`, logical
//! negation `!`).
//!
//! The pipeline runs strictly forward: characters are lexed into tokens
//! ([`lex::lex`]), tokens are parsed into an abstract syntax tree
//! ([`parse::parse`]), and the tree is emitted as assembly text
//! ([`codegen::produce_assembly`]). [`compile`] chains the three phases.
use vstd::prelude::*;

pub mod data_types;
pub mod lex;
pub mod parse;
pub mod semantics;
pub mod codegen;

use crate::codegen::{asm_of_prog, produce_assembly};
use crate::data_types::{LexError, ParseError, Prog, Token};
use crate::lex::lexes_to;
use crate::parse::is_tokens_of_prog;

verus! {

/// An error from one of the front-end phases; every error is terminal
/// for the run, and the first one aborts before later phases run.
#[derive(Debug, Clone, PartialEq, Eq)]
pub enum CompileError {
    Lex(LexError),
    Parse(ParseError),
}

/// The full pipeline: lex the source text, parse the token sequence, and
/// emit the assembly text for the resulting program.
///
/// On success the result is exactly the assembly rendering of the unique
/// program the source spells. A lexical error means no token sequence
/// lexes the source at all; a parse error means the tokens match no
/// program of the grammar. No assembly is ever produced for malformed
/// input.
pub fn compile(source: &str) -> (r: Result<String, CompileError>)
    ensures
        r matches Ok(text) ==> (exists|ts: Seq<Token>, p: Prog|
            lexes_to(source@, ts) && is_tokens_of_prog(ts, p) && text@ == asm_of_prog(p)),
        r matches Err(CompileError::Lex(_)) ==> (forall|ts: Seq<Token>|
            !lexes_to(source@, ts)),
        r matches Err(CompileError::Parse(_)) ==> (exists|ts: Seq<Token>|
            lexes_to(source@, ts) && (forall|p: Prog| !is_tokens_of_prog(ts, p))),
        (exists|ts: Seq<Token>, p: Prog| lexes_to(source@, ts) && is_tokens_of_prog(ts, p))
            ==> r is Ok,
{
    let toks = match lex::lex(source) {
        Ok(t) => t,
        Err(le) => {
            return Err(CompileError::Lex(le));
        },
    };
    let ghost ts = toks@;
    let p = match parse::parse(toks) {
        Ok(p) => p,
        Err(pe) => {
            proof {
                assert forall|q: Prog| !is_tokens_of_prog(ts, q) by {}
                if exists|ts0: Seq<Token>, p0: Prog|
                    lexes_to(source@, ts0) && is_tokens_of_prog(ts0, p0) {
                    let (ts0, p0) = choose|ts0: Seq<Token>, p0: Prog|
                        lexes_to(source@, ts0) && is_tokens_of_prog(ts0, p0);
                    crate::lex::lemma_lex_unique(source@, ts0, ts);
                    crate::parse::lemma_prog_tokens_equiv(ts0, ts, p0);
                    assert(false);
                }
            }
            return Err(CompileError::Parse(pe));
        },
    };
    let text = produce_assembly(&p);
    proof {
        assert(lexes_to(source@, ts) && is_tokens_of_prog(ts, p) && text@ == asm_of_prog(p));
    }
    Ok(text)
}

} // verus!

