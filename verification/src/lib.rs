//! A single-pass translator from a small line-oriented BASIC dialect to C source text.
//!
//! The [`lex::Lexer`] turns source text into tokens, the [`parser::Parser`] recognises the
//! grammar with one token of lookahead, checks variables and labels as it goes, and hands
//! each translated fragment to the [`emit::Emitter`]. [`compile`] runs the whole pipeline.
//!
//! What the parser does is stated twice. [`grammar`] gives each production as a function on
//! parser states, failures included, and the parser is proved to compute exactly that.
//! [`syntax`] gives the structure of a program as a tree, with the tokens it is written
//! with and the text it is translated to. [`recognition`] and [`reconstruction`] prove that
//! the two agree: the parse of a text succeeds exactly if the text is written with the
//! tokens of a valid program, and then yields the translation of that program. [`laws`],
//! [`braces`] and [`failures`] state what follows for every program.
use vstd::prelude::*;

pub mod text;
pub mod token;
pub mod error;
pub mod lex;
pub mod emit;
pub mod grammar;
pub mod parser;
pub mod progress;
pub mod stream;
pub mod syntax;
pub mod recognition;
pub mod reconstruction;
pub mod counting;
pub mod braces;
pub mod failures;
pub mod laws;

use crate::emit::Emitter;
use crate::error::CompileError;
use crate::grammar::ParserState;
use crate::lex::Lexer;
use crate::parser::Parser;

verus! {

/// The text that the lexer works on: the source, a line break, and the end-of-input
/// character.
pub open spec fn terminated(source: Seq<char>) -> Seq<char> {
    source + "\n\0"@
}

/// The parse of a whole source text, from the first token to the check of the jumps.
pub open spec fn compiled(source: Seq<char>) -> ParserState {
    ParserState::start(terminated(source)).program()
}

/// Whether `result` is what the compilation of `source` gives: the generated text where
/// the parse succeeds, and the failure of the parse where it fails.
pub open spec fn is_compilation(source: Seq<char>, result: Result<String, CompileError>) -> bool {
    match result {
        Ok(artifact) => !compiled(source).failed() && artifact@ == compiled(source).artifact(),
        Err(error) => compiled(source).failure == Some(error@),
    }
}

/// Translates a program. The result is the generated text, prologue first, or the first
/// failure that the source runs into; after a failure there is no text.
pub fn compile(source: &str) -> (r: Result<String, CompileError>)
    requires
        source@.len() + 4 < i64::MAX,
    ensures
        is_compilation(source@, r),
{
    let mut text = source.to_owned();
    text.append("\n\0");
    proof {
        reveal_strlit("\n\0");
    }
    let lex = Lexer::new(text);
    let emit = Emitter::new(String::new());
    let mut parser = Parser::new(lex, emit)?;
    parser.program()?;
    Ok(parser.emit.finalize())
}

} // verus!
