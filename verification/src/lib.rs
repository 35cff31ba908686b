//! A verified front end for a small declarative language.
//!
//! Raw source bytes are turned into a sequence of lexemes, the lexemes are
//! assembled into a flat list of top-level declarations, and every function
//! call in that list is checked against the declared functions.

use vstd::prelude::*;

pub mod check;
pub mod lexer;
pub mod tree;

use crate::check::{check_calls, spec_check, Error, ErrorView};
use crate::lexer::{spec_lex, Lexeme};
use crate::tree::{ast_views, spec_tree, tree, Ast, AstView};

verus! {

/// The whole pipeline as a mathematical function: lex the bytes, build the
/// declaration sequence, then check every call.  The declaration sequence on
/// success, the first error otherwise.
pub open spec fn spec_pipeline(input: Seq<u8>) -> Result<Seq<AstView>, ErrorView> {
    match spec_tree(spec_lex(input, Seq::empty())) {
        Ok(t) => match spec_check(t) {
            Ok(u) => Ok(t),
            Err(e) => Err(e),
        },
        Err(e) => Err(e),
    }
}

/// Whether `r` is a result that the pipeline may return for `input`: its
/// view is exactly what `spec_pipeline` describes.
pub open spec fn pipeline_matches(input: Seq<u8>, r: Result<Vec<Ast>, Error>) -> bool {
    match r {
        Ok(t) => spec_pipeline(input) matches Ok(st) && ast_views(t@) == st,
        Err(e) => spec_pipeline(input) matches Err(se) && e@ == se,
    }
}

/// Runs the pipeline on raw source bytes: lexes them, builds the declaration
/// sequence, and checks every call.  Returns the declaration sequence when
/// checking succeeds, else the first error met.
pub fn run_pipeline(source: Vec<u8>) -> (r: Result<Vec<Ast>, Error>)
    ensures
        pipeline_matches(source@, r),
{
    let lexed = Lexeme::from_literal(source);
    match tree(lexed) {
        Ok(t) => {
            match check_calls(&t) {
                Ok(u) => Ok(t),
                Err(e) => Err(e),
            }
        },
        Err(e) => Err(e),
    }
}

/// The pipeline is a pure function of the source bytes: any two results it
/// may return for the same byte sequence agree — they succeed or fail
/// together, successful declaration sequences are structurally identical,
/// and errors are identical.
pub proof fn lemma_pipeline_idempotent(
    input: Seq<u8>,
    r1: Result<Vec<Ast>, Error>,
    r2: Result<Vec<Ast>, Error>,
)
    requires
        pipeline_matches(input, r1),
        pipeline_matches(input, r2),
    ensures
        r1 is Ok <==> r2 is Ok,
        r1 matches Ok(t1) ==> (r2 matches Ok(t2) ==> ast_views(t1@) == ast_views(t2@)),
        r1 matches Err(e1) ==> (r2 matches Err(e2) ==> e1@ == e2@),
{
}

} // verus!
