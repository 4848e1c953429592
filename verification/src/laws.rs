//! Laws of the pipeline as a whole.
//!
//! Because `parse` and `generate_code` each return exactly what a spec
//! function of their input prescribes, the pipeline is a mathematical
//! function of the token stream; the lemmas here record the consequences
//! that matter to a caller. (That no input can make the pipeline panic or
//! fail to terminate is not a lemma: every function of this crate is
//! verified free of panics and total.)

use crate::code_generator::spec_generated_assembly;
use crate::parser::{
    lemma_parse_function_progress, spec_parse_function, spec_parse_program, Expected, ParseError,
    Program,
};
use crate::tokens::Token;
use vstd::prelude::*;

verus! {

/// Law: compilation is deterministic. Any two parses of equal token
/// streams agree, and programs parsed from equal streams generate
/// byte-identical assembly text.
pub proof fn lemma_compilation_deterministic(
    toks: Seq<Token>,
    r1: Result<Program, ParseError>,
    r2: Result<Program, ParseError>,
)
    requires
        r1 == spec_parse_program(toks),
        r2 == spec_parse_program(toks),
    ensures
        r1 == r2,
        r1 matches Ok(p1) ==> r2 matches Ok(p2) && spec_generated_assembly(p1)
            == spec_generated_assembly(p2),
{
}

/// Law: the empty token stream is rejected with a syntax error, never
/// accepted.
pub proof fn lemma_empty_stream_rejected()
    ensures
        spec_parse_program(Seq::<Token>::empty()) == Err::<Program, ParseError>(
            ParseError::SyntaxError(Expected::KeywordInt, None),
        ),
{
}

/// Law: a stream with no end-of-stream marker anywhere is rejected — a
/// well-formed program must end in the explicit marker.
pub proof fn lemma_missing_end_marker_rejected(toks: Seq<Token>)
    requires
        forall|k: int| 0 <= k < toks.len() ==> !(#[trigger] toks[k] is EOF),
    ensures
        spec_parse_program(toks) is Err,
{
    lemma_parse_function_progress(toks);
    match spec_parse_function(toks) {
        Ok((f, rest)) => {
            if rest.len() > 0 {
                assert(rest[0] == toks[toks.len() - rest.len()]);
            }
        },
        Err(_) => {},
    }
}

} // verus!
