//! Printing a forest and reading the text again gives the forest back.
//!
//! The proof goes through the token sequence that a forest is read from:
//! the tokenizer turns the printed text into exactly that sequence, and the
//! tree builder turns that sequence into exactly the forest.

use vstd::prelude::*;
use crate::error::Failure;
use crate::lexer::spec_tokenize;
use crate::pipeline::spec_parse_text;
use crate::printed_text::lemma_lex_forest;
use crate::printer::print_forest;
use crate::swift_dump_ast::{forest_well_formed, SpecNode};
use crate::token_stream::{forest_tokens, has_at, lemma_parse_forest_tokens};
use crate::well_formed::{lemma_lex_well_formed, lemma_parse_well_formed};

verus! {

/// Reading the printed text of a well-formed forest gives that forest:
/// the same nodes in the same order, each with the same tag, category,
/// attributes, children and `is_original` flag.
pub proof fn lemma_print_then_parse(forest: Seq<SpecNode>)
    requires
        forest_well_formed(forest),
    ensures
        spec_parse_text(print_forest(forest)) == Ok::<Seq<SpecNode>, Failure>(forest),
{
    let text = print_forest(forest);
    let tokens = forest_tokens(forest, 0);
    assert(has_at(text, 0, text));
    lemma_lex_forest(text, 0, forest, 0);
    assert(has_at(tokens, 0, tokens));
    lemma_parse_forest_tokens(tokens, 0, forest, 0);
    assert(forest.subrange(0, forest.len() as int) =~= forest);
}

/// Every forest that is read from a text is well-formed.
pub proof fn lemma_parsed_forest_well_formed(text: Seq<char>)
    ensures
        spec_parse_text(text) matches Ok(forest) ==> forest_well_formed(forest),
{
    lemma_lex_well_formed(text, 0);
    if let Ok(tokens) = spec_tokenize(text) {
        lemma_parse_well_formed(tokens, 0);
    }
}

/// Round trip: if a text is read into a forest, then printing that forest
/// and reading the printed text gives the same forest again.
pub proof fn lemma_round_trip(text: Seq<char>)
    ensures
        spec_parse_text(text) matches Ok(forest) ==> spec_parse_text(print_forest(forest))
            == Ok::<Seq<SpecNode>, Failure>(forest),
{
    lemma_parsed_forest_well_formed(text);
    if let Ok(forest) = spec_parse_text(text) {
        lemma_print_then_parse(forest);
    }
}

} // verus!
