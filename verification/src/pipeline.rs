//! The whole pipeline: text to tokens, tokens to forest, forest to records.

use vstd::prelude::*;
use crate::cli_args::Command;
use crate::data_extractor::{records_view, spec_extract, DataExtractor, SpecTypeRecord, TypeRecord};
use crate::error::{Failure, SyntaxError};
use crate::generated::{create_ast, SwiftDumpAstParser};
use crate::grammar::lemma_readers_agree;
use crate::lexer::{spec_tokenize, tokenize};
use crate::parser::{forest_matches, spec_parse, Parser};
use crate::swift_dump_ast::{forest_well_formed, DumpAst, SpecNode};

verus! {

/// The forest that a text describes: the text is split into tokens and the
/// tokens are built into nodes; the first failure of either step is the
/// result.
pub open spec fn spec_parse_text(text: Seq<char>) -> Result<Seq<SpecNode>, Failure> {
    match spec_tokenize(text) {
        Ok(tokens) => spec_parse(tokens),
        Err(e) => Err(e),
    }
}

/// The type records of the forest that a text describes.
pub open spec fn spec_run_manual(text: Seq<char>) -> Result<Seq<SpecTypeRecord>, Failure> {
    match spec_parse_text(text) {
        Ok(forest) => Ok(spec_extract(forest)),
        Err(e) => Err(e),
    }
}

/// Whether an executable records result stands for the specified one.
pub open spec fn records_match(
    got: Result<Vec<TypeRecord>, SyntaxError>,
    want: Result<Seq<SpecTypeRecord>, Failure>,
) -> bool {
    match (got, want) {
        (Ok(records), Ok(spec_records)) => records_view(records@) == spec_records,
        (Err(e), Err(f)) => e@ == f,
        _ => false,
    }
}

/// Whether two outcomes of reading a text are the same: the same forest,
/// or the same failure.
pub open spec fn same_forest(
    first: Result<DumpAst, SyntaxError>,
    second: Result<DumpAst, SyntaxError>,
) -> bool {
    match (first, second) {
        (Ok(a), Ok(b)) => a@ == b@,
        (Err(e), Err(f)) => e == f,
        _ => false,
    }
}

/// Whether two outcomes of extracting from a text are the same: the same
/// records in the same order, or the same failure.
pub open spec fn same_records(
    first: Result<Vec<TypeRecord>, SyntaxError>,
    second: Result<Vec<TypeRecord>, SyntaxError>,
) -> bool {
    match (first, second) {
        (Ok(a), Ok(b)) => records_view(a@) == records_view(b@),
        (Err(e), Err(f)) => e == f,
        _ => false,
    }
}

/// Determinism of reading: whatever two runs of [`parse_dump`] on the same
/// text return, they return the same forest, or the same failure.
pub proof fn lemma_parse_deterministic(
    text: Seq<char>,
    first: Result<DumpAst, SyntaxError>,
    second: Result<DumpAst, SyntaxError>,
)
    requires
        forest_matches(first, spec_parse_text(text)),
        forest_matches(second, spec_parse_text(text)),
    ensures
        same_forest(first, second),
{
}

/// Determinism of extracting: whatever two runs of [`run_manual`] on the
/// same text return, they return the same records in the same order, or
/// the same failure.
pub proof fn lemma_records_deterministic(
    text: Seq<char>,
    first: Result<Vec<TypeRecord>, SyntaxError>,
    second: Result<Vec<TypeRecord>, SyntaxError>,
)
    requires
        records_match(first, spec_run_manual(text)),
        records_match(second, spec_run_manual(text)),
    ensures
        same_records(first, second),
{
}

/// Reads a whole dump into its forest. The forest is well-formed, so
/// printing it and reading the printed text gives it back.
pub fn parse_dump(input: &str) -> (r: Result<DumpAst, SyntaxError>)
    ensures
        forest_matches(r, spec_parse_text(input@)),
        r matches Ok(ast) ==> forest_well_formed(ast@),
{
    match tokenize(input) {
        Err(e) => Err(e),
        Ok(tokens) => {
            let parser = Parser::new(tokens);
            parser.create_dump_ast()
        },
    }
}

/// Reads a whole dump and extracts the type records of its declarations.
/// Either all records are returned or, for a malformed dump, the failure and
/// no record.
pub fn run_manual(input: &str) -> (r: Result<Vec<TypeRecord>, SyntaxError>)
    ensures
        records_match(r, spec_run_manual(input@)),
{
    match parse_dump(input) {
        Err(e) => Err(e),
        Ok(ast) => {
            let extractor = DataExtractor::new(ast.nodes);
            Ok(extractor.extract_data())
        },
    }
}

/// Reads a whole dump by way of the grammar and extracts the type records
/// of its declarations. The records, and the failure for a malformed dump,
/// are those of [`run_manual`] on the same text.
pub fn run_generated(input: &str) -> (r: Result<Vec<TypeRecord>, SyntaxError>)
    ensures
        records_match(r, spec_run_manual(input@)),
{
    proof {
        lemma_readers_agree(input@);
    }
    match SwiftDumpAstParser::parse(input) {
        Err(e) => Err(e),
        Ok(pair) => {
            let ast = create_ast(&pair);
            let extractor = DataExtractor::new(ast.nodes);
            Ok(extractor.extract_data())
        },
    }
}

/// Runs the reader that the command line chose on `input`. Both readers
/// give the same result.
pub fn run(command: &Command, input: &str) -> (r: Result<Vec<TypeRecord>, SyntaxError>)
    ensures
        records_match(r, spec_run_manual(input@)),
{
    if command.is_generated() {
        run_generated(input)
    } else {
        run_manual(input)
    }
}

} // verus!
