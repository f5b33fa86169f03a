//! Lexical tokens of the dump format.

use vstd::prelude::*;
use crate::text::spec_is_word;

verus! {

/// One lexical unit of a dump.
#[derive(Clone, Debug, PartialEq, Eq)]
pub enum Token {
    /// `(`
    Open,
    /// `)`
    Close,
    /// A double-quoted string; the payload is its content with the quotes
    /// removed and every escape resolved.
    QuotedString(String),
    /// A bare word.
    Identifier(String),
    /// `key=value`, where the value was either a bare word or a quoted string.
    KeyValueFragment(String, String),
    /// The phrase `Original init:` that introduces a wrapper node.
    ProcessedMarker,
}

/// The mathematical counterpart of [`Token`].
pub enum SpecToken {
    Open,
    Close,
    QuotedString(Seq<char>),
    Identifier(Seq<char>),
    KeyValueFragment(Seq<char>, Seq<char>),
    ProcessedMarker,
}

impl View for Token {
    type V = SpecToken;

    open spec fn view(&self) -> SpecToken {
        match self {
            Token::Open => SpecToken::Open,
            Token::Close => SpecToken::Close,
            Token::QuotedString(s) => SpecToken::QuotedString(s@),
            Token::Identifier(s) => SpecToken::Identifier(s@),
            Token::KeyValueFragment(k, v) => SpecToken::KeyValueFragment(k@, v@),
            Token::ProcessedMarker => SpecToken::ProcessedMarker,
        }
    }
}

/// What holds of every token that the tokenizer produces: identifiers and
/// keys are bare words.
pub open spec fn token_well_formed(token: SpecToken) -> bool {
    match token {
        SpecToken::Identifier(word) => spec_is_word(word),
        SpecToken::KeyValueFragment(key, _) => spec_is_word(key),
        _ => true,
    }
}

/// Whether every token of a sequence is well-formed.
pub open spec fn tokens_well_formed(tokens: Seq<SpecToken>) -> bool {
    forall|i: int| 0 <= i < tokens.len() ==> token_well_formed(#[trigger] tokens[i])
}

/// The views of a run of tokens, in order.
pub open spec fn tokens_view(tokens: Seq<Token>) -> Seq<SpecToken> {
    tokens.map_values(|t: Token| t@)
}

} // verus!
