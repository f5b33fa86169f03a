//! Every forest that is read from a text is well-formed.

use vstd::prelude::*;
use crate::lexer::{
    lemma_scan_token_bounds, lemma_skip_whitespace_bounds, lemma_word_end_bounds, lex_from,
    scan_token, skip_whitespace, word_end,
};
use crate::parser::{lemma_parse_bounds, parse_forest_at, parse_items_at, parse_node_at};
use crate::swift_dump_ast::{
    attribute_well_formed, classify_token, forest_well_formed, node_well_formed,
};
use crate::text::{spec_is_whitespace, spec_is_word, spec_is_word_char};
use crate::token::{token_well_formed, tokens_well_formed, SpecToken};

verus! {

proof fn lemma_word_in_text(s: Seq<char>, p: int)
    requires
        0 <= p < s.len(),
        spec_is_word_char(s[p]),
    ensures
        spec_is_word(s.subrange(p, word_end(s, p))),
{
    lemma_word_end_bounds(s, p);
    lemma_word_end_bounds(s, p + 1);
    let end = word_end(s, p);
    let word = s.subrange(p, end);
    assert forall|k: int| 0 <= k < word.len() implies spec_is_word_char(
        #[trigger] word[k],
    ) by {
        assert(word[k] == s[p + k]);
    }
}

/// Every token that is read from a text is well-formed.
pub proof fn lemma_scan_token_well_formed(s: Seq<char>, p: int)
    requires
        0 <= p < s.len(),
        !spec_is_whitespace(s[p]),
    ensures
        scan_token(s, p) matches Ok((token, _)) ==> token_well_formed(token),
{
    if s[p] != '(' && s[p] != ')' && s[p] != '"' && s[p] != '=' {
        lemma_word_in_text(s, p);
    }
}

/// Every token sequence that is read from a text is well-formed.
pub proof fn lemma_lex_well_formed(s: Seq<char>, i: int)
    requires
        0 <= i <= s.len(),
    ensures
        lex_from(s, i) matches Ok(tokens) ==> tokens_well_formed(tokens),
    decreases s.len() - i,
{
    lemma_skip_whitespace_bounds(s, i);
    let p = skip_whitespace(s, i);
    if p < s.len() {
        lemma_scan_token_bounds(s, p);
        lemma_scan_token_well_formed(s, p);
        if let Ok((token, next)) = scan_token(s, p) {
            lemma_lex_well_formed(s, next);
            if let Ok(rest) = lex_from(s, next) {
                let tokens = seq![token] + rest;
                assert forall|k: int| 0 <= k < tokens.len() implies token_well_formed(
                    #[trigger] tokens[k],
                ) by {
                    if k > 0 {
                        assert(tokens[k] == rest[k - 1]);
                    }
                }
            }
        }
    }
}

proof fn lemma_parse_node_well_formed(tokens: Seq<SpecToken>, i: int)
    requires
        0 <= i <= tokens.len(),
        tokens_well_formed(tokens),
    ensures
        parse_node_at(tokens, i) matches Ok((node, _)) ==> node_well_formed(node),
    decreases tokens.len() - i, 0nat,
{
    if i + 1 < tokens.len() {
        match tokens[i + 1] {
            SpecToken::ProcessedMarker => {
                if i + 2 < tokens.len() {
                    lemma_parse_node_well_formed(tokens, i + 2);
                }
            },
            SpecToken::Identifier(tag) => {
                assert(token_well_formed(tokens[i + 1]));
                lemma_parse_items_well_formed(tokens, i + 2);
            },
            _ => {},
        }
    }
}

proof fn lemma_parse_items_well_formed(tokens: Seq<SpecToken>, i: int)
    requires
        0 <= i <= tokens.len(),
        tokens_well_formed(tokens),
    ensures
        parse_items_at(tokens, i) matches Ok(items) ==> {
            &&& forall|k: int|
                0 <= k < items.attributes.len() ==> attribute_well_formed(
                    #[trigger] items.attributes[k],
                )
            &&& forall|k: int|
                0 <= k < items.children.len() ==> node_well_formed(#[trigger] items.children[k])
        },
    decreases tokens.len() - i, 1nat,
{
    if i < tokens.len() {
        match tokens[i] {
            SpecToken::Close => {},
            SpecToken::Open => {
                lemma_parse_bounds(tokens, i);
                lemma_parse_node_well_formed(tokens, i);
                if let Ok((child, after)) = parse_node_at(tokens, i) {
                    lemma_parse_items_well_formed(tokens, after);
                    if let Ok(rest) = parse_items_at(tokens, after) {
                        let children = seq![child] + rest.children;
                        assert forall|k: int| 0 <= k < children.len() implies node_well_formed(
                            #[trigger] children[k],
                        ) by {
                            if k > 0 {
                                assert(children[k] == rest.children[k - 1]);
                            }
                        }
                        assert(Seq::empty() + rest.attributes =~= rest.attributes);
                    }
                }
            },
            token => {
                assert(token_well_formed(tokens[i]));
                lemma_parse_items_well_formed(tokens, i + 1);
                if let Some(attribute) = classify_token(token) {
                    if let Ok(rest) = parse_items_at(tokens, i + 1) {
                        let attributes = seq![attribute] + rest.attributes;
                        assert forall|k: int|
                            0 <= k < attributes.len() implies attribute_well_formed(
                            #[trigger] attributes[k],
                        ) by {
                            if k > 0 {
                                assert(attributes[k] == rest.attributes[k - 1]);
                            }
                        }
                        assert(Seq::empty() + rest.children =~= rest.children);
                    }
                }
            },
        }
    }
}

/// Every forest that is built from well-formed tokens is well-formed.
pub proof fn lemma_parse_well_formed(tokens: Seq<SpecToken>, i: int)
    requires
        0 <= i <= tokens.len(),
        tokens_well_formed(tokens),
    ensures
        parse_forest_at(tokens, i) matches Ok(forest) ==> forest_well_formed(forest),
    decreases tokens.len() - i,
{
    if i < tokens.len() {
        if tokens[i] == SpecToken::Open {
            lemma_parse_bounds(tokens, i);
            lemma_parse_node_well_formed(tokens, i);
            if let Ok((node, after)) = parse_node_at(tokens, i) {
                lemma_parse_well_formed(tokens, after);
                if let Ok(rest) = parse_forest_at(tokens, after) {
                    let forest = seq![node] + rest;
                    assert forall|k: int| 0 <= k < forest.len() implies node_well_formed(
                        #[trigger] forest[k],
                    ) by {
                        if k > 0 {
                            assert(forest[k] == rest[k - 1]);
                        }
                    }
                }
            }
        }
    }
}

} // verus!
