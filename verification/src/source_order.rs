//! The children of a node stand in the forest in the order in which they
//! stand in the source.

use vstd::prelude::*;
use crate::lexer::{
    lemma_scan_token_bounds, lemma_skip_whitespace_bounds, lex_from, scan_token, skip_whitespace,
    spec_tokenize,
};
use crate::parser::{lemma_parse_bounds, parse_items_at, parse_node_at};
use crate::swift_dump_ast::SpecNode;
use crate::token::SpecToken;

verus! {

/// The positions of the opening parentheses of the children among the
/// items from position `i` on, in the order in which they stand in the
/// token sequence.
pub open spec fn child_positions(tokens: Seq<SpecToken>, i: int) -> Seq<int>
    decreases tokens.len() - i,
{
    if i < 0 || i >= tokens.len() {
        Seq::empty()
    } else {
        match tokens[i] {
            SpecToken::Close => Seq::empty(),
            SpecToken::Open => {
                match parse_node_at(tokens, i) {
                    Ok((_, after)) => {
                        if i < after <= tokens.len() {
                            seq![i] + child_positions(tokens, after)
                        } else {
                            Seq::empty()
                        }
                    },
                    Err(_) => Seq::empty(),
                }
            },
            _ => child_positions(tokens, i + 1),
        }
    }
}

/// The positions of the opening parentheses of the children of the node
/// whose own opening parenthesis stands at position `i`.
pub open spec fn node_child_positions(tokens: Seq<SpecToken>, i: int) -> Seq<int> {
    if 0 <= i && i + 1 < tokens.len() && tokens[i + 1] == SpecToken::ProcessedMarker {
        seq![i + 2]
    } else {
        child_positions(tokens, i + 2)
    }
}

/// Whether `children` are exactly the nodes that are read at `positions`,
/// one after the other between `low` and `high`: every position lies after
/// the end of the node before it.
pub open spec fn read_in_order(
    tokens: Seq<SpecToken>,
    positions: Seq<int>,
    children: Seq<SpecNode>,
    low: int,
    high: int,
) -> bool {
    &&& positions.len() == children.len()
    &&& forall|k: int|
        0 <= k < positions.len() ==> {
            &&& low <= #[trigger] positions[k] < high
            &&& parse_node_at(tokens, positions[k]) matches Ok((child, after))
            &&& child == children[k]
            &&& after <= high
            &&& k + 1 < positions.len() ==> after <= positions[k + 1]
        }
}

proof fn lemma_items_in_source_order(tokens: Seq<SpecToken>, i: int)
    requires
        0 <= i <= tokens.len(),
    ensures
        parse_items_at(tokens, i) matches Ok(items) ==> read_in_order(
            tokens,
            child_positions(tokens, i),
            items.children,
            i,
            items.close,
        ),
    decreases tokens.len() - i,
{
    if i < tokens.len() {
        if let Ok(items) = parse_items_at(tokens, i) {
            let positions = child_positions(tokens, i);
            match tokens[i] {
                SpecToken::Close => {},
                SpecToken::Open => {
                    lemma_parse_bounds(tokens, i);
                    let (child, after) = parse_node_at(tokens, i)->Ok_0;
                    lemma_items_in_source_order(tokens, after);
                    lemma_parse_bounds(tokens, after);
                    let rest = parse_items_at(tokens, after)->Ok_0;
                    let rest_positions = child_positions(tokens, after);
                    assert forall|k: int| 0 <= k < positions.len() implies {
                        &&& i <= #[trigger] positions[k] < items.close
                        &&& parse_node_at(tokens, positions[k]) matches Ok((c, a))
                        &&& c == items.children[k]
                        &&& a <= items.close
                        &&& k + 1 < positions.len() ==> a <= positions[k + 1]
                    } by {
                        if k > 0 {
                            assert(positions[k] == rest_positions[k - 1]);
                            assert(items.children[k] == rest.children[k - 1]);
                            if k + 1 < positions.len() {
                                assert(positions[k + 1] == rest_positions[k]);
                            }
                        } else {
                            if 1 < positions.len() {
                                assert(positions[1] == rest_positions[0]);
                            }
                        }
                    }
                },
                _ => {
                    lemma_items_in_source_order(tokens, i + 1);
                    let rest = parse_items_at(tokens, i + 1)->Ok_0;
                    assert(Seq::<SpecNode>::empty() + rest.children =~= rest.children);
                },
            }
        }
    }
}

/// Order of children: when a node is read from the tokens at position `i`,
/// its children are the nodes that are read at the positions where child
/// nodes open inside it, taken from left to right; each child ends before
/// the next one starts, and all of them lie inside the node.
pub proof fn lemma_children_in_source_order(tokens: Seq<SpecToken>, i: int)
    requires
        0 <= i < tokens.len(),
    ensures
        parse_node_at(tokens, i) matches Ok((node, after)) ==> read_in_order(
            tokens,
            node_child_positions(tokens, i),
            node.children,
            i + 2,
            after - 1,
        ),
{
    if let Ok((node, after)) = parse_node_at(tokens, i) {
        lemma_parse_bounds(tokens, i);
        if tokens[i + 1] == SpecToken::ProcessedMarker {
            lemma_parse_bounds(tokens, i + 2);
        } else {
            lemma_items_in_source_order(tokens, i + 2);
        }
    }
}

/// The positions in the text at which the tokens from position `i` on
/// start, one for each token that `lex_from` produces.
pub open spec fn token_offsets(s: Seq<char>, i: int) -> Seq<int>
    decreases s.len() - i,
{
    let p = skip_whitespace(s, i);
    if p < i || p >= s.len() {
        Seq::empty()
    } else {
        match scan_token(s, p) {
            Ok((_, next)) => {
                if p < next <= s.len() {
                    seq![p] + token_offsets(s, next)
                } else {
                    seq![p]
                }
            },
            Err(_) => Seq::empty(),
        }
    }
}

/// Tokens stand in the token sequence in the order in which they stand in
/// the text: there is one start position for each token, and the start
/// positions grow from each token to the next.
pub proof fn lemma_tokens_in_source_order(s: Seq<char>, i: int)
    requires
        0 <= i <= s.len(),
    ensures
        lex_from(s, i) matches Ok(tokens) ==> {
            &&& token_offsets(s, i).len() == tokens.len()
            &&& forall|k: int|
                0 <= k < tokens.len() ==> i <= #[trigger] token_offsets(s, i)[k] < s.len()
            &&& forall|k: int, l: int|
                0 <= k < l < tokens.len() ==> #[trigger] token_offsets(s, i)[k]
                    < #[trigger] token_offsets(s, i)[l]
        },
    decreases s.len() - i,
{
    lemma_skip_whitespace_bounds(s, i);
    let p = skip_whitespace(s, i);
    if p < s.len() {
        lemma_scan_token_bounds(s, p);
        if let Ok((token, next)) = scan_token(s, p) {
            lemma_tokens_in_source_order(s, next);
            if let Ok(rest) = lex_from(s, next) {
                let offsets = token_offsets(s, i);
                let rest_offsets = token_offsets(s, next);
                assert(offsets == seq![p] + rest_offsets);
                assert forall|k: int| 0 <= k < offsets.len() implies i <= #[trigger] offsets[k]
                    < s.len() by {
                    if k > 0 {
                        assert(offsets[k] == rest_offsets[k - 1]);
                    }
                }
                assert forall|k: int, l: int|
                    0 <= k < l < offsets.len() implies #[trigger] offsets[k]
                    < #[trigger] offsets[l] by {
                    assert(offsets[l] == rest_offsets[l - 1]);
                    if k > 0 {
                        assert(offsets[k] == rest_offsets[k - 1]);
                    }
                }
            }
        }
    }
}

proof fn lemma_positions_grow(
    tokens: Seq<SpecToken>,
    positions: Seq<int>,
    children: Seq<SpecNode>,
    low: int,
    high: int,
    k: int,
    l: int,
)
    requires
        read_in_order(tokens, positions, children, low, high),
        0 <= k < l < positions.len(),
        0 <= low,
        high <= tokens.len(),
    ensures
        positions[k] < positions[l],
    decreases l - k,
{
    lemma_parse_bounds(tokens, positions[l - 1]);
    if k < l - 1 {
        lemma_positions_grow(tokens, positions, children, low, high, k, l - 1);
    }
}

/// Order of children in the text: when a text is split into tokens and a
/// node is read from the tokens at position `i`, then the children of the
/// node are the nodes that are read where child nodes open inside it, and
/// an earlier child opens earlier in the text than a later one.
pub proof fn lemma_children_in_text_order(text: Seq<char>, i: int)
    ensures
        spec_tokenize(text) matches Ok(tokens) ==> (0 <= i < tokens.len() && parse_node_at(
            tokens,
            i,
        ) is Ok ==> {
            let node = parse_node_at(tokens, i)->Ok_0.0;
            let positions = node_child_positions(tokens, i);
            let offsets = token_offsets(text, 0);
            &&& offsets.len() == tokens.len()
            &&& positions.len() == node.children.len()
            &&& forall|k: int|
                0 <= k < positions.len() ==> 0 <= #[trigger] positions[k] < tokens.len()
                    && parse_node_at(tokens, positions[k]) is Ok && parse_node_at(
                    tokens,
                    positions[k],
                )->Ok_0.0 == node.children[k]
            &&& forall|k: int, l: int|
                0 <= k < l < positions.len() ==> offsets[#[trigger] positions[k]]
                    < offsets[#[trigger] positions[l]]
        }),
{
    if let Ok(tokens) = spec_tokenize(text) {
        lemma_tokens_in_source_order(text, 0);
        if 0 <= i < tokens.len() && parse_node_at(tokens, i) is Ok {
            let (node, after) = parse_node_at(tokens, i)->Ok_0;
            let positions = node_child_positions(tokens, i);
            let offsets = token_offsets(text, 0);
            lemma_children_in_source_order(tokens, i);
            lemma_parse_bounds(tokens, i);
            assert forall|k: int, l: int|
                0 <= k < l < positions.len() implies offsets[#[trigger] positions[k]]
                < offsets[#[trigger] positions[l]] by {
                lemma_positions_grow(tokens, positions, node.children, i + 2, after - 1, k, l);
            }
        }
    }
}

} // verus!
