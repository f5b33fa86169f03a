//! The grammar-driven reader: from a text to the parse tree that the
//! grammar gives it, and the proof that this route and the tree builder
//! arrive at the same forest.
//!
//! The parse tree keeps attributes and child nodes in one sequence, in the
//! order in which they stand in the source. Pairs of the rules `string`,
//! `identifier`, `property`, `processed` and `attribute` hold their text
//! in the form in which the printer writes it; pairs of the rules `node`
//! and `ast` hold no text of their own.

use vstd::prelude::*;
use vstd::string::StringExecFns;
use crate::error::{Failure, SyntaxError, SyntaxErrorKind};
use crate::generated::{
    attributes_among, is_item_pair, is_quoted_text, is_tag_pair, node_shape, nodes_among,
    pair_well_formed, pairs_view, spec_create_ast, spec_create_attribute, spec_create_node,
    unquoted, Pair, Rule, SpecPair, SwiftDumpAstParser,
};
use crate::lexer::{spec_marker, spec_tokenize, tokenize};
use crate::parser::{
    end_of_tokens, is_close, is_open, lemma_parse_bounds, parse_forest_at, parse_items_at,
    parse_node_at, unexpected_end, unexpected_token, Items,
};
use crate::pipeline::spec_parse_text;
use crate::printed_text::lemma_scan_escaped;
use crate::printer::{escape_from, quoted, write_quoted};
use crate::swift_dump_ast::{classify_token, SpecAttribute, SpecNode};
use crate::token::{token_well_formed, tokens_view, tokens_well_formed, SpecToken, Token};
use crate::token_stream::has_at;
use crate::well_formed::lemma_lex_well_formed;

verus! {

/// A pair without inner pairs.
pub open spec fn leaf(rule: Rule, text: Seq<char>) -> SpecPair {
    SpecPair { rule, text, inner: Seq::empty() }
}

/// The text of a property as the printer writes it.
pub open spec fn property_text(key: Seq<char>, value: Seq<char>) -> Seq<char> {
    key + seq!['='] + quoted(value)
}

/// The `attribute` pair of a token that stands for an attribute.
pub open spec fn attribute_pair(token: SpecToken) -> SpecPair {
    match token {
        SpecToken::QuotedString(content) => SpecPair {
            rule: Rule::attribute,
            text: quoted(content),
            inner: seq![leaf(Rule::string, quoted(content))],
        },
        SpecToken::KeyValueFragment(key, value) => SpecPair {
            rule: Rule::attribute,
            text: property_text(key, value),
            inner: seq![
                SpecPair {
                    rule: Rule::property,
                    text: property_text(key, value),
                    inner: seq![leaf(Rule::identifier, key), leaf(Rule::string, quoted(value))],
                },
            ],
        },
        SpecToken::Identifier(word) => SpecPair {
            rule: Rule::attribute,
            text: word,
            inner: seq![leaf(Rule::identifier, word)],
        },
        _ => leaf(Rule::attribute, Seq::empty()),
    }
}

/// The `node` pair of a wrapper around `child`.
pub open spec fn wrapper_pair(child: SpecPair) -> SpecPair {
    SpecPair {
        rule: Rule::node,
        text: Seq::empty(),
        inner: seq![leaf(Rule::processed, spec_marker()), child],
    }
}

/// The `node` pair of an ordinary node: the pair of its tag, then the
/// pairs of its items.
pub open spec fn plain_pair(tag: SpecToken, items: Seq<SpecPair>) -> SpecPair {
    SpecPair { rule: Rule::node, text: Seq::empty(), inner: seq![attribute_pair(tag)] + items }
}

/// The `ast` pair that holds the given `node` pairs.
pub open spec fn ast_pair(nodes: Seq<SpecPair>) -> SpecPair {
    SpecPair { rule: Rule::ast, text: Seq::empty(), inner: nodes }
}

/// The `node` pair of the node whose opening parenthesis stands at
/// position `i`, and the position just after its closing parenthesis.
pub open spec fn pair_node_at(tokens: Seq<SpecToken>, i: int) -> Result<(SpecPair, int), Failure>
    decreases tokens.len() - i, 0nat,
{
    if i < 0 || i + 1 >= tokens.len() {
        Err(unexpected_end(tokens))
    } else {
        match tokens[i + 1] {
            SpecToken::ProcessedMarker => {
                if i + 2 >= tokens.len() {
                    Err(unexpected_end(tokens))
                } else if tokens[i + 2] != SpecToken::Open {
                    Err(unexpected_token(i + 2))
                } else {
                    match pair_node_at(tokens, i + 2) {
                        Err(e) => Err(e),
                        Ok((child, after)) => {
                            if after < 0 || after >= tokens.len() {
                                Err(unexpected_end(tokens))
                            } else if tokens[after] != SpecToken::Close {
                                Err(unexpected_token(after))
                            } else {
                                Ok((wrapper_pair(child), after + 1))
                            }
                        },
                    }
                }
            },
            SpecToken::Identifier(_) => {
                match pair_items_at(tokens, i + 2) {
                    Err(e) => Err(e),
                    Ok((items, close)) => Ok((plain_pair(tokens[i + 1], items), close + 1)),
                }
            },
            _ => Err(unexpected_token(i + 1)),
        }
    }
}

/// Puts `head` in front of the pairs that the rest of a node produced.
pub open spec fn prepend_pairs(
    head: Seq<SpecPair>,
    rest: Result<(Seq<SpecPair>, int), Failure>,
) -> Result<(Seq<SpecPair>, int), Failure> {
    match rest {
        Ok((pairs, close)) => Ok((head + pairs, close)),
        Err(e) => Err(e),
    }
}

/// The pairs of the items from position `i` up to the closing parenthesis
/// of their node, and the position of that parenthesis.
pub open spec fn pair_items_at(tokens: Seq<SpecToken>, i: int) -> Result<
    (Seq<SpecPair>, int),
    Failure,
>
    decreases tokens.len() - i, 1nat,
{
    if i < 0 || i >= tokens.len() {
        Err(unexpected_end(tokens))
    } else {
        match tokens[i] {
            SpecToken::Close => Ok((Seq::empty(), i)),
            SpecToken::Open => {
                match pair_node_at(tokens, i) {
                    Err(e) => Err(e),
                    Ok((child, after)) => {
                        if i < after <= tokens.len() {
                            prepend_pairs(seq![child], pair_items_at(tokens, after))
                        } else {
                            Err(unexpected_end(tokens))
                        }
                    },
                }
            },
            SpecToken::ProcessedMarker => Err(unexpected_token(i)),
            token => prepend_pairs(seq![attribute_pair(token)], pair_items_at(tokens, i + 1)),
        }
    }
}

/// Puts `head` in front of the pairs that the rest of the tokens produced.
pub open spec fn prepend_top(head: Seq<SpecPair>, rest: Result<Seq<SpecPair>, Failure>) -> Result<
    Seq<SpecPair>,
    Failure,
> {
    match rest {
        Ok(pairs) => Ok(head + pairs),
        Err(e) => Err(e),
    }
}

/// The `node` pairs of the top-level nodes from position `i` on.
pub open spec fn pair_forest_at(tokens: Seq<SpecToken>, i: int) -> Result<Seq<SpecPair>, Failure>
    decreases tokens.len() - i,
{
    if i < 0 || i >= tokens.len() {
        Ok(Seq::empty())
    } else {
        match tokens[i] {
            SpecToken::Open => {
                match pair_node_at(tokens, i) {
                    Err(e) => Err(e),
                    Ok((node, after)) => {
                        if i < after <= tokens.len() {
                            prepend_top(seq![node], pair_forest_at(tokens, after))
                        } else {
                            Err(unexpected_end(tokens))
                        }
                    },
                }
            },
            SpecToken::Close => Err(
                Failure { kind: SyntaxErrorKind::UnmatchedClose, position: i },
            ),
            _ => Err(unexpected_token(i)),
        }
    }
}

/// The parse tree that the grammar gives a text, or the first failure met.
pub open spec fn spec_grammar_parse(text: Seq<char>) -> Result<SpecPair, Failure> {
    match spec_tokenize(text) {
        Err(e) => Err(e),
        Ok(tokens) => match pair_forest_at(tokens, 0) {
            Err(e) => Err(e),
            Ok(nodes) => Ok(ast_pair(nodes)),
        },
    }
}

/// A text in quotes, as the printer writes it, is a complete quoted string
/// whose content is that text.
pub proof fn lemma_unquote_quoted(content: Seq<char>)
    ensures
        is_quoted_text(quoted(content)),
        unquoted(quoted(content)) == content,
{
    let text = quoted(content);
    let inside = escape_from(content, 0) + seq!['"'];
    assert(text =~= seq!['"'] + inside);
    assert(has_at(text, 1, inside)) by {
        assert forall|k: int| 0 <= k < inside.len() implies text[1 + k]
            == #[trigger] inside[k] by {}
    }
    lemma_scan_escaped(text, 0, 1, content, 0);
    assert(content.subrange(0, content.len() as int) =~= content);
}

/// The pair of an attribute token is well-formed and stands for the
/// attribute that the token is classified as.
pub proof fn lemma_attribute_pair(token: SpecToken)
    requires
        token_well_formed(token),
        classify_token(token) is Some,
    ensures
        pair_well_formed(attribute_pair(token)),
        attribute_pair(token).rule == Rule::attribute,
        spec_create_attribute(attribute_pair(token)) == classify_token(token)->0,
        token is Identifier ==> is_tag_pair(attribute_pair(token)),
{
    let pair = attribute_pair(token);
    match token {
        SpecToken::QuotedString(content) => {
            lemma_unquote_quoted(content);
            assert(pair_well_formed(pair.inner[0]));
        },
        SpecToken::KeyValueFragment(key, value) => {
            lemma_unquote_quoted(value);
            let property = pair.inner[0];
            assert(pair_well_formed(property.inner[0]));
            assert(pair_well_formed(property.inner[1]));
            assert(pair_well_formed(property));
        },
        SpecToken::Identifier(word) => {
            assert(pair_well_formed(pair.inner[0]));
        },
        _ => {},
    }
}

proof fn lemma_among_shift(first: SpecPair, pairs: Seq<SpecPair>, k: int)
    requires
        0 <= k <= pairs.len(),
    ensures
        attributes_among(seq![first] + pairs, k + 1) == attributes_among(pairs, k),
        nodes_among(seq![first] + pairs, k + 1) == nodes_among(pairs, k),
    decreases pairs.len() - k,
{
    let whole = seq![first] + pairs;
    if k < pairs.len() {
        assert(whole[k + 1] == pairs[k]);
        lemma_among_shift(first, pairs, k + 1);
    }
}

proof fn lemma_pair_node(tokens: Seq<SpecToken>, i: int)
    requires
        0 <= i <= tokens.len(),
        tokens_well_formed(tokens),
    ensures
        match pair_node_at(tokens, i) {
            Ok((pair, after)) => {
                &&& pair.rule == Rule::node
                &&& pair_well_formed(pair)
                &&& parse_node_at(tokens, i) == Ok::<(SpecNode, int), Failure>(
                    (spec_create_node(pair), after),
                )
            },
            Err(e) => parse_node_at(tokens, i) == Err::<(SpecNode, int), Failure>(e),
        },
    decreases tokens.len() - i, 0nat,
{
    if i + 1 < tokens.len() {
        match tokens[i + 1] {
            SpecToken::ProcessedMarker => {
                if i + 2 < tokens.len() && tokens[i + 2] == SpecToken::Open {
                    lemma_pair_node(tokens, i + 2);
                    if let Ok((child, after)) = pair_node_at(tokens, i + 2) {
                        if 0 <= after < tokens.len() && tokens[after] == SpecToken::Close {
                            let pair = wrapper_pair(child);
                            assert(pair_well_formed(pair.inner[0]));
                            assert(pair_well_formed(pair.inner[1]));
                            assert(node_shape(pair.inner));
                            assert(nodes_among(pair.inner, 2) =~= Seq::<SpecNode>::empty());
                            assert(nodes_among(pair.inner, 1) =~= seq![spec_create_node(child)]);
                        }
                    }
                }
            },
            SpecToken::Identifier(tag) => {
                lemma_pair_items(tokens, i + 2);
                if let Ok((items, close)) = pair_items_at(tokens, i + 2) {
                    let head = attribute_pair(tokens[i + 1]);
                    let pair = plain_pair(tokens[i + 1], items);
                    assert(token_well_formed(tokens[i + 1]));
                    lemma_attribute_pair(tokens[i + 1]);
                    lemma_among_shift(head, items, 0);
                    assert forall|k: int| 0 <= k < pair.inner.len() implies pair_well_formed(
                        #[trigger] pair.inner[k],
                    ) by {
                        if k > 0 {
                            assert(pair.inner[k] == items[k - 1]);
                        }
                    }
                    assert forall|k: int| 1 <= k < pair.inner.len() implies is_item_pair(
                        #[trigger] pair.inner[k],
                    ) by {
                        assert(pair.inner[k] == items[k - 1]);
                    }
                    assert(pair.inner[0] == head);
                    assert(node_shape(pair.inner));
                }
            },
            _ => {},
        }
    }
}

proof fn lemma_pair_items(tokens: Seq<SpecToken>, i: int)
    requires
        0 <= i <= tokens.len(),
        tokens_well_formed(tokens),
    ensures
        match pair_items_at(tokens, i) {
            Ok((pairs, close)) => {
                &&& forall|k: int|
                    0 <= k < pairs.len() ==> is_item_pair(#[trigger] pairs[k]) && pair_well_formed(
                        pairs[k],
                    )
                &&& parse_items_at(tokens, i) == Ok::<Items, Failure>(
                    Items {
                        attributes: attributes_among(pairs, 0),
                        children: nodes_among(pairs, 0),
                        close,
                    },
                )
            },
            Err(e) => parse_items_at(tokens, i) == Err::<Items, Failure>(e),
        },
    decreases tokens.len() - i, 1nat,
{
    if i < tokens.len() {
        match tokens[i] {
            SpecToken::Close => {},
            SpecToken::Open => {
                lemma_pair_node(tokens, i);
                lemma_parse_bounds(tokens, i);
                if let Ok((child, after)) = pair_node_at(tokens, i) {
                    lemma_pair_items(tokens, after);
                    if let Ok((rest, close)) = pair_items_at(tokens, after) {
                        let pairs = seq![child] + rest;
                        lemma_among_shift(child, rest, 0);
                        assert forall|k: int| 0 <= k < pairs.len() implies is_item_pair(
                            #[trigger] pairs[k],
                        ) && pair_well_formed(pairs[k]) by {
                            if k > 0 {
                                assert(pairs[k] == rest[k - 1]);
                            }
                        }
                        assert(Seq::<SpecAttribute>::empty() + attributes_among(rest, 0)
                            =~= attributes_among(rest, 0));
                    }
                }
            },
            SpecToken::ProcessedMarker => {},
            token => {
                lemma_pair_items(tokens, i + 1);
                assert(token_well_formed(tokens[i]));
                lemma_attribute_pair(token);
                if let Ok((rest, close)) = pair_items_at(tokens, i + 1) {
                    let first = attribute_pair(token);
                    let pairs = seq![first] + rest;
                    lemma_among_shift(first, rest, 0);
                    assert forall|k: int| 0 <= k < pairs.len() implies is_item_pair(
                        #[trigger] pairs[k],
                    ) && pair_well_formed(pairs[k]) by {
                        if k > 0 {
                            assert(pairs[k] == rest[k - 1]);
                        }
                    }
                    assert(Seq::<SpecNode>::empty() + nodes_among(rest, 0) =~= nodes_among(
                        rest,
                        0,
                    ));
                }
            },
        }
    }
}

proof fn lemma_pair_forest(tokens: Seq<SpecToken>, i: int)
    requires
        0 <= i <= tokens.len(),
        tokens_well_formed(tokens),
    ensures
        match pair_forest_at(tokens, i) {
            Ok(pairs) => {
                &&& forall|k: int|
                    0 <= k < pairs.len() ==> (#[trigger] pairs[k]).rule == Rule::node
                        && pair_well_formed(pairs[k])
                &&& parse_forest_at(tokens, i) == Ok::<Seq<SpecNode>, Failure>(
                    nodes_among(pairs, 0),
                )
            },
            Err(e) => parse_forest_at(tokens, i) == Err::<Seq<SpecNode>, Failure>(e),
        },
    decreases tokens.len() - i,
{
    if i < tokens.len() {
        if tokens[i] == SpecToken::Open {
            lemma_pair_node(tokens, i);
            lemma_parse_bounds(tokens, i);
            if let Ok((node, after)) = pair_node_at(tokens, i) {
                lemma_pair_forest(tokens, after);
                if let Ok(rest) = pair_forest_at(tokens, after) {
                    let pairs = seq![node] + rest;
                    lemma_among_shift(node, rest, 0);
                    assert forall|k: int| 0 <= k < pairs.len() implies (#[trigger] pairs[k]).rule
                        == Rule::node && pair_well_formed(pairs[k]) by {
                        if k > 0 {
                            assert(pairs[k] == rest[k - 1]);
                        }
                    }
                }
            }
        }
    }
}

/// The two readers agree on every text. Where the grammar gives a parse
/// tree, that tree is well-formed and stands for exactly the forest that
/// the tokenizer and the tree builder make of the text; where the grammar
/// fails, they fail in the same way.
pub proof fn lemma_readers_agree(text: Seq<char>)
    ensures
        match spec_grammar_parse(text) {
            Ok(pair) => {
                &&& pair.rule == Rule::ast
                &&& pair_well_formed(pair)
                &&& spec_parse_text(text) == Ok::<Seq<SpecNode>, Failure>(spec_create_ast(pair))
            },
            Err(e) => spec_parse_text(text) == Err::<Seq<SpecNode>, Failure>(e),
        },
{
    lemma_lex_well_formed(text, 0);
    if let Ok(tokens) = spec_tokenize(text) {
        lemma_pair_forest(tokens, 0);
    }
}

/// Whether an executable pair result stands for the specified one.
pub open spec fn pair_matches(
    got: Result<(Pair, usize), SyntaxError>,
    want: Result<(SpecPair, int), Failure>,
) -> bool {
    match (got, want) {
        (Ok((pair, after)), Ok((spec_pair, spec_after))) => pair@ == spec_pair && after
            == spec_after,
        (Err(e), Err(f)) => e@ == f,
        _ => false,
    }
}

/// Whether an executable parse result stands for the specified one.
pub open spec fn tree_matches(
    got: Result<Pair, SyntaxError>,
    want: Result<SpecPair, Failure>,
) -> bool {
    match (got, want) {
        (Ok(pair), Ok(spec_pair)) => pair@ == spec_pair,
        (Err(e), Err(f)) => e@ == f,
        _ => false,
    }
}

fn leaf_pair(rule: Rule, text: String) -> (pair: Pair)
    ensures
        pair@ == leaf(rule, text@),
{
    let inner: Vec<Pair> = Vec::new();
    proof {
        assert(pairs_view(inner@) =~= Seq::<SpecPair>::empty());
    }
    Pair::new(rule, text, inner)
}

fn holder(rule: Rule, text: String, only: Pair) -> (pair: Pair)
    ensures
        pair@ == (SpecPair { rule, text: text@, inner: seq![only@] }),
{
    let mut inner: Vec<Pair> = Vec::new();
    inner.push(only);
    proof {
        assert(pairs_view(inner@) =~= seq![only@]);
    }
    Pair::new(rule, text, inner)
}

fn quoted_text(content: &str) -> (text: String)
    ensures
        text@ == quoted(content@),
{
    let mut text = String::new();
    write_quoted(content, &mut text);
    proof {
        assert(Seq::<char>::empty() + quoted(content@) =~= quoted(content@));
    }
    text
}

fn build_attribute_pair(token: &Token) -> (pair: Pair)
    ensures
        pair@ == attribute_pair(token@),
{
    match token {
        Token::QuotedString(content) => {
            let text = quoted_text(content.as_str());
            holder(Rule::attribute, text.clone(), leaf_pair(Rule::string, text))
        },
        Token::KeyValueFragment(key, value) => {
            let shown = quoted_text(value.as_str());
            let mut text = key.clone();
            text.push('=');
            text.append(shown.as_str());
            proof {
                assert(text@ =~= property_text(key@, value@));
            }
            let mut parts: Vec<Pair> = Vec::new();
            parts.push(leaf_pair(Rule::identifier, key.clone()));
            parts.push(leaf_pair(Rule::string, shown));
            proof {
                assert(pairs_view(parts@) =~= seq![
                    leaf(Rule::identifier, key@),
                    leaf(Rule::string, quoted(value@)),
                ]);
            }
            let property = Pair::new(Rule::property, text.clone(), parts);
            holder(Rule::attribute, text, property)
        },
        Token::Identifier(word) => holder(
            Rule::attribute,
            word.clone(),
            leaf_pair(Rule::identifier, word.clone()),
        ),
        _ => leaf_pair(Rule::attribute, String::new()),
    }
}

fn is_marker_token(token: &Token) -> (r: bool)
    ensures
        r == (token@ == SpecToken::ProcessedMarker),
{
    match token {
        Token::ProcessedMarker => true,
        _ => false,
    }
}

proof fn lemma_pair_bounds(tokens: Seq<SpecToken>, i: int)
    requires
        0 <= i <= tokens.len(),
    ensures
        pair_node_at(tokens, i) matches Ok((_, after)) ==> i + 2 < after <= tokens.len(),
        pair_items_at(tokens, i) matches Ok((_, close)) ==> i <= close < tokens.len(),
    decreases tokens.len() - i, 2nat,
{
    lemma_pair_node_bounds(tokens, i);
    lemma_pair_items_bounds(tokens, i);
}

proof fn lemma_pair_node_bounds(tokens: Seq<SpecToken>, i: int)
    requires
        0 <= i <= tokens.len(),
    ensures
        pair_node_at(tokens, i) matches Ok((_, after)) ==> i + 2 < after <= tokens.len(),
    decreases tokens.len() - i, 0nat,
{
    if i + 1 < tokens.len() {
        match tokens[i + 1] {
            SpecToken::ProcessedMarker => {
                if i + 2 < tokens.len() {
                    lemma_pair_node_bounds(tokens, i + 2);
                }
            },
            SpecToken::Identifier(tag) => {
                lemma_pair_items_bounds(tokens, i + 2);
            },
            _ => {},
        }
    }
}

proof fn lemma_pair_items_bounds(tokens: Seq<SpecToken>, i: int)
    requires
        0 <= i <= tokens.len(),
    ensures
        pair_items_at(tokens, i) matches Ok((_, close)) ==> i <= close < tokens.len(),
    decreases tokens.len() - i, 1nat,
{
    if i < tokens.len() {
        match tokens[i] {
            SpecToken::Close => {},
            SpecToken::Open => {
                lemma_pair_node_bounds(tokens, i);
                if let Ok((child, after)) = pair_node_at(tokens, i) {
                    lemma_pair_items_bounds(tokens, after);
                }
            },
            SpecToken::ProcessedMarker => {},
            token => {
                lemma_pair_items_bounds(tokens, i + 1);
            },
        }
    }
}

fn build_pair_node(tokens: &Vec<Token>, i: usize) -> (r: Result<(Pair, usize), SyntaxError>)
    requires
        i < tokens.len(),
    ensures
        pair_matches(r, pair_node_at(tokens_view(tokens@), i as int)),
        r matches Ok((_, after)) ==> i < after <= tokens.len(),
    decreases tokens.len() - i, 0nat,
{
    let ghost ts = tokens_view(tokens@);
    proof {
        lemma_pair_bounds(ts, i as int);
    }
    if tokens.len() - i < 2 {
        return Err(end_of_tokens(tokens));
    }
    match &tokens[i + 1] {
        Token::ProcessedMarker => {
            if tokens.len() - i < 3 {
                return Err(end_of_tokens(tokens));
            }
            if !is_open(&tokens[i + 2]) {
                return Err(SyntaxError { kind: SyntaxErrorKind::UnexpectedToken, position: i + 2 });
            }
            match build_pair_node(tokens, i + 2) {
                Err(e) => Err(e),
                Ok((child, after)) => {
                    if after >= tokens.len() {
                        Err(end_of_tokens(tokens))
                    } else if !is_close(&tokens[after]) {
                        Err(SyntaxError { kind: SyntaxErrorKind::UnexpectedToken, position: after })
                    } else {
                        let mut marker = String::new();
                        marker.append("Original init:");
                        proof {
                            reveal_strlit("Original init:");
                            assert(marker@ =~= spec_marker());
                        }
                        let mut inner: Vec<Pair> = Vec::new();
                        inner.push(leaf_pair(Rule::processed, marker));
                        inner.push(child);
                        proof {
                            assert(pairs_view(inner@) =~= seq![
                                leaf(Rule::processed, spec_marker()),
                                child@,
                            ]);
                        }
                        Ok((Pair::new(Rule::node, String::new(), inner), after + 1))
                    }
                },
            }
        },
        Token::Identifier(_) => {
            let mut inner: Vec<Pair> = Vec::new();
            inner.push(build_attribute_pair(&tokens[i + 1]));
            let ghost head = seq![attribute_pair(ts[i + 1])];
            proof {
                assert(pairs_view(inner@) =~= head);
            }
            match build_pair_items(tokens, i + 2, &mut inner) {
                Err(e) => Err(e),
                Ok(close) => Ok((Pair::new(Rule::node, String::new(), inner), close + 1)),
            }
        },
        _ => Err(SyntaxError { kind: SyntaxErrorKind::UnexpectedToken, position: i + 1 }),
    }
}

/// Whether an executable run of items, appended to what `out` held
/// before, stands for the specified one.
pub open spec fn appended_match(
    before: Seq<SpecPair>,
    after: Seq<SpecPair>,
    got: Result<usize, SyntaxError>,
    want: Result<(Seq<SpecPair>, int), Failure>,
) -> bool {
    match (got, want) {
        (Ok(close), Ok((spec_pairs, spec_close))) => after == before + spec_pairs && close
            == spec_close,
        (Err(e), Err(f)) => e@ == f,
        _ => false,
    }
}

fn build_pair_items(tokens: &Vec<Token>, start: usize, out: &mut Vec<Pair>) -> (r: Result<
    usize,
    SyntaxError,
>)
    requires
        start <= tokens.len(),
    ensures
        appended_match(
            pairs_view(old(out)@),
            pairs_view(final(out)@),
            r,
            pair_items_at(tokens_view(tokens@), start as int),
        ),
        r matches Ok(close) ==> start <= close < tokens.len(),
    decreases tokens.len() - start, 1nat,
{
    let ghost ts = tokens_view(tokens@);
    let ghost before = pairs_view(out@);
    let mut i: usize = start;
    proof {
        if let Ok((all, close)) = pair_items_at(ts, start as int) {
            assert(before + (Seq::<SpecPair>::empty() + all) =~= before + all);
        }
        assert(before + Seq::<SpecPair>::empty() =~= before);
    }
    let ghost mut added: Seq<SpecPair> = Seq::empty();
    loop
        invariant
            ts == tokens_view(tokens@),
            start <= i <= tokens.len(),
            before == pairs_view(old(out)@),
            pairs_view(out@) == before + added,
            pair_items_at(ts, start as int) == prepend_pairs(added, pair_items_at(ts, i as int)),
        decreases tokens.len() - i,
    {
        if i >= tokens.len() {
            return Err(end_of_tokens(tokens));
        }
        if is_close(&tokens[i]) {
            proof {
                assert(added + Seq::<SpecPair>::empty() =~= added);
            }
            return Ok(i);
        }
        if is_marker_token(&tokens[i]) {
            return Err(SyntaxError { kind: SyntaxErrorKind::UnexpectedToken, position: i });
        }
        let ghost so_far = pairs_view(out@);
        if is_open(&tokens[i]) {
            proof {
                lemma_pair_bounds(ts, i as int);
            }
            match build_pair_node(tokens, i) {
                Err(e) => {
                    return Err(e);
                },
                Ok((child, after)) => {
                    proof {
                        assert(pairs_view(out@.push(child)) =~= so_far.push(child@));
                        assert(so_far.push(child@) =~= before + added.push(child@));
                        if let Ok((rest, close)) = pair_items_at(ts, after as int) {
                            assert(added + (seq![child@] + rest) =~= added.push(child@) + rest);
                        }
                        added = added.push(child@);
                    }
                    out.push(child);
                    i = after;
                },
            }
        } else {
            let pair = build_attribute_pair(&tokens[i]);
            proof {
                assert(pairs_view(out@.push(pair)) =~= so_far.push(pair@));
                assert(so_far.push(pair@) =~= before + added.push(pair@));
                if let Ok((rest, close)) = pair_items_at(ts, i + 1) {
                    assert(added + (seq![pair@] + rest) =~= added.push(pair@) + rest);
                }
                added = added.push(pair@);
            }
            out.push(pair);
            i += 1;
        }
    }
}

impl SwiftDumpAstParser {
    /// Reads a whole dump into the parse tree that the grammar gives it:
    /// a well-formed `ast` pair that holds one `node` pair for each
    /// top-level node.
    pub fn parse(input: &str) -> (r: Result<Pair, SyntaxError>)
        ensures
            tree_matches(r, spec_grammar_parse(input@)),
            r matches Ok(pair) ==> pair@.rule == Rule::ast && pair_well_formed(pair@),
    {
        proof {
            lemma_readers_agree(input@);
        }
        let tokens = match tokenize(input) {
            Err(e) => {
                return Err(e);
            },
            Ok(tokens) => tokens,
        };
        let ghost ts = tokens_view(tokens@);
        let mut nodes: Vec<Pair> = Vec::new();
        let mut i: usize = 0;
        proof {
            if let Ok(all) = pair_forest_at(ts, 0) {
                assert(pairs_view(nodes@) + all =~= all);
            }
        }
        while i < tokens.len()
            invariant
                ts == tokens_view(tokens@),
                spec_tokenize(input@) == Ok::<Seq<SpecToken>, Failure>(ts),
                i <= tokens.len(),
                pair_forest_at(ts, 0) == prepend_top(
                    pairs_view(nodes@),
                    pair_forest_at(ts, i as int),
                ),
            decreases tokens.len() - i,
        {
            let ghost before = pairs_view(nodes@);
            if is_open(&tokens[i]) {
                proof {
                    lemma_pair_bounds(ts, i as int);
                }
                match build_pair_node(&tokens, i) {
                    Err(e) => {
                        return Err(e);
                    },
                    Ok((node, after)) => {
                        proof {
                            assert(pairs_view(nodes@.push(node)) =~= before.push(node@));
                            if let Ok(rest) = pair_forest_at(ts, after as int) {
                                assert(before + (seq![node@] + rest) =~= before.push(node@) + rest);
                            }
                        }
                        nodes.push(node);
                        i = after;
                    },
                }
            } else if is_close(&tokens[i]) {
                return Err(SyntaxError { kind: SyntaxErrorKind::UnmatchedClose, position: i });
            } else {
                return Err(SyntaxError { kind: SyntaxErrorKind::UnexpectedToken, position: i });
            }
        }
        proof {
            assert(pairs_view(nodes@) + Seq::<SpecPair>::empty() =~= pairs_view(nodes@));
        }
        Ok(Pair::new(Rule::ast, String::new(), nodes))
    }
}

} // verus!
