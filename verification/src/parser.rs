//! The tree builder: from tokens to the forest of nodes.
//!
//! The grammar is
//!
//! ```text
//! forest  := node*
//! node    := Open ProcessedMarker node Close
//!          | Open Identifier item* Close
//! item    := node | QuotedString | KeyValueFragment | Identifier
//! ```
//!
//! and is given below as specification functions over a token sequence and
//! a position in it. Positions in failures count tokens.

use vstd::prelude::*;
use crate::error::{Failure, SyntaxError, SyntaxErrorKind};
use crate::node_type::NodeType;
use crate::swift_dump_ast::{
    attributes_view, classify_token, forest_well_formed, nodes_view, plain_node, wrapper_node,
    Attribute, DumpAst, Node, SpecAttribute, SpecNode,
};
use crate::token::{tokens_view, tokens_well_formed, SpecToken, Token};
use crate::well_formed::lemma_parse_well_formed;

verus! {

/// The failure of running out of tokens inside a node.
pub open spec fn unexpected_end(tokens: Seq<SpecToken>) -> Failure {
    Failure { kind: SyntaxErrorKind::UnexpectedEnd, position: tokens.len() as int }
}

/// The failure of meeting a token that may not stand at position `i`.
pub open spec fn unexpected_token(i: int) -> Failure {
    Failure { kind: SyntaxErrorKind::UnexpectedToken, position: i }
}

/// What follows the tag of an ordinary node: its attributes and its
/// children, each in source order, and the position of the closing
/// parenthesis.
pub struct Items {
    pub attributes: Seq<SpecAttribute>,
    pub children: Seq<SpecNode>,
    pub close: int,
}

/// Puts attributes and children in front of those that the rest of a node
/// produced.
pub open spec fn prepend_items(
    attributes: Seq<SpecAttribute>,
    children: Seq<SpecNode>,
    rest: Result<Items, Failure>,
) -> Result<Items, Failure> {
    match rest {
        Ok(items) => Ok(
            Items {
                attributes: attributes + items.attributes,
                children: children + items.children,
                close: items.close,
            },
        ),
        Err(e) => Err(e),
    }
}

/// Reads the node whose opening parenthesis stands at position `i`. The
/// result is the node and the position just after its closing parenthesis.
pub open spec fn parse_node_at(tokens: Seq<SpecToken>, i: int) -> Result<(SpecNode, int), Failure>
    decreases tokens.len() - i, 0nat,
{
    if i < 0 || i + 1 >= tokens.len() {
        Err(unexpected_end(tokens))
    } else {
        match tokens[i + 1] {
            SpecToken::ProcessedMarker => {
                if i + 2 >= tokens.len() {
                    Err(unexpected_end(tokens))
                } else if tokens[i + 2] != SpecToken::Open {
                    Err(unexpected_token(i + 2))
                } else {
                    match parse_node_at(tokens, i + 2) {
                        Err(e) => Err(e),
                        Ok((child, after)) => {
                            if after < 0 || after >= tokens.len() {
                                Err(unexpected_end(tokens))
                            } else if tokens[after] != SpecToken::Close {
                                Err(unexpected_token(after))
                            } else {
                                Ok((wrapper_node(child), after + 1))
                            }
                        },
                    }
                }
            },
            SpecToken::Identifier(tag) => {
                match parse_items_at(tokens, i + 2) {
                    Err(e) => Err(e),
                    Ok(items) => Ok(
                        (plain_node(tag, items.attributes, items.children), items.close + 1),
                    ),
                }
            },
            _ => Err(unexpected_token(i + 1)),
        }
    }
}

/// Reads the attributes and children of an ordinary node from position `i`
/// up to its closing parenthesis.
pub open spec fn parse_items_at(tokens: Seq<SpecToken>, i: int) -> Result<Items, Failure>
    decreases tokens.len() - i, 1nat,
{
    if i < 0 || i >= tokens.len() {
        Err(unexpected_end(tokens))
    } else {
        match tokens[i] {
            SpecToken::Close => Ok(
                Items { attributes: Seq::empty(), children: Seq::empty(), close: i },
            ),
            SpecToken::Open => {
                match parse_node_at(tokens, i) {
                    Err(e) => Err(e),
                    Ok((child, after)) => {
                        if i < after <= tokens.len() {
                            prepend_items(Seq::empty(), seq![child], parse_items_at(tokens, after))
                        } else {
                            Err(unexpected_end(tokens))
                        }
                    },
                }
            },
            token => {
                match classify_token(token) {
                    Some(attribute) => prepend_items(
                        seq![attribute],
                        Seq::empty(),
                        parse_items_at(tokens, i + 1),
                    ),
                    None => Err(unexpected_token(i)),
                }
            },
        }
    }
}

/// Puts `head` in front of the nodes that the rest of the tokens produced.
pub open spec fn prepend_nodes(head: Seq<SpecNode>, rest: Result<Seq<SpecNode>, Failure>) -> Result<
    Seq<SpecNode>,
    Failure,
> {
    match rest {
        Ok(nodes) => Ok(head + nodes),
        Err(e) => Err(e),
    }
}

/// Reads the top-level nodes from position `i` to the end of the tokens.
pub open spec fn parse_forest_at(tokens: Seq<SpecToken>, i: int) -> Result<Seq<SpecNode>, Failure>
    decreases tokens.len() - i,
{
    if i < 0 || i >= tokens.len() {
        Ok(Seq::empty())
    } else {
        match tokens[i] {
            SpecToken::Open => {
                match parse_node_at(tokens, i) {
                    Err(e) => Err(e),
                    Ok((node, after)) => {
                        if i < after <= tokens.len() {
                            prepend_nodes(seq![node], parse_forest_at(tokens, after))
                        } else {
                            Err(unexpected_end(tokens))
                        }
                    },
                }
            },
            SpecToken::Close => Err(
                Failure { kind: SyntaxErrorKind::UnmatchedClose, position: i },
            ),
            _ => Err(unexpected_token(i)),
        }
    }
}

/// The forest that a token sequence describes, or the first failure met.
pub open spec fn spec_parse(tokens: Seq<SpecToken>) -> Result<Seq<SpecNode>, Failure> {
    parse_forest_at(tokens, 0)
}

/// A node ends after it starts and inside the token sequence; so does the
/// run of items of a node.
pub proof fn lemma_parse_bounds(tokens: Seq<SpecToken>, i: int)
    requires
        0 <= i <= tokens.len(),
    ensures
        parse_node_at(tokens, i) matches Ok((_, after)) ==> i + 2 < after <= tokens.len(),
        parse_items_at(tokens, i) matches Ok(items) ==> i <= items.close < tokens.len(),
    decreases tokens.len() - i, 2nat,
{
    lemma_parse_node_bounds(tokens, i);
    lemma_parse_items_bounds(tokens, i);
}

proof fn lemma_parse_node_bounds(tokens: Seq<SpecToken>, i: int)
    requires
        0 <= i <= tokens.len(),
    ensures
        parse_node_at(tokens, i) matches Ok((_, after)) ==> i + 2 < after <= tokens.len(),
    decreases tokens.len() - i, 0nat,
{
    if i + 1 < tokens.len() {
        match tokens[i + 1] {
            SpecToken::ProcessedMarker => {
                if i + 2 < tokens.len() {
                    lemma_parse_node_bounds(tokens, i + 2);
                }
            },
            SpecToken::Identifier(tag) => {
                lemma_parse_items_bounds(tokens, i + 2);
            },
            _ => {},
        }
    }
}

proof fn lemma_parse_items_bounds(tokens: Seq<SpecToken>, i: int)
    requires
        0 <= i <= tokens.len(),
    ensures
        parse_items_at(tokens, i) matches Ok(items) ==> i <= items.close < tokens.len(),
    decreases tokens.len() - i, 1nat,
{
    if i < tokens.len() {
        match tokens[i] {
            SpecToken::Close => {},
            SpecToken::Open => {
                lemma_parse_node_bounds(tokens, i);
                if let Ok((child, after)) = parse_node_at(tokens, i) {
                    lemma_parse_items_bounds(tokens, after);
                }
            },
            token => {
                lemma_parse_items_bounds(tokens, i + 1);
            },
        }
    }
}

/// Whether an executable node result stands for the specified one.
pub open spec fn node_matches(
    got: Result<(Node, usize), SyntaxError>,
    want: Result<(SpecNode, int), Failure>,
) -> bool {
    match (got, want) {
        (Ok((node, after)), Ok((spec_node, spec_after))) => node@ == spec_node && after
            == spec_after,
        (Err(e), Err(f)) => e@ == f,
        _ => false,
    }
}

/// Whether an executable items result stands for the specified one.
pub open spec fn items_match(
    got: Result<(Vec<Attribute>, Vec<Node>, usize), SyntaxError>,
    want: Result<Items, Failure>,
) -> bool {
    match (got, want) {
        (Ok((attributes, children, close)), Ok(items)) => {
            &&& attributes_view(attributes@) == items.attributes
            &&& nodes_view(children@) == items.children
            &&& close == items.close
        },
        (Err(e), Err(f)) => e@ == f,
        _ => false,
    }
}

/// Whether an executable forest result stands for the specified one.
pub open spec fn forest_matches(
    got: Result<DumpAst, SyntaxError>,
    want: Result<Seq<SpecNode>, Failure>,
) -> bool {
    match (got, want) {
        (Ok(ast), Ok(forest)) => ast@ == forest,
        (Err(e), Err(f)) => e@ == f,
        _ => false,
    }
}

pub(crate) fn is_open(token: &Token) -> (r: bool)
    ensures
        r == (token@ == SpecToken::Open),
{
    match token {
        Token::Open => true,
        _ => false,
    }
}

pub(crate) fn is_close(token: &Token) -> (r: bool)
    ensures
        r == (token@ == SpecToken::Close),
{
    match token {
        Token::Close => true,
        _ => false,
    }
}

pub(crate) fn end_of_tokens(tokens: &Vec<Token>) -> (e: SyntaxError)
    ensures
        e@ == unexpected_end(tokens_view(tokens@)),
{
    SyntaxError { kind: SyntaxErrorKind::UnexpectedEnd, position: tokens.len() }
}

fn build_node(tokens: &Vec<Token>, i: usize) -> (r: Result<(Node, usize), SyntaxError>)
    requires
        i < tokens.len(),
    ensures
        node_matches(r, parse_node_at(tokens_view(tokens@), i as int)),
        r matches Ok((_, after)) ==> i < after <= tokens.len(),
    decreases tokens.len() - i, 0nat,
{
    let ghost ts = tokens_view(tokens@);
    proof {
        lemma_parse_bounds(ts, i as int);
    }
    if tokens.len() - i < 2 {
        return Err(end_of_tokens(tokens));
    }
    match &tokens[i + 1] {
        Token::ProcessedMarker => {
            if tokens.len() - i < 3 {
                return Err(end_of_tokens(tokens));
            }
            if !is_open(&tokens[i + 2]) {
                return Err(SyntaxError { kind: SyntaxErrorKind::UnexpectedToken, position: i + 2 });
            }
            match build_node(tokens, i + 2) {
                Err(e) => Err(e),
                Ok((child, after)) => {
                    if after >= tokens.len() {
                        Err(end_of_tokens(tokens))
                    } else if !is_close(&tokens[after]) {
                        Err(SyntaxError { kind: SyntaxErrorKind::UnexpectedToken, position: after })
                    } else {
                        let mut children: Vec<Node> = Vec::new();
                        children.push(child);
                        let node = Node::new(
                            true,
                            String::new(),
                            Vec::new(),
                            children,
                            NodeType::OtherType,
                        );
                        proof {
                            assert(node@.children =~= seq![child@]);
                            assert(node@.attributes =~= Seq::empty());
                        }
                        Ok((node, after + 1))
                    }
                },
            }
        },
        Token::Identifier(tag) => {
            match build_items(tokens, i + 2) {
                Err(e) => Err(e),
                Ok((attributes, children, close)) => {
                    let category = NodeType::classify(tag.as_str());
                    let node = Node::new(false, tag.clone(), attributes, children, category);
                    Ok((node, close + 1))
                },
            }
        },
        _ => Err(SyntaxError { kind: SyntaxErrorKind::UnexpectedToken, position: i + 1 }),
    }
}

fn build_items(tokens: &Vec<Token>, start: usize) -> (r: Result<
    (Vec<Attribute>, Vec<Node>, usize),
    SyntaxError,
>)
    requires
        start <= tokens.len(),
    ensures
        items_match(r, parse_items_at(tokens_view(tokens@), start as int)),
        r matches Ok((_, _, close)) ==> start <= close < tokens.len(),
    decreases tokens.len() - start, 1nat,
{
    let ghost ts = tokens_view(tokens@);
    let mut attributes: Vec<Attribute> = Vec::new();
    let mut children: Vec<Node> = Vec::new();
    let mut i: usize = start;
    proof {
        if let Ok(items) = parse_items_at(ts, start as int) {
            assert(attributes_view(attributes@) + items.attributes =~= items.attributes);
            assert(nodes_view(children@) + items.children =~= items.children);
        }
    }
    loop
        invariant
            ts == tokens_view(tokens@),
            start <= i <= tokens.len(),
            parse_items_at(ts, start as int) == prepend_items(
                attributes_view(attributes@),
                nodes_view(children@),
                parse_items_at(ts, i as int),
            ),
        decreases tokens.len() - i,
    {
        if i >= tokens.len() {
            return Err(end_of_tokens(tokens));
        }
        let ghost attributes_before = attributes_view(attributes@);
        let ghost children_before = nodes_view(children@);
        if is_close(&tokens[i]) {
            proof {
                assert(attributes_before + Seq::<SpecAttribute>::empty() =~= attributes_before);
                assert(children_before + Seq::<SpecNode>::empty() =~= children_before);
            }
            return Ok((attributes, children, i));
        }
        if is_open(&tokens[i]) {
            proof {
                lemma_parse_bounds(ts, i as int);
            }
            match build_node(tokens, i) {
                Err(e) => {
                    return Err(e);
                },
                Ok((child, after)) => {
                    proof {
                        assert(nodes_view(children@.push(child)) =~= children_before.push(child@));
                        if let Ok(items) = parse_items_at(ts, after as int) {
                            assert(attributes_before + (Seq::<SpecAttribute>::empty()
                                + items.attributes) =~= attributes_before + items.attributes);
                            assert(children_before + (seq![child@] + items.children)
                                =~= children_before.push(child@) + items.children);
                        }
                    }
                    children.push(child);
                    i = after;
                },
            }
        } else {
            match Attribute::classify(&tokens[i]) {
                None => {
                    return Err(SyntaxError { kind: SyntaxErrorKind::UnexpectedToken, position: i });
                },
                Some(attribute) => {
                    proof {
                        assert(attributes_view(attributes@.push(attribute))
                            =~= attributes_before.push(attribute@));
                        if let Ok(items) = parse_items_at(ts, i + 1) {
                            assert(attributes_before + (seq![attribute@] + items.attributes)
                                =~= attributes_before.push(attribute@) + items.attributes);
                            assert(children_before + (Seq::<SpecNode>::empty() + items.children)
                                =~= children_before + items.children);
                        }
                    }
                    attributes.push(attribute);
                    i += 1;
                },
            }
        }
    }
}

/// The tree builder. It owns the token sequence it reads.
pub struct Parser {
    tokens: Vec<Token>,
}

impl Parser {
    /// The tokens that this builder reads.
    pub closed spec fn tokens(&self) -> Seq<SpecToken> {
        tokens_view(self.tokens@)
    }

    /// A builder over `tokens`.
    pub fn new(tokens: Vec<Token>) -> (parser: Parser)
        ensures
            parser.tokens() == tokens_view(tokens@),
    {
        Parser { tokens }
    }

    /// Builds the forest that the tokens describe. On failure no part of
    /// the forest is returned. Where the tokens are well-formed, as those
    /// of the tokenizer are, so is the forest.
    pub fn create_dump_ast(&self) -> (r: Result<DumpAst, SyntaxError>)
        ensures
            forest_matches(r, spec_parse(self.tokens())),
            tokens_well_formed(self.tokens()) ==> (r matches Ok(ast) ==> forest_well_formed(ast@)),
    {
        let ghost ts = tokens_view(self.tokens@);
        proof {
            if tokens_well_formed(ts) {
                lemma_parse_well_formed(ts, 0);
            }
        }
        let mut nodes: Vec<Node> = Vec::new();
        let mut i: usize = 0;
        proof {
            if let Ok(forest) = parse_forest_at(ts, 0) {
                assert(nodes_view(nodes@) + forest =~= forest);
            }
        }
        while i < self.tokens.len()
            invariant
                ts == tokens_view(self.tokens@),
                i <= self.tokens.len(),
                parse_forest_at(ts, 0) == prepend_nodes(
                    nodes_view(nodes@),
                    parse_forest_at(ts, i as int),
                ),
            decreases self.tokens.len() - i,
        {
            let ghost before = nodes_view(nodes@);
            if is_open(&self.tokens[i]) {
                proof {
                    lemma_parse_bounds(ts, i as int);
                }
                match build_node(&self.tokens, i) {
                    Err(e) => {
                        return Err(e);
                    },
                    Ok((node, after)) => {
                        proof {
                            assert(nodes_view(nodes@.push(node)) =~= before.push(node@));
                            if let Ok(rest) = parse_forest_at(ts, after as int) {
                                assert(before + (seq![node@] + rest) =~= before.push(node@) + rest);
                            }
                        }
                        nodes.push(node);
                        i = after;
                    },
                }
            } else if is_close(&self.tokens[i]) {
                return Err(SyntaxError { kind: SyntaxErrorKind::UnmatchedClose, position: i });
            } else {
                return Err(SyntaxError { kind: SyntaxErrorKind::UnexpectedToken, position: i });
            }
        }
        proof {
            assert(nodes_view(nodes@) + Seq::<SpecNode>::empty() =~= nodes_view(nodes@));
        }
        Ok(DumpAst { nodes })
    }
}

} // verus!
