//! The token sequence that a forest is read from, and the proof that the
//! tree builder turns that sequence into exactly the forest.

use vstd::prelude::*;
use crate::error::Failure;
use crate::parser::{parse_forest_at, parse_items_at, parse_node_at, Items};
use crate::swift_dump_ast::{
    attribute_token, forest_well_formed, lemma_classification_idempotent, node_well_formed,
    plain_node, wrapper_node, SpecAttribute, SpecNode,
};
use crate::token::SpecToken;

verus! {

/// Whether `piece` stands in `text` at position `i`.
pub open spec fn has_at<A>(text: Seq<A>, i: int, piece: Seq<A>) -> bool {
    &&& 0 <= i
    &&& i + piece.len() <= text.len()
    &&& forall|k: int| 0 <= k < piece.len() ==> text[i + k] == #[trigger] piece[k]
}

/// Where two pieces stand one after the other, each of them stands.
pub proof fn lemma_has_at_split<A>(text: Seq<A>, i: int, a: Seq<A>, b: Seq<A>)
    requires
        has_at(text, i, a + b),
    ensures
        has_at(text, i, a),
        has_at(text, i + a.len(), b),
{
    let whole = a + b;
    assert forall|k: int| 0 <= k < a.len() implies text[i + k] == #[trigger] a[k] by {
        assert(whole[k] == a[k]);
    }
    assert forall|k: int| 0 <= k < b.len() implies text[i + a.len() + k] == #[trigger] b[k] by {
        assert(whole[a.len() + k] == b[k]);
    }
}

/// Where a piece stands, its first element stands.
pub proof fn lemma_has_at_first<A>(text: Seq<A>, i: int, piece: Seq<A>)
    requires
        has_at(text, i, piece),
        piece.len() > 0,
    ensures
        i < text.len(),
        text[i] == piece[0],
{
    assert(text[i + 0] == piece[0]);
}

/// The token that stands right after the opening parenthesis of a node.
pub open spec fn head_token(node: SpecNode) -> SpecToken {
    if node.is_original {
        SpecToken::ProcessedMarker
    } else {
        SpecToken::Identifier(node.tag)
    }
}

/// The tokens of what follows the head of a node: the attributes from
/// position `ka` on, then the children from position `kc` on, then the
/// closing parenthesis.
pub open spec fn items_tokens(
    attributes: Seq<SpecAttribute>,
    ka: int,
    children: Seq<SpecNode>,
    kc: int,
) -> Seq<SpecToken>
    decreases children, remaining(attributes, ka) + remaining(children, kc),
{
    if 0 <= ka < attributes.len() {
        seq![attribute_token(attributes[ka])] + items_tokens(attributes, ka + 1, children, kc)
    } else if 0 <= kc < children.len() {
        node_tokens(children[kc]) + items_tokens(attributes, ka, children, kc + 1)
    } else {
        seq![SpecToken::Close]
    }
}

/// How many elements of `s` stand at or after position `i`.
pub open spec fn remaining<A>(s: Seq<A>, i: int) -> nat {
    if 0 <= i < s.len() {
        (s.len() - i) as nat
    } else {
        0
    }
}

/// The tokens that a node is read from.
pub open spec fn node_tokens(node: SpecNode) -> Seq<SpecToken>
    decreases node, 0nat,
{
    seq![SpecToken::Open, head_token(node)] + items_tokens(node.attributes, 0, node.children, 0)
}

/// The tokens that the nodes from position `i` on are read from.
pub open spec fn forest_tokens(forest: Seq<SpecNode>, i: int) -> Seq<SpecToken>
    decreases forest.len() - i,
{
    if i < 0 || i >= forest.len() {
        Seq::empty()
    } else {
        node_tokens(forest[i]) + forest_tokens(forest, i + 1)
    }
}

proof fn lemma_parse_items_tokens(
    tokens: Seq<SpecToken>,
    j: int,
    attributes: Seq<SpecAttribute>,
    ka: int,
    children: Seq<SpecNode>,
    kc: int,
)
    requires
        0 <= ka <= attributes.len(),
        0 <= kc <= children.len(),
        kc > 0 ==> ka == attributes.len(),
        forall|i: int| 0 <= i < children.len() ==> node_well_formed(#[trigger] children[i]),
        has_at(tokens, j, items_tokens(attributes, ka, children, kc)),
    ensures
        parse_items_at(tokens, j) == Ok::<Items, Failure>(
            Items {
                attributes: attributes.subrange(ka, attributes.len() as int),
                children: children.subrange(kc, children.len() as int),
                close: j + items_tokens(attributes, ka, children, kc).len() - 1,
            },
        ),
    decreases children, remaining(attributes, ka) + remaining(children, kc),
{
    let piece = items_tokens(attributes, ka, children, kc);
    if ka < attributes.len() {
        let token = attribute_token(attributes[ka]);
        let rest = items_tokens(attributes, ka + 1, children, kc);
        lemma_has_at_split(tokens, j, seq![token], rest);
        lemma_has_at_first(tokens, j, seq![token]);
        lemma_parse_items_tokens(tokens, j + 1, attributes, ka + 1, children, kc);
        lemma_classification_idempotent(attributes[ka]);
        assert(seq![attributes[ka]] + attributes.subrange(ka + 1, attributes.len() as int)
            =~= attributes.subrange(ka, attributes.len() as int));
        assert(Seq::<SpecNode>::empty() + children.subrange(kc, children.len() as int)
            =~= children.subrange(kc, children.len() as int));
    } else if kc < children.len() {
        let child = children[kc];
        let rest = items_tokens(attributes, ka, children, kc + 1);
        lemma_has_at_split(tokens, j, node_tokens(child), rest);
        lemma_has_at_first(tokens, j, node_tokens(child));
        lemma_parse_node_tokens(tokens, j, child);
        let after = j + node_tokens(child).len();
        lemma_parse_items_tokens(tokens, after, attributes, ka, children, kc + 1);
        assert(seq![child] + children.subrange(kc + 1, children.len() as int)
            =~= children.subrange(kc, children.len() as int));
        assert(Seq::<SpecAttribute>::empty() + attributes.subrange(ka, attributes.len() as int)
            =~= attributes.subrange(ka, attributes.len() as int));
    } else {
        lemma_has_at_first(tokens, j, piece);
        assert(attributes.subrange(ka, attributes.len() as int) =~= Seq::<SpecAttribute>::empty());
        assert(children.subrange(kc, children.len() as int) =~= Seq::<SpecNode>::empty());
    }
}

/// The tree builder reads the tokens of a well-formed node back into that
/// node, wherever in a token sequence they stand.
pub proof fn lemma_parse_node_tokens(tokens: Seq<SpecToken>, i: int, node: SpecNode)
    requires
        node_well_formed(node),
        has_at(tokens, i, node_tokens(node)),
    ensures
        parse_node_at(tokens, i) == Ok::<(SpecNode, int), Failure>(
            (node, i + node_tokens(node).len()),
        ),
        node_tokens(node).len() >= 3,
        node_tokens(node)[0] == SpecToken::Open,
    decreases node, 0nat,
{
    let items = items_tokens(node.attributes, 0, node.children, 0);
    let front = seq![SpecToken::Open, head_token(node)];
    lemma_has_at_split(tokens, i, front, items);
    assert(tokens[i + 1] == front[1]);
    assert(tokens[i + 0] == front[0]);
    lemma_items_tokens_nonempty(node.attributes, 0, node.children, 0);
    if node.is_original {
        let child = node.children[0];
        let rest = items_tokens(node.attributes, 0, node.children, 1);
        assert(items == node_tokens(child) + rest);
        assert(rest == seq![SpecToken::Close]);
        lemma_has_at_split(tokens, i + 2, node_tokens(child), rest);
        lemma_parse_node_tokens(tokens, i + 2, child);
        lemma_has_at_first(tokens, i + 2, node_tokens(child));
        lemma_has_at_first(tokens, i + 2 + node_tokens(child).len(), rest);
        assert(node.children =~= seq![child]);
        assert(node.tag =~= Seq::<char>::empty());
        assert(node.attributes =~= Seq::<SpecAttribute>::empty());
        assert(node == wrapper_node(child));
    } else {
        lemma_parse_items_tokens(tokens, i + 2, node.attributes, 0, node.children, 0);
        assert(node.attributes.subrange(0, node.attributes.len() as int) =~= node.attributes);
        assert(node.children.subrange(0, node.children.len() as int) =~= node.children);
        assert(node == plain_node(node.tag, node.attributes, node.children));
    }
}

proof fn lemma_items_tokens_nonempty(
    attributes: Seq<SpecAttribute>,
    ka: int,
    children: Seq<SpecNode>,
    kc: int,
)
    ensures
        items_tokens(attributes, ka, children, kc).len() >= 1,
{
    if 0 <= ka < attributes.len() {
    } else if 0 <= kc < children.len() {
        let child = children[kc];
        assert(node_tokens(child).len() >= 2);
    } else {
    }
}

/// The tree builder reads the tokens of a well-formed forest back into
/// that forest.
pub proof fn lemma_parse_forest_tokens(
    tokens: Seq<SpecToken>,
    j: int,
    forest: Seq<SpecNode>,
    k: int,
)
    requires
        0 <= k <= forest.len(),
        forest_well_formed(forest),
        has_at(tokens, j, forest_tokens(forest, k)),
        j + forest_tokens(forest, k).len() == tokens.len(),
    ensures
        parse_forest_at(tokens, j) == Ok::<Seq<SpecNode>, Failure>(
            forest.subrange(k, forest.len() as int),
        ),
    decreases forest.len() - k,
{
    if k < forest.len() {
        let node = forest[k];
        let rest = forest_tokens(forest, k + 1);
        lemma_has_at_split(tokens, j, node_tokens(node), rest);
        lemma_parse_node_tokens(tokens, j, node);
        lemma_has_at_first(tokens, j, node_tokens(node));
        lemma_parse_forest_tokens(tokens, j + node_tokens(node).len(), forest, k + 1);
        assert(seq![node] + forest.subrange(k + 1, forest.len() as int) =~= forest.subrange(
            k,
            forest.len() as int,
        ));
    } else {
        assert(forest.subrange(k, forest.len() as int) =~= Seq::<SpecNode>::empty());
    }
}

} // verus!
