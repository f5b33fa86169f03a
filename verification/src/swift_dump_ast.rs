//! The in-memory tree of a dump: nodes, their attributes, and the forest
//! that holds the top-level nodes.

use vstd::prelude::*;
use crate::node_type::{spec_classify, NodeType};
use crate::text::{is_word, spec_is_word};
use crate::token::{SpecToken, Token};

verus! {

/// One attribute of a node.
#[derive(Clone, Debug, PartialEq, Eq)]
pub enum Attribute {
    /// A quoted string that stands alone.
    Literal(String),
    /// A `key=value` pair; the key is a bare word, the value any text.
    Property { key: String, value: String },
    /// A bare word that stands alone.
    Flag(String),
}

/// The mathematical counterpart of [`Attribute`].
pub enum SpecAttribute {
    Literal(Seq<char>),
    Property { key: Seq<char>, value: Seq<char> },
    Flag(Seq<char>),
}

impl View for Attribute {
    type V = SpecAttribute;

    open spec fn view(&self) -> SpecAttribute {
        match self {
            Attribute::Literal(s) => SpecAttribute::Literal(s@),
            Attribute::Property { key, value } => SpecAttribute::Property {
                key: key@,
                value: value@,
            },
            Attribute::Flag(s) => SpecAttribute::Flag(s@),
        }
    }
}

/// The views of a run of attributes, in order.
pub open spec fn attributes_view(attributes: Seq<Attribute>) -> Seq<SpecAttribute> {
    attributes.map_values(|a: Attribute| a@)
}

/// One node of the dump.
///
/// An ordinary node has a tag, attributes and children. A wrapper node, the
/// one written `(Original init: (..))`, has `is_original` set, an empty tag,
/// no attributes, and the wrapped node as its only child.
#[derive(Debug, PartialEq, Eq)]
pub struct Node {
    pub is_original: bool,
    pub tag: String,
    pub attributes: Vec<Attribute>,
    pub children: Vec<Node>,
    pub category: NodeType,
}

/// The mathematical counterpart of [`Node`].
pub struct SpecNode {
    pub is_original: bool,
    pub tag: Seq<char>,
    pub attributes: Seq<SpecAttribute>,
    pub children: Seq<SpecNode>,
    pub category: NodeType,
}

/// The view of a node: the same tree with every string replaced by its
/// characters and every vector by a sequence.
pub open spec fn node_view(node: Node) -> SpecNode
    decreases node,
{
    SpecNode {
        is_original: node.is_original,
        tag: node.tag@,
        attributes: attributes_view(node.attributes@),
        children: Seq::new(
            node.children@.len(),
            |i: int|
                if 0 <= i < node.children@.len() {
                    node_view(node.children@[i])
                } else {
                    arbitrary()
                },
        ),
        category: node.category,
    }
}

/// The views of a run of nodes, in order.
pub open spec fn nodes_view(nodes: Seq<Node>) -> Seq<SpecNode> {
    nodes.map_values(|n: Node| node_view(n))
}

impl View for Node {
    type V = SpecNode;

    open spec fn view(&self) -> SpecNode {
        node_view(*self)
    }
}

/// The view of a node holds the views of its parts.
pub proof fn lemma_node_view(node: Node)
    ensures
        node@.is_original == node.is_original,
        node@.tag == node.tag@,
        node@.attributes == attributes_view(node.attributes@),
        node@.children == nodes_view(node.children@),
        node@.category == node.category,
{
    assert(node@.children =~= nodes_view(node.children@));
}

/// A whole dump: its top-level nodes in source order.
#[derive(Debug, PartialEq, Eq)]
pub struct DumpAst {
    pub nodes: Vec<Node>,
}

impl View for DumpAst {
    type V = Seq<SpecNode>;

    open spec fn view(&self) -> Seq<SpecNode> {
        nodes_view(self.nodes@)
    }
}

/// The attribute that a token stands for, if it stands for one: a quoted
/// string is a literal, a `key=value` fragment a property, a bare word a flag.
pub open spec fn classify_token(token: SpecToken) -> Option<SpecAttribute> {
    match token {
        SpecToken::QuotedString(text) => Some(SpecAttribute::Literal(text)),
        SpecToken::KeyValueFragment(key, value) => Some(SpecAttribute::Property { key, value }),
        SpecToken::Identifier(name) => Some(SpecAttribute::Flag(name)),
        _ => None,
    }
}

/// The token that an attribute is read from.
pub open spec fn attribute_token(attribute: SpecAttribute) -> SpecToken {
    match attribute {
        SpecAttribute::Literal(text) => SpecToken::QuotedString(text),
        SpecAttribute::Property { key, value } => SpecToken::KeyValueFragment(key, value),
        SpecAttribute::Flag(name) => SpecToken::Identifier(name),
    }
}

/// Whether two attributes are of the same variant.
pub open spec fn same_variant(a: SpecAttribute, b: SpecAttribute) -> bool {
    match (a, b) {
        (SpecAttribute::Literal(_), SpecAttribute::Literal(_)) => true,
        (SpecAttribute::Property { .. }, SpecAttribute::Property { .. }) => true,
        (SpecAttribute::Flag(_), SpecAttribute::Flag(_)) => true,
        _ => false,
    }
}

/// Classifying the token of an attribute gives the attribute back: its
/// variant and its texts are what they were.
pub proof fn lemma_classification_idempotent(attribute: SpecAttribute)
    ensures
        classify_token(attribute_token(attribute)) == Some(attribute),
        same_variant(classify_token(attribute_token(attribute))->0, attribute),
{
}

/// The node that wraps `child` in the `Original init:` form.
pub open spec fn wrapper_node(child: SpecNode) -> SpecNode {
    SpecNode {
        is_original: true,
        tag: Seq::empty(),
        attributes: Seq::empty(),
        children: seq![child],
        category: NodeType::OtherType,
    }
}

/// The ordinary node with the given tag, attributes and children; its
/// category is the one its tag has.
pub open spec fn plain_node(
    tag: Seq<char>,
    attributes: Seq<SpecAttribute>,
    children: Seq<SpecNode>,
) -> SpecNode {
    SpecNode { is_original: false, tag, attributes, children, category: spec_classify(tag) }
}

/// What the tree builder may rely on in an attribute that came from the
/// tokenizer: keys and flags are bare words.
pub open spec fn attribute_well_formed(attribute: SpecAttribute) -> bool {
    match attribute {
        SpecAttribute::Literal(_) => true,
        SpecAttribute::Property { key, .. } => spec_is_word(key),
        SpecAttribute::Flag(name) => spec_is_word(name),
    }
}

/// The shape that every node built from the tokens of a text has.
///
/// A wrapper has no tag and no attributes, exactly one child, and the
/// fallback category. An ordinary node has a bare word as its tag, the
/// category of that tag, and well-formed attributes. In both cases the
/// children are well-formed too.
pub open spec fn node_well_formed(node: SpecNode) -> bool
    decreases node,
{
    &&& forall|i: int|
        0 <= i < node.children.len() ==> node_well_formed(#[trigger] node.children[i])
    &&& if node.is_original {
        &&& node.tag.len() == 0
        &&& node.attributes.len() == 0
        &&& node.children.len() == 1
        &&& node.category == NodeType::OtherType
    } else {
        &&& spec_is_word(node.tag)
        &&& node.category == spec_classify(node.tag)
        &&& forall|i: int|
            0 <= i < node.attributes.len() ==> attribute_well_formed(#[trigger] node.attributes[i])
    }
}

/// Whether every node of a forest is well-formed.
pub open spec fn forest_well_formed(forest: Seq<SpecNode>) -> bool {
    forall|i: int| 0 <= i < forest.len() ==> node_well_formed(#[trigger] forest[i])
}

impl Attribute {
    /// The attribute that `token` stands for; `None` for a parenthesis or
    /// the marker, which stand for none.
    pub fn classify(token: &Token) -> (r: Option<Attribute>)
        ensures
            match (r, classify_token(token@)) {
                (Some(attribute), Some(spec_attribute)) => attribute@ == spec_attribute,
                (None, None) => true,
                _ => false,
            },
    {
        match token {
            Token::QuotedString(text) => Some(Attribute::Literal(text.clone())),
            Token::KeyValueFragment(key, value) => Some(
                Attribute::Property { key: key.clone(), value: value.clone() },
            ),
            Token::Identifier(name) => Some(Attribute::Flag(name.clone())),
            _ => None,
        }
    }

    /// The token that this attribute is read from.
    pub fn token(&self) -> (t: Token)
        ensures
            t@ == attribute_token(self@),
    {
        match self {
            Attribute::Literal(text) => Token::QuotedString(text.clone()),
            Attribute::Property { key, value } => Token::KeyValueFragment(
                key.clone(),
                value.clone(),
            ),
            Attribute::Flag(name) => Token::Identifier(name.clone()),
        }
    }

    /// Classifies this attribute again, through its token. The result is the
    /// attribute itself.
    pub fn reclassify(&self) -> (r: Attribute)
        ensures
            r@ == self@,
    {
        let token = self.token();
        proof {
            lemma_classification_idempotent(self@);
        }
        Attribute::classify(&token).unwrap()
    }

    /// Whether this attribute has the shape that the tokenizer gives it.
    pub fn is_well_formed(&self) -> (r: bool)
        ensures
            r == attribute_well_formed(self@),
    {
        match self {
            Attribute::Literal(_) => true,
            Attribute::Property { key, .. } => is_word(key.as_str()),
            Attribute::Flag(name) => is_word(name.as_str()),
        }
    }
}

fn attributes_are_well_formed(attributes: &Vec<Attribute>) -> (r: bool)
    ensures
        r == (forall|i: int|
            0 <= i < attributes.len() ==> attribute_well_formed(
                #[trigger] attributes_view(attributes@)[i],
            )),
{
    let ghost spec_attributes = attributes_view(attributes@);
    let mut i: usize = 0;
    while i < attributes.len()
        invariant
            i <= attributes.len(),
            spec_attributes == attributes_view(attributes@),
            forall|j: int| 0 <= j < i ==> attribute_well_formed(#[trigger] spec_attributes[j]),
        decreases attributes.len() - i,
    {
        if !attributes[i].is_well_formed() {
            assert(!attribute_well_formed(spec_attributes[i as int]));
            return false;
        }
        i += 1;
    }
    true
}

fn nodes_are_well_formed(nodes: &Vec<Node>) -> (r: bool)
    ensures
        r == forest_well_formed(nodes_view(nodes@)),
    decreases nodes, 1nat,
{
    let ghost forest = nodes_view(nodes@);
    let mut i: usize = 0;
    while i < nodes.len()
        invariant
            i <= nodes.len(),
            forest == nodes_view(nodes@),
            forall|j: int| 0 <= j < i ==> node_well_formed(#[trigger] forest[j]),
        decreases nodes.len() - i,
    {
        if !nodes[i].is_well_formed() {
            assert(!node_well_formed(forest[i as int]));
            return false;
        }
        i += 1;
    }
    true
}

impl Node {
    /// A node with the given parts.
    pub fn new(
        is_original: bool,
        tag: String,
        attributes: Vec<Attribute>,
        children: Vec<Node>,
        category: NodeType,
    ) -> (node: Node)
        ensures
            node@ == (SpecNode {
                is_original,
                tag: tag@,
                attributes: attributes_view(attributes@),
                children: nodes_view(children@),
                category,
            }),
    {
        let node = Node { is_original, tag, attributes, children, category };
        proof {
            lemma_node_view(node);
        }
        node
    }

    /// Whether this node and everything below it has the shape that
    /// reading a text gives it.
    pub fn is_well_formed(&self) -> (r: bool)
        ensures
            r == node_well_formed(self@),
        decreases self, 0nat,
    {
        proof {
            lemma_node_view(*self);
        }
        if !nodes_are_well_formed(&self.children) {
            return false;
        }
        if self.is_original {
            self.tag.as_str().is_empty() && self.attributes.len() == 0 && self.children.len() == 1
                && self.category == NodeType::OtherType
        } else {
            is_word(self.tag.as_str()) && self.category == NodeType::classify(self.tag.as_str())
                && attributes_are_well_formed(&self.attributes)
        }
    }
}

impl DumpAst {
    /// Whether every node of this forest has the shape that reading a text
    /// gives it. Such a forest is given back by reading its printed text.
    pub fn is_well_formed(&self) -> (r: bool)
        ensures
            r == forest_well_formed(self@),
    {
        nodes_are_well_formed(&self.nodes)
    }
}

} // verus!
