//! Functions to create the dump tree from the parse tree of a grammar
//! engine, and to lay that parse tree out as an indented outline.
//!
//! A grammar engine reports what it matched as a tree of pairs: each pair
//! names the grammar rule that matched, holds the matched text, and holds
//! the pairs of the rules that matched inside it. The grammar is
//!
//! ```text
//! ast        := node*
//! node       := "(" processed node ")"
//!             | "(" attribute (attribute | node)* ")"     first attribute: an identifier
//! processed  := "Original init:"
//! attribute  := string | property | identifier
//! property   := identifier "=" (string | identifier)
//! string     := a double-quoted string, backslash escapes the next character
//! identifier := one or more word characters
//! ```

use vstd::prelude::*;
use vstd::string::StringExecFns;
use crate::lexer::{scan_quoted, scan_string, spec_marker};
use crate::node_type::NodeType;
use crate::swift_dump_ast::{
    attributes_view, nodes_view, plain_node, Attribute, DumpAst, Node, SpecAttribute, SpecNode,
};
use crate::text::{chars_of, is_word, same_text, spec_is_word};

verus! {

/// The rules of the grammar.
#[allow(non_camel_case_types)]
#[derive(Clone, Copy, Debug, PartialEq, Eq, Structural)]
pub enum Rule {
    ast,
    node,
    processed,
    attribute,
    string,
    property,
    identifier,
}

/// One match of a rule: the rule, the matched text, and the matches inside.
#[derive(Debug, PartialEq, Eq)]
pub struct Pair {
    pub rule: Rule,
    pub text: String,
    pub inner: Vec<Pair>,
}

/// The mathematical counterpart of [`Pair`].
pub struct SpecPair {
    pub rule: Rule,
    pub text: Seq<char>,
    pub inner: Seq<SpecPair>,
}

/// The view of a pair.
pub open spec fn pair_view(pair: Pair) -> SpecPair
    decreases pair,
{
    SpecPair {
        rule: pair.rule,
        text: pair.text@,
        inner: Seq::new(
            pair.inner@.len(),
            |i: int|
                if 0 <= i < pair.inner@.len() {
                    pair_view(pair.inner@[i])
                } else {
                    arbitrary()
                },
        ),
    }
}

/// The views of a run of pairs, in order.
pub open spec fn pairs_view(pairs: Seq<Pair>) -> Seq<SpecPair> {
    pairs.map_values(|p: Pair| pair_view(p))
}

impl View for Pair {
    type V = SpecPair;

    open spec fn view(&self) -> SpecPair {
        pair_view(*self)
    }
}

/// The view of a pair holds the views of its parts.
pub proof fn lemma_pair_view(pair: Pair)
    ensures
        pair@.rule == pair.rule,
        pair@.text == pair.text@,
        pair@.inner == pairs_view(pair.inner@),
{
    assert(pair@.inner =~= pairs_view(pair.inner@));
}

impl Pair {
    /// A pair with the given parts.
    pub fn new(rule: Rule, text: String, inner: Vec<Pair>) -> (pair: Pair)
        ensures
            pair@ == (SpecPair { rule, text: text@, inner: pairs_view(inner@) }),
    {
        let pair = Pair { rule, text, inner };
        proof {
            lemma_pair_view(pair);
        }
        pair
    }
}

/// Whether `text` is one complete quoted string: an opening quote, the
/// content, and the closing quote as its last character.
pub open spec fn is_quoted_text(text: Seq<char>) -> bool {
    &&& text.len() >= 2
    &&& text[0] == '"'
    &&& scan_string(text, 0, 1) matches Ok((_, end))
    &&& end == text.len()
}

/// The content of a quoted string: the quotes removed, the escapes
/// resolved. What stands in front of the opening quote is not looked at;
/// where no closing quote follows, the content is empty.
pub open spec fn unquoted(text: Seq<char>) -> Seq<char> {
    match scan_string(text, 0, 1) {
        Ok((content, _)) => content,
        Err(_) => Seq::empty(),
    }
}

/// Whether a pair may stand as the value of a property.
pub open spec fn is_value_pair(pair: SpecPair) -> bool {
    pair.rule == Rule::string || pair.rule == Rule::identifier
}

/// Whether a pair may stand inside an attribute.
pub open spec fn is_attribute_kind(pair: SpecPair) -> bool {
    pair.rule == Rule::string || pair.rule == Rule::property || pair.rule == Rule::identifier
}

/// Whether a pair may stand after the tag of a node.
pub open spec fn is_item_pair(pair: SpecPair) -> bool {
    pair.rule == Rule::attribute || pair.rule == Rule::node
}

/// Whether a pair is an attribute that holds an identifier.
pub open spec fn is_tag_pair(pair: SpecPair) -> bool {
    pair.rule == Rule::attribute && pair.inner.len() == 1 && pair.inner[0].rule
        == Rule::identifier
}

/// Whether the inner pairs of a node have one of the two shapes that the
/// grammar gives a node.
pub open spec fn node_shape(inner: Seq<SpecPair>) -> bool {
    ||| inner.len() == 2 && inner[0].rule == Rule::processed && inner[1].rule == Rule::node
    ||| inner.len() >= 1 && is_tag_pair(inner[0]) && forall|i: int|
        1 <= i < inner.len() ==> is_item_pair(#[trigger] inner[i])
}

/// Whether a parse tree has the shape that the grammar gives it.
pub open spec fn pair_well_formed(pair: SpecPair) -> bool
    decreases pair,
{
    &&& forall|i: int| 0 <= i < pair.inner.len() ==> pair_well_formed(#[trigger] pair.inner[i])
    &&& match pair.rule {
        Rule::ast => forall|i: int|
            0 <= i < pair.inner.len() ==> (#[trigger] pair.inner[i]).rule == Rule::node,
        Rule::node => node_shape(pair.inner),
        Rule::processed => pair.inner.len() == 0 && pair.text == spec_marker(),
        Rule::attribute => pair.inner.len() == 1 && is_attribute_kind(pair.inner[0]),
        Rule::string => pair.inner.len() == 0 && is_quoted_text(pair.text),
        Rule::property => pair.inner.len() == 2 && pair.inner[0].rule == Rule::identifier
            && is_value_pair(pair.inner[1]),
        Rule::identifier => pair.inner.len() == 0 && spec_is_word(pair.text),
    }
}

/// The text that a value pair stands for.
pub open spec fn value_text(pair: SpecPair) -> Seq<char> {
    if pair.rule == Rule::string {
        unquoted(pair.text)
    } else {
        pair.text
    }
}

/// The property that a `property` pair stands for: its first inner pair is
/// the key, its second the value.
pub open spec fn spec_create_property(pair: SpecPair) -> SpecAttribute {
    SpecAttribute::Property { key: pair.inner[0].text, value: value_text(pair.inner[1]) }
}

/// The attribute that an `attribute` pair stands for.
pub open spec fn spec_create_attribute(pair: SpecPair) -> SpecAttribute {
    let kind = pair.inner[0];
    match kind.rule {
        Rule::string => SpecAttribute::Literal(unquoted(kind.text)),
        Rule::property => spec_create_property(kind),
        _ => SpecAttribute::Flag(kind.text),
    }
}

/// The attributes among the pairs from position `i` on, in order.
pub open spec fn attributes_among(pairs: Seq<SpecPair>, i: int) -> Seq<SpecAttribute>
    decreases pairs.len() - i,
{
    if i < 0 || i >= pairs.len() {
        Seq::empty()
    } else if pairs[i].rule == Rule::attribute {
        seq![spec_create_attribute(pairs[i])] + attributes_among(pairs, i + 1)
    } else {
        attributes_among(pairs, i + 1)
    }
}

/// The node that a `node` pair stands for.
pub open spec fn spec_create_node(pair: SpecPair) -> SpecNode
    decreases pair, 0nat,
{
    if pair.inner.len() >= 1 && pair.inner[0].rule == Rule::processed {
        SpecNode {
            is_original: true,
            tag: Seq::empty(),
            attributes: Seq::empty(),
            children: nodes_among(pair.inner, 1),
            category: NodeType::OtherType,
        }
    } else if pair.inner.len() >= 1 && pair.inner[0].inner.len() >= 1 {
        plain_node(
            pair.inner[0].inner[0].text,
            attributes_among(pair.inner, 1),
            nodes_among(pair.inner, 1),
        )
    } else {
        plain_node(Seq::empty(), Seq::empty(), Seq::empty())
    }
}

/// The nodes among the pairs from position `i` on, in order.
pub open spec fn nodes_among(pairs: Seq<SpecPair>, i: int) -> Seq<SpecNode>
    decreases pairs, pairs.len() - i,
{
    if i < 0 || i >= pairs.len() {
        Seq::empty()
    } else if pairs[i].rule == Rule::node {
        seq![spec_create_node(pairs[i])] + nodes_among(pairs, i + 1)
    } else {
        nodes_among(pairs, i + 1)
    }
}

/// The forest that an `ast` pair stands for.
pub open spec fn spec_create_ast(pair: SpecPair) -> Seq<SpecNode> {
    nodes_among(pair.inner, 0)
}

fn is_quoted(text: &str) -> (r: bool)
    ensures
        r == is_quoted_text(text@),
{
    let chars = chars_of(text);
    if chars.len() < 2 || chars[0] != '"' {
        return false;
    }
    match scan_quoted(&chars, 0, 1) {
        Ok((_, end)) => end == chars.len(),
        Err(_) => false,
    }
}

/// The content of the quoted string `text`; the empty text if `text` does
/// not start with a complete quoted string.
pub fn unquote(text: &str) -> (content: String)
    ensures
        content@ == unquoted(text@),
{
    let chars = chars_of(text);
    if chars.len() == 0 {
        return String::new();
    }
    match scan_quoted(&chars, 0, 1) {
        Ok((content, _)) => content,
        Err(_) => String::new(),
    }
}

fn is_marker(text: &str) -> (r: bool)
    ensures
        r == (text@ == spec_marker()),
{
    proof {
        reveal_strlit("Original init:");
        assert("Original init:"@ =~= spec_marker());
    }
    same_text(text, "Original init:")
}

fn rule_is(pair: &Pair, rule: Rule) -> (r: bool)
    ensures
        r == (pair@.rule == rule),
{
    pair.rule == rule
}

fn has_node_shape(inner: &Vec<Pair>) -> (r: bool)
    ensures
        r == node_shape(pairs_view(inner@)),
{
    let ghost pairs = pairs_view(inner@);
    if inner.len() == 0 {
        return false;
    }
    proof {
        lemma_pair_view(inner@[0]);
    }
    if rule_is(&inner[0], Rule::processed) {
        return inner.len() == 2 && rule_is(&inner[1], Rule::node);
    }
    let tag = &inner[0];
    if !(rule_is(tag, Rule::attribute) && tag.inner.len() == 1 && rule_is(
        &tag.inner[0],
        Rule::identifier,
    )) {
        return false;
    }
    let mut i: usize = 1;
    while i < inner.len()
        invariant
            1 <= i <= inner.len(),
            pairs == pairs_view(inner@),
            forall|j: int| 1 <= j < i ==> is_item_pair(#[trigger] pairs[j]),
        decreases inner.len() - i,
    {
        if !(rule_is(&inner[i], Rule::attribute) || rule_is(&inner[i], Rule::node)) {
            assert(!is_item_pair(pairs[i as int]));
            return false;
        }
        i += 1;
    }
    true
}

fn all_nodes(inner: &Vec<Pair>) -> (r: bool)
    ensures
        r == (forall|i: int|
            0 <= i < inner.len() ==> (#[trigger] pairs_view(inner@)[i]).rule == Rule::node),
{
    let ghost pairs = pairs_view(inner@);
    let mut i: usize = 0;
    while i < inner.len()
        invariant
            i <= inner.len(),
            pairs == pairs_view(inner@),
            forall|j: int| 0 <= j < i ==> (#[trigger] pairs[j]).rule == Rule::node,
        decreases inner.len() - i,
    {
        if !rule_is(&inner[i], Rule::node) {
            assert(pairs[i as int].rule != Rule::node);
            return false;
        }
        i += 1;
    }
    true
}

impl Pair {
    /// Whether this parse tree has the shape that the grammar gives it.
    pub fn is_well_formed(&self) -> (r: bool)
        ensures
            r == pair_well_formed(self@),
        decreases self,
    {
        proof {
            lemma_pair_view(*self);
        }
        let ghost pairs = pairs_view(self.inner@);
        let mut i: usize = 0;
        while i < self.inner.len()
            invariant
                i <= self.inner.len(),
                pairs == pairs_view(self.inner@),
                self@.inner == pairs,
                forall|j: int| 0 <= j < i ==> pair_well_formed(#[trigger] pairs[j]),
            decreases self.inner.len() - i,
        {
            if !self.inner[i].is_well_formed() {
                assert(!pair_well_formed(pairs[i as int]));
                return false;
            }
            i += 1;
        }
        match self.rule {
            Rule::ast => all_nodes(&self.inner),
            Rule::node => has_node_shape(&self.inner),
            Rule::processed => self.inner.len() == 0 && is_marker(self.text.as_str()),
            Rule::attribute => self.inner.len() == 1 && (rule_is(&self.inner[0], Rule::string)
                || rule_is(&self.inner[0], Rule::property) || rule_is(
                &self.inner[0],
                Rule::identifier,
            )),
            Rule::string => self.inner.len() == 0 && is_quoted(self.text.as_str()),
            Rule::property => self.inner.len() == 2 && rule_is(&self.inner[0], Rule::identifier)
                && (rule_is(&self.inner[1], Rule::string) || rule_is(
                &self.inner[1],
                Rule::identifier,
            )),
            Rule::identifier => self.inner.len() == 0 && is_word(self.text.as_str()),
        }
    }
}

/// The forest that the parse tree of a whole dump stands for.
pub fn create_ast(pair: &Pair) -> (ast: DumpAst)
    requires
        pair@.rule == Rule::ast,
        pair_well_formed(pair@),
    ensures
        ast@ == spec_create_ast(pair@),
{
    proof {
        lemma_pair_view(*pair);
    }
    DumpAst { nodes: create_nodes(&pair.inner, 0) }
}

fn create_nodes(pairs: &Vec<Pair>, start: usize) -> (nodes: Vec<Node>)
    requires
        start <= pairs.len(),
        forall|i: int|
            start <= i < pairs.len() ==> pair_well_formed(#[trigger] pairs_view(pairs@)[i]),
    ensures
        nodes_view(nodes@) == nodes_among(pairs_view(pairs@), start as int),
    decreases pairs, 1nat,
{
    let ghost spec_pairs = pairs_view(pairs@);
    let mut nodes: Vec<Node> = Vec::new();
    let mut i: usize = start;
    proof {
        assert(nodes_view(nodes@) + nodes_among(spec_pairs, start as int) =~= nodes_among(
            spec_pairs,
            start as int,
        ));
    }
    while i < pairs.len()
        invariant
            start <= i <= pairs.len(),
            spec_pairs == pairs_view(pairs@),
            forall|j: int| start <= j < pairs.len() ==> pair_well_formed(#[trigger] spec_pairs[j]),
            nodes_view(nodes@) + nodes_among(spec_pairs, i as int) == nodes_among(
                spec_pairs,
                start as int,
            ),
        decreases pairs.len() - i,
    {
        if rule_is(&pairs[i], Rule::node) {
            let ghost before = nodes_view(nodes@);
            let node = create_node(&pairs[i]);
            proof {
                let rest = nodes_among(spec_pairs, i + 1);
                assert(nodes_view(nodes@.push(node)) =~= before.push(node@));
                assert(before.push(node@) + rest =~= before + (seq![node@] + rest));
            }
            nodes.push(node);
        }
        i += 1;
    }
    proof {
        assert(nodes_view(nodes@) + Seq::<SpecNode>::empty() =~= nodes_view(nodes@));
    }
    nodes
}

/// The node that a `node` pair stands for: a wrapper if the pair starts
/// with the marker phrase, otherwise the node whose tag is the first
/// attribute and whose attributes and children are the pairs that follow.
pub fn create_node(pair: &Pair) -> (node: Node)
    requires
        pair@.rule == Rule::node,
        pair_well_formed(pair@),
    ensures
        node@ == spec_create_node(pair@),
    decreases pair, 0nat,
{
    proof {
        lemma_pair_view(*pair);
        lemma_pair_view(pair.inner@[0]);
    }
    let ghost spec_pairs = pairs_view(pair.inner@);
    assert(pair_well_formed(spec_pairs[0]));
    if rule_is(&pair.inner[0], Rule::processed) {
        let children = create_nodes(&pair.inner, 1);
        let attributes: Vec<Attribute> = Vec::new();
        proof {
            assert(attributes_view(attributes@) =~= Seq::<SpecAttribute>::empty());
        }
        Node::new(true, String::new(), attributes, children, NodeType::OtherType)
    } else {
        let head = &pair.inner[0];
        proof {
            lemma_pair_view(head.inner@[0]);
        }
        let tag = &head.inner[0].text;
        let mut attributes: Vec<Attribute> = Vec::new();
        let mut i: usize = 1;
        proof {
            assert(attributes_view(attributes@) + attributes_among(spec_pairs, 1)
                =~= attributes_among(spec_pairs, 1));
        }
        while i < pair.inner.len()
            invariant
                1 <= i <= pair.inner.len(),
                spec_pairs == pairs_view(pair.inner@),
                forall|j: int|
                    0 <= j < pair.inner.len() ==> pair_well_formed(#[trigger] spec_pairs[j]),
                attributes_view(attributes@) + attributes_among(spec_pairs, i as int)
                    == attributes_among(spec_pairs, 1),
            decreases pair.inner.len() - i,
        {
            if rule_is(&pair.inner[i], Rule::attribute) {
                let ghost before = attributes_view(attributes@);
                let attribute = create_attribute(&pair.inner[i]);
                proof {
                    let rest = attributes_among(spec_pairs, i + 1);
                    assert(attributes_view(attributes@.push(attribute)) =~= before.push(
                        attribute@,
                    ));
                    assert(before.push(attribute@) + rest =~= before + (seq![attribute@] + rest));
                }
                attributes.push(attribute);
            }
            i += 1;
        }
        proof {
            assert(attributes_view(attributes@) + Seq::<SpecAttribute>::empty()
                =~= attributes_view(attributes@));
        }
        let children = create_nodes(&pair.inner, 1);
        let category = NodeType::classify(tag.as_str());
        proof {
            assert(pair@.inner[0].inner[0].text == tag@);
            assert(pair@.inner[0].inner.len() >= 1);
        }
        Node::new(false, tag.clone(), attributes, children, category)
    }
}

/// The attribute that an `attribute` pair stands for: a literal for a
/// string, a property for a property, a flag for an identifier.
pub fn create_attribute(pair: &Pair) -> (attribute: Attribute)
    requires
        pair@.rule == Rule::attribute,
        pair_well_formed(pair@),
    ensures
        attribute@ == spec_create_attribute(pair@),
{
    proof {
        lemma_pair_view(*pair);
        lemma_pair_view(pair.inner@[0]);
    }
    assert(pair_well_formed(pairs_view(pair.inner@)[0]));
    let kind = &pair.inner[0];
    match kind.rule {
        Rule::string => Attribute::Literal(unquote(kind.text.as_str())),
        Rule::property => create_property(kind),
        _ => Attribute::Flag(kind.text.clone()),
    }
}

/// The property that a `property` pair stands for.
pub fn create_property(pair: &Pair) -> (attribute: Attribute)
    requires
        pair@.rule == Rule::property,
        pair_well_formed(pair@),
    ensures
        attribute@ == spec_create_property(pair@),
{
    proof {
        lemma_pair_view(*pair);
        lemma_pair_view(pair.inner@[0]);
        lemma_pair_view(pair.inner@[1]);
    }
    let ghost spec_pairs = pairs_view(pair.inner@);
    assert(pair_well_formed(spec_pairs[0]));
    assert(pair_well_formed(spec_pairs[1]));
    let key = pair.inner[0].text.clone();
    let value_pair = &pair.inner[1];
    let value = match value_pair.rule {
        Rule::string => unquote(value_pair.text.as_str()),
        _ => value_pair.text.clone(),
    };
    Attribute::Property { key, value }
}

impl Rule {
    /// The name of the rule, as the grammar writes it.
    pub open spec fn spec_name(&self) -> Seq<char> {
        match self {
            Rule::ast => "ast"@,
            Rule::node => "node"@,
            Rule::processed => "processed"@,
            Rule::attribute => "attribute"@,
            Rule::string => "string"@,
            Rule::property => "property"@,
            Rule::identifier => "identifier"@,
        }
    }

    /// The name of the rule, as the grammar writes it.
    pub fn name(&self) -> (n: &'static str)
        ensures
            n@ == self.spec_name(),
    {
        match self {
            Rule::ast => "ast",
            Rule::node => "node",
            Rule::processed => "processed",
            Rule::attribute => "attribute",
            Rule::string => "string",
            Rule::property => "property",
            Rule::identifier => "identifier",
        }
    }
}

/// The outline of the parts of a property: the key as `- key: ` after the
/// indentation, every later part as its text and a line break.
pub open spec fn outline_property(parts: Seq<SpecPair>, i: int, indent: Seq<char>) -> Seq<char>
    decreases parts.len() - i,
{
    if i < 0 || i >= parts.len() {
        Seq::empty()
    } else if i == 0 {
        indent + "- "@ + parts[i].text + ": "@ + outline_property(parts, i + 1, indent)
    } else {
        parts[i].text + "\n"@ + outline_property(parts, i + 1, indent)
    }
}

/// The outline of a parse tree: one line for each node and each attribute,
/// indented by two blanks more than the line of the pair that holds it.
///
/// A whole dump is headed by `- ast:`. A node is headed by `- node: ` and
/// the text of its first inner pair; the pairs after that one are laid out
/// below it. A string or an identifier shows as `- ` and its text, a
/// property as `- key: value`. A pair of any other rule is headed by
/// `- UNKNOWN RULE: ` and the name of the rule.
pub open spec fn outline(pair: SpecPair, indent: Seq<char>) -> Seq<char>
    decreases pair, 0nat,
{
    let deeper = indent + "  "@;
    match pair.rule {
        Rule::ast => indent + "- ast:\n"@ + outline_all(pair.inner, 0, deeper),
        Rule::node => {
            if pair.inner.len() == 0 {
                Seq::empty()
            } else {
                indent + "- node: "@ + pair.inner[0].text + "\n"@ + outline_all(
                    pair.inner,
                    1,
                    deeper,
                )
            }
        },
        Rule::attribute => {
            if pair.inner.len() == 0 {
                Seq::empty()
            } else if pair.inner[0].rule == Rule::property {
                outline_property(pair.inner[0].inner, 0, indent)
            } else {
                indent + "- "@ + pair.inner[0].text + "\n"@
            }
        },
        _ => indent + "- UNKNOWN RULE: "@ + pair.rule.spec_name() + "\n"@ + outline_all(
            pair.inner,
            0,
            deeper,
        ),
    }
}

/// The outlines of the pairs from position `i` on, one after the other.
pub open spec fn outline_all(pairs: Seq<SpecPair>, i: int, indent: Seq<char>) -> Seq<char>
    decreases pairs, pairs.len() - i,
{
    if i < 0 || i >= pairs.len() {
        Seq::empty()
    } else {
        outline(pairs[i], indent) + outline_all(pairs, i + 1, indent)
    }
}

fn write_outline_property(parts: &Vec<Pair>, indent: &str, out: &mut String)
    ensures
        final(out)@ == old(out)@ + outline_property(pairs_view(parts@), 0, indent@),
{
    let ghost spec_parts = pairs_view(parts@);
    let mut i: usize = 0;
    while i < parts.len()
        invariant
            i <= parts.len(),
            spec_parts == pairs_view(parts@),
            out@ + outline_property(spec_parts, i as int, indent@) == old(out)@
                + outline_property(spec_parts, 0, indent@),
        decreases parts.len() - i,
    {
        let ghost so_far = out@;
        let ghost rest = outline_property(spec_parts, i + 1, indent@);
        proof {
            lemma_pair_view(parts@[i as int]);
        }
        if i == 0 {
            out.append(indent);
            out.append("- ");
            out.append(parts[i].text.as_str());
            out.append(": ");
            proof {
                let this = indent@ + "- "@ + spec_parts[0].text + ": "@;
                assert(out@ =~= so_far + this);
                assert((so_far + this) + rest =~= so_far + (this + rest));
            }
        } else {
            out.append(parts[i].text.as_str());
            out.append("\n");
            proof {
                let this = spec_parts[i as int].text + "\n"@;
                assert(out@ =~= so_far + this);
                assert((so_far + this) + rest =~= so_far + (this + rest));
            }
        }
        i += 1;
    }
    proof {
        assert(out@ + Seq::<char>::empty() =~= out@);
    }
}

fn write_outline(pair: &Pair, indent: &str, out: &mut String)
    requires
        pair_well_formed(pair@),
    ensures
        final(out)@ == old(out)@ + outline(pair@, indent@),
    decreases pair, 0nat,
{
    proof {
        lemma_pair_view(*pair);
    }
    let ghost before = out@;
    let ghost spec_pairs = pairs_view(pair.inner@);
    let mut deeper = String::new();
    deeper.append(indent);
    deeper.append("  ");
    proof {
        assert(deeper@ =~= indent@ + "  "@);
    }
    match pair.rule {
        Rule::ast => {
            out.append(indent);
            out.append("- ast:\n");
            write_outline_all(&pair.inner, 0, deeper.as_str(), out);
            proof {
                assert(out@ =~= before + outline(pair@, indent@));
            }
        },
        Rule::node => {
            if pair.inner.len() == 0 {
                proof {
                    assert(out@ =~= before + outline(pair@, indent@));
                }
            } else {
                proof {
                    lemma_pair_view(pair.inner@[0]);
                }
                out.append(indent);
                out.append("- node: ");
                out.append(pair.inner[0].text.as_str());
                out.append("\n");
                write_outline_all(&pair.inner, 1, deeper.as_str(), out);
                proof {
                    assert(out@ =~= before + outline(pair@, indent@));
                }
            }
        },
        Rule::attribute => {
            proof {
                lemma_pair_view(pair.inner@[0]);
            }
            let kind = &pair.inner[0];
            match kind.rule {
                Rule::property => {
                    write_outline_property(&kind.inner, indent, out);
                },
                _ => {
                    out.append(indent);
                    out.append("- ");
                    out.append(kind.text.as_str());
                    out.append("\n");
                    proof {
                        assert(out@ =~= before + outline(pair@, indent@));
                    }
                },
            }
        },
        _ => {
            out.append(indent);
            out.append("- UNKNOWN RULE: ");
            out.append(pair.rule.name());
            out.append("\n");
            write_outline_all(&pair.inner, 0, deeper.as_str(), out);
            proof {
                assert(out@ =~= before + outline(pair@, indent@));
            }
        },
    }
}

fn write_outline_all(pairs: &Vec<Pair>, start: usize, indent: &str, out: &mut String)
    requires
        start <= pairs.len(),
        forall|i: int| 0 <= i < pairs.len() ==> pair_well_formed(#[trigger] pairs_view(pairs@)[i]),
    ensures
        final(out)@ == old(out)@ + outline_all(pairs_view(pairs@), start as int, indent@),
    decreases pairs, 1nat,
{
    let ghost spec_pairs = pairs_view(pairs@);
    let mut i: usize = start;
    while i < pairs.len()
        invariant
            start <= i <= pairs.len(),
            spec_pairs == pairs_view(pairs@),
            forall|j: int| 0 <= j < pairs.len() ==> pair_well_formed(#[trigger] spec_pairs[j]),
            out@ + outline_all(spec_pairs, i as int, indent@) == old(out)@ + outline_all(
                spec_pairs,
                start as int,
                indent@,
            ),
        decreases pairs.len() - i,
    {
        let ghost so_far = out@;
        assert(pair_well_formed(spec_pairs[i as int]));
        write_outline(&pairs[i], indent, out);
        proof {
            let this = outline(spec_pairs[i as int], indent@);
            let rest = outline_all(spec_pairs, i + 1, indent@);
            assert((so_far + this) + rest =~= so_far + (this + rest));
        }
        i += 1;
    }
    proof {
        assert(out@ + Seq::<char>::empty() =~= out@);
    }
}

/// The outline of a parse tree, every line indented by `indent` at least.
pub fn print(pair: &Pair, indent: &str) -> (text: String)
    requires
        pair_well_formed(pair@),
    ensures
        text@ == outline(pair@, indent@),
{
    let mut out = String::new();
    write_outline(pair, indent, &mut out);
    proof {
        assert(Seq::<char>::empty() + outline(pair@, indent@) =~= outline(pair@, indent@));
    }
    out
}

/// What is shown of the parse tree of a whole dump: its outline, written
/// at the left margin, and the forest that it stands for.
pub fn pest_parser(pair: &Pair) -> (shown: (String, DumpAst))
    requires
        pair@.rule == Rule::ast,
        pair_well_formed(pair@),
    ensures
        shown.0@ == outline(pair@, ""@),
        shown.1@ == spec_create_ast(pair@),
{
    let text = print(pair, "");
    let ast = create_ast(pair);
    (text, ast)
}

/// The grammar-driven reader of dumps.
pub struct SwiftDumpAstParser;

} // verus!
