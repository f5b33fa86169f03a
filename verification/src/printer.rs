//! The printer: from a forest back to dump text.
//!
//! Every node is written as `(`, its tag or the marker phrase, its
//! attributes, its children and `)`. Each attribute and each child starts
//! on a line of its own, indented by two blanks for every enclosing node.
//! Literals and property values are written in double quotes, with a
//! backslash in front of every double quote and every backslash.

use vstd::prelude::*;
use vstd::string::StringExecFns;
use crate::error::Failure;
use crate::lexer::spec_marker;
use crate::pipeline::spec_parse_text;
use crate::round_trip::lemma_print_then_parse;
use crate::swift_dump_ast::{
    attributes_view, forest_well_formed, lemma_node_view, nodes_view, Attribute, DumpAst, Node,
    SpecAttribute, SpecNode,
};
use crate::text::chars_of;

verus! {

/// The characters that stand for `c` inside a quoted string.
pub open spec fn escape_char(c: char) -> Seq<char> {
    if c == '"' || c == '\\' {
        seq!['\\', c]
    } else {
        seq![c]
    }
}

/// The escaped form of `text` from position `i` on.
pub open spec fn escape_from(text: Seq<char>, i: int) -> Seq<char>
    decreases text.len() - i,
{
    if i < 0 || i >= text.len() {
        Seq::empty()
    } else {
        escape_char(text[i]) + escape_from(text, i + 1)
    }
}

/// `text` as a quoted string.
pub open spec fn quoted(text: Seq<char>) -> Seq<char> {
    seq!['"'] + escape_from(text, 0) + seq!['"']
}

/// The text of one attribute.
pub open spec fn print_attribute(attribute: SpecAttribute) -> Seq<char> {
    match attribute {
        SpecAttribute::Literal(text) => quoted(text),
        SpecAttribute::Property { key, value } => key + seq!['='] + quoted(value),
        SpecAttribute::Flag(name) => name,
    }
}

/// Two blanks for each of `depth` levels.
pub open spec fn indentation(depth: nat) -> Seq<char> {
    Seq::new(2 * depth, |i: int| ' ')
}

/// What stands in front of every attribute and child at `depth`: a line
/// break and the indentation.
pub open spec fn separator(depth: nat) -> Seq<char> {
    seq!['\n'] + indentation(depth)
}

/// What stands right after the opening parenthesis of a node: the marker
/// phrase for a wrapper, the tag otherwise.
pub open spec fn print_head(node: SpecNode) -> Seq<char> {
    if node.is_original {
        spec_marker()
    } else {
        node.tag
    }
}

/// The text of a node whose opening parenthesis is indented by `depth`
/// levels.
pub open spec fn print_node(node: SpecNode, depth: nat) -> Seq<char>
    decreases node, 0nat,
{
    seq!['('] + print_head(node) + print_attributes(node.attributes, 0, depth + 1)
        + print_children(node.children, 0, depth + 1) + seq![')']
}

/// The text of the attributes from position `i` on, each with its
/// separator in front.
pub open spec fn print_attributes(attributes: Seq<SpecAttribute>, i: int, depth: nat) -> Seq<char>
    decreases attributes.len() - i,
{
    if i < 0 || i >= attributes.len() {
        Seq::empty()
    } else {
        separator(depth) + print_attribute(attributes[i]) + print_attributes(
            attributes,
            i + 1,
            depth,
        )
    }
}

/// The text of the children from position `i` on, each with its separator
/// in front.
pub open spec fn print_children(nodes: Seq<SpecNode>, i: int, depth: nat) -> Seq<char>
    decreases nodes, nodes.len() - i,
{
    if i < 0 || i >= nodes.len() {
        Seq::empty()
    } else {
        separator(depth) + print_node(nodes[i], depth) + print_children(nodes, i + 1, depth)
    }
}

/// The text of the top-level nodes from position `i` on, each followed by
/// a line break.
pub open spec fn print_forest_from(forest: Seq<SpecNode>, i: int) -> Seq<char>
    decreases forest.len() - i,
{
    if i < 0 || i >= forest.len() {
        Seq::empty()
    } else {
        print_node(forest[i], 0) + seq!['\n'] + print_forest_from(forest, i + 1)
    }
}

/// The text of a forest.
pub open spec fn print_forest(forest: Seq<SpecNode>) -> Seq<char> {
    print_forest_from(forest, 0)
}

fn write_escaped(text: &str, out: &mut String)
    ensures
        final(out)@ == old(out)@ + escape_from(text@, 0),
{
    let chars = chars_of(text);
    let mut i: usize = 0;
    while i < chars.len()
        invariant
            i <= chars.len(),
            chars@ == text@,
            out@ + escape_from(text@, i as int) == old(out)@ + escape_from(text@, 0),
        decreases chars.len() - i,
    {
        let c = chars[i];
        let ghost before = out@;
        let ghost rest = escape_from(text@, i + 1);
        if c == '"' || c == '\\' {
            out.push('\\');
        }
        out.push(c);
        proof {
            assert(out@ =~= before + escape_char(c));
            assert((before + escape_char(c)) + rest =~= before + (escape_char(c) + rest));
        }
        i += 1;
    }
    proof {
        assert(out@ + Seq::<char>::empty() =~= out@);
    }
}

pub(crate) fn write_quoted(text: &str, out: &mut String)
    ensures
        final(out)@ == old(out)@ + quoted(text@),
{
    let ghost before = out@;
    out.push('"');
    write_escaped(text, out);
    out.push('"');
    proof {
        assert(out@ =~= before + quoted(text@));
    }
}

fn write_attribute(attribute: &Attribute, out: &mut String)
    ensures
        final(out)@ == old(out)@ + print_attribute(attribute@),
{
    let ghost before = out@;
    match attribute {
        Attribute::Literal(text) => {
            write_quoted(text.as_str(), out);
        },
        Attribute::Property { key, value } => {
            out.append(key.as_str());
            out.push('=');
            write_quoted(value.as_str(), out);
            proof {
                assert(out@ =~= before + (key@ + seq!['='] + quoted(value@)));
            }
        },
        Attribute::Flag(name) => {
            out.append(name.as_str());
        },
    }
}

fn write_separator(indent: &str, out: &mut String, Ghost(depth): Ghost<nat>)
    requires
        indent@ == indentation(depth),
    ensures
        final(out)@ == old(out)@ + separator(depth),
{
    let ghost before = out@;
    out.push('\n');
    out.append(indent);
    proof {
        assert(out@ =~= before + separator(depth));
    }
}

fn deeper(indent: &str, Ghost(depth): Ghost<nat>) -> (inner: String)
    requires
        indent@ == indentation(depth),
    ensures
        inner@ == indentation(depth + 1),
{
    let mut inner = String::new();
    inner.append(indent);
    inner.push(' ');
    inner.push(' ');
    proof {
        assert(inner@ =~= indentation(depth + 1));
    }
    inner
}

fn write_node(node: &Node, indent: &str, out: &mut String, Ghost(depth): Ghost<nat>)
    requires
        indent@ == indentation(depth),
    ensures
        final(out)@ == old(out)@ + print_node(node@, depth),
    decreases node, 0nat,
{
    proof {
        lemma_node_view(*node);
    }
    let ghost before = out@;
    out.push('(');
    if node.is_original {
        out.append("Original init:");
        proof {
            reveal_strlit("Original init:");
            assert("Original init:"@ =~= spec_marker());
        }
    } else {
        out.append(node.tag.as_str());
    }
    let ghost after_head = out@;
    let inner = deeper(indent, Ghost(depth));
    let ghost attributes = attributes_view(node.attributes@);
    let mut i: usize = 0;
    while i < node.attributes.len()
        invariant
            i <= node.attributes.len(),
            inner@ == indentation(depth + 1),
            attributes == attributes_view(node.attributes@),
            out@ + print_attributes(attributes, i as int, depth + 1) == after_head
                + print_attributes(attributes, 0, depth + 1),
        decreases node.attributes.len() - i,
    {
        let ghost so_far = out@;
        write_separator(inner.as_str(), out, Ghost(depth + 1));
        write_attribute(&node.attributes[i], out);
        proof {
            let this = separator(depth + 1) + print_attribute(attributes[i as int]);
            let rest = print_attributes(attributes, i + 1, depth + 1);
            assert(out@ =~= so_far + this);
            assert((so_far + this) + rest =~= so_far + (this + rest));
        }
        i += 1;
    }
    let ghost after_attributes = out@;
    write_children(&node.children, inner.as_str(), out, Ghost(depth + 1));
    out.push(')');
    proof {
        assert(print_attributes(attributes, node.attributes.len() as int, depth + 1)
            =~= Seq::<char>::empty());
        assert(after_attributes =~= after_head + print_attributes(attributes, 0, depth + 1));
        assert(after_head =~= before + seq!['('] + print_head(node@));
        assert(out@ =~= before + print_node(node@, depth));
    }
}

fn write_children(nodes: &Vec<Node>, indent: &str, out: &mut String, Ghost(depth): Ghost<nat>)
    requires
        indent@ == indentation(depth),
    ensures
        final(out)@ == old(out)@ + print_children(nodes_view(nodes@), 0, depth),
    decreases nodes, 1nat,
{
    let ghost forest = nodes_view(nodes@);
    let mut i: usize = 0;
    while i < nodes.len()
        invariant
            i <= nodes.len(),
            indent@ == indentation(depth),
            forest == nodes_view(nodes@),
            out@ + print_children(forest, i as int, depth) == old(out)@ + print_children(
                forest,
                0,
                depth,
            ),
        decreases nodes.len() - i,
    {
        let ghost so_far = out@;
        write_separator(indent, out, Ghost(depth));
        write_node(&nodes[i], indent, out, Ghost(depth));
        proof {
            let this = separator(depth) + print_node(forest[i as int], depth);
            let rest = print_children(forest, i + 1, depth);
            assert(out@ =~= so_far + this);
            assert((so_far + this) + rest =~= so_far + (this + rest));
        }
        i += 1;
    }
    proof {
        assert(out@ + Seq::<char>::empty() =~= out@);
    }
}

impl Node {
    /// The dump text of this node, written at the left margin.
    pub fn pretty_print(&self) -> (text: String)
        ensures
            text@ == print_node(self@, 0),
    {
        let mut out = String::new();
        proof {
            assert("" @ =~= indentation(0)) by {
                reveal_strlit("");
            }
        }
        write_node(self, "", &mut out, Ghost(0));
        proof {
            assert(Seq::<char>::empty() + print_node(self@, 0) =~= print_node(self@, 0));
        }
        out
    }
}

impl DumpAst {
    /// The dump text of this forest. Reading it again gives the same
    /// forest, provided that the forest is well-formed.
    pub fn pretty_print(&self) -> (text: String)
        ensures
            text@ == print_forest(self@),
            forest_well_formed(self@) ==> spec_parse_text(text@) == Ok::<Seq<SpecNode>, Failure>(
                self@,
            ),
    {
        proof {
            if forest_well_formed(self@) {
                lemma_print_then_parse(self@);
            }
        }
        let mut out = String::new();
        let ghost forest = nodes_view(self.nodes@);
        proof {
            assert("" @ =~= indentation(0)) by {
                reveal_strlit("");
            }
            assert(out@ + print_forest_from(forest, 0) =~= print_forest_from(forest, 0));
        }
        let mut i: usize = 0;
        while i < self.nodes.len()
            invariant
                i <= self.nodes.len(),
                forest == nodes_view(self.nodes@),
                ""@ == indentation(0),
                out@ + print_forest_from(forest, i as int) == print_forest_from(forest, 0),
            decreases self.nodes.len() - i,
        {
            let ghost so_far = out@;
            write_node(&self.nodes[i], "", &mut out, Ghost(0));
            out.push('\n');
            proof {
                let this = print_node(forest[i as int], 0) + seq!['\n'];
                let rest = print_forest_from(forest, i + 1);
                assert(out@ =~= so_far + this);
                assert((so_far + this) + rest =~= so_far + (this + rest));
            }
            i += 1;
        }
        proof {
            assert(out@ + Seq::<char>::empty() =~= out@);
        }
        out
    }
}

} // verus!
