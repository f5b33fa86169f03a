//! The data extractor: from a forest to the type records of its
//! declarations, in document order.
//!
//! A node yields a record when its category is declaration-like and one of
//! its properties has a type-bearing key. The keys that bear a type are
//! `type` and `interface_type`. The name of the record is the first literal
//! of the node; a node without a literal is named by its first `name`
//! property, and by the empty text if it has neither.

use vstd::prelude::*;
use crate::node_type::NodeType;
use crate::swift_dump_ast::{
    attributes_view, lemma_node_view, nodes_view, Attribute, Node, SpecAttribute, SpecNode,
};
use crate::text::same_text;

verus! {

/// The type of one declaration.
#[derive(Clone, Debug, PartialEq, Eq)]
pub struct TypeRecord {
    /// The name that identifies the declaration.
    pub name: String,
    /// The type, as the dump writes it.
    pub declared_type: String,
    /// The category of the declaring node.
    pub category: NodeType,
    /// Whether the declaring node stands inside an `Original init:` wrapper.
    pub is_original: bool,
}

/// The mathematical counterpart of [`TypeRecord`].
pub struct SpecTypeRecord {
    pub name: Seq<char>,
    pub declared_type: Seq<char>,
    pub category: NodeType,
    pub is_original: bool,
}

impl View for TypeRecord {
    type V = SpecTypeRecord;

    open spec fn view(&self) -> SpecTypeRecord {
        SpecTypeRecord {
            name: self.name@,
            declared_type: self.declared_type@,
            category: self.category,
            is_original: self.is_original,
        }
    }
}

/// The views of a run of records, in order.
pub open spec fn records_view(records: Seq<TypeRecord>) -> Seq<SpecTypeRecord> {
    records.map_values(|r: TypeRecord| r@)
}

/// The property keys that bear a type.
pub open spec fn spec_is_type_key(key: Seq<char>) -> bool {
    key == "type"@ || key == "interface_type"@
}

/// The property key that bears a name.
pub open spec fn spec_is_name_key(key: Seq<char>) -> bool {
    key == "name"@
}

/// The first literal among the attributes from position `i` on.
pub open spec fn first_literal(attributes: Seq<SpecAttribute>, i: int) -> Option<Seq<char>>
    decreases attributes.len() - i,
{
    if i < 0 || i >= attributes.len() {
        None
    } else {
        match attributes[i] {
            SpecAttribute::Literal(text) => Some(text),
            _ => first_literal(attributes, i + 1),
        }
    }
}

/// The value of the first property with a type-bearing key among the
/// attributes from position `i` on.
pub open spec fn first_type(attributes: Seq<SpecAttribute>, i: int) -> Option<Seq<char>>
    decreases attributes.len() - i,
{
    if i < 0 || i >= attributes.len() {
        None
    } else {
        match attributes[i] {
            SpecAttribute::Property { key, value } if spec_is_type_key(key) => Some(value),
            _ => first_type(attributes, i + 1),
        }
    }
}

/// The value of the first `name` property among the attributes from
/// position `i` on.
pub open spec fn first_name(attributes: Seq<SpecAttribute>, i: int) -> Option<Seq<char>>
    decreases attributes.len() - i,
{
    if i < 0 || i >= attributes.len() {
        None
    } else {
        match attributes[i] {
            SpecAttribute::Property { key, value } if spec_is_name_key(key) => Some(value),
            _ => first_name(attributes, i + 1),
        }
    }
}

/// The name that identifies a node with the given attributes.
pub open spec fn identifying_name(attributes: Seq<SpecAttribute>) -> Seq<char> {
    match first_literal(attributes, 0) {
        Some(text) => text,
        None => match first_name(attributes, 0) {
            Some(value) => value,
            None => Seq::empty(),
        },
    }
}

/// The record that a node yields by itself, if it yields one. `inside` says
/// whether the node stands inside a wrapper.
pub open spec fn own_record(node: SpecNode, inside: bool) -> Option<SpecTypeRecord> {
    if node.category.spec_is_declaration_like() {
        match first_type(node.attributes, 0) {
            Some(declared_type) => Some(
                SpecTypeRecord {
                    name: identifying_name(node.attributes),
                    declared_type,
                    category: node.category,
                    is_original: inside,
                },
            ),
            None => None,
        }
    } else {
        None
    }
}

/// The records of a node and of everything below it, in pre-order: first
/// the node's own record, then those of its children from left to right.
pub open spec fn extract_node(node: SpecNode, inside: bool) -> Seq<SpecTypeRecord>
    decreases node, 0nat,
{
    let own = match own_record(node, inside) {
        Some(record) => seq![record],
        None => Seq::empty(),
    };
    own + extract_nodes(node.children, 0, inside || node.is_original)
}

/// The records of the nodes from position `i` on, one node after the other.
pub open spec fn extract_nodes(nodes: Seq<SpecNode>, i: int, inside: bool) -> Seq<SpecTypeRecord>
    decreases nodes, nodes.len() - i,
{
    if i < 0 || i >= nodes.len() {
        Seq::empty()
    } else {
        extract_node(nodes[i], inside) + extract_nodes(nodes, i + 1, inside)
    }
}

/// The records of a forest.
pub open spec fn spec_extract(forest: Seq<SpecNode>) -> Seq<SpecTypeRecord> {
    extract_nodes(forest, 0, false)
}

/// The records from position `i` on that do not stand inside a wrapper,
/// in the order in which they stand in `records`.
pub open spec fn outside_wrappers(records: Seq<SpecTypeRecord>, i: int) -> Seq<SpecTypeRecord>
    decreases records.len() - i,
{
    if i < 0 || i >= records.len() {
        Seq::empty()
    } else if records[i].is_original {
        outside_wrappers(records, i + 1)
    } else {
        seq![records[i]] + outside_wrappers(records, i + 1)
    }
}

/// Whether a property with this key bears the type of its node.
pub fn is_type_key(key: &str) -> (r: bool)
    ensures
        r == spec_is_type_key(key@),
{
    same_text(key, "type") || same_text(key, "interface_type")
}

/// Whether a property with this key bears the name of its node.
pub fn is_name_key(key: &str) -> (r: bool)
    ensures
        r == spec_is_name_key(key@),
{
    same_text(key, "name")
}

/// Whether an optional text stands for the specified one.
pub open spec fn text_matches(got: Option<String>, want: Option<Seq<char>>) -> bool {
    match (got, want) {
        (Some(text), Some(spec_text)) => text@ == spec_text,
        (None, None) => true,
        _ => false,
    }
}

fn find_literal(attributes: &Vec<Attribute>) -> (r: Option<String>)
    ensures
        text_matches(r, first_literal(attributes_view(attributes@), 0)),
{
    let ghost spec_attributes = attributes_view(attributes@);
    let mut i: usize = 0;
    while i < attributes.len()
        invariant
            i <= attributes.len(),
            spec_attributes == attributes_view(attributes@),
            first_literal(spec_attributes, 0) == first_literal(spec_attributes, i as int),
        decreases attributes.len() - i,
    {
        match &attributes[i] {
            Attribute::Literal(text) => {
                return Some(text.clone());
            },
            _ => {},
        }
        i += 1;
    }
    None
}

fn find_type(attributes: &Vec<Attribute>) -> (r: Option<String>)
    ensures
        text_matches(r, first_type(attributes_view(attributes@), 0)),
{
    let ghost spec_attributes = attributes_view(attributes@);
    let mut i: usize = 0;
    while i < attributes.len()
        invariant
            i <= attributes.len(),
            spec_attributes == attributes_view(attributes@),
            first_type(spec_attributes, 0) == first_type(spec_attributes, i as int),
        decreases attributes.len() - i,
    {
        match &attributes[i] {
            Attribute::Property { key, value } => {
                if is_type_key(key.as_str()) {
                    return Some(value.clone());
                }
            },
            _ => {},
        }
        i += 1;
    }
    None
}

fn find_name(attributes: &Vec<Attribute>) -> (r: Option<String>)
    ensures
        text_matches(r, first_name(attributes_view(attributes@), 0)),
{
    let ghost spec_attributes = attributes_view(attributes@);
    let mut i: usize = 0;
    while i < attributes.len()
        invariant
            i <= attributes.len(),
            spec_attributes == attributes_view(attributes@),
            first_name(spec_attributes, 0) == first_name(spec_attributes, i as int),
        decreases attributes.len() - i,
    {
        match &attributes[i] {
            Attribute::Property { key, value } => {
                if is_name_key(key.as_str()) {
                    return Some(value.clone());
                }
            },
            _ => {},
        }
        i += 1;
    }
    None
}

/// The record that `node` yields by itself, if it yields one.
pub fn record_of(node: &Node, inside: bool) -> (r: Option<TypeRecord>)
    ensures
        match (r, own_record(node@, inside)) {
            (Some(record), Some(spec_record)) => record@ == spec_record,
            (None, None) => true,
            _ => false,
        },
{
    proof {
        lemma_node_view(*node);
    }
    if !node.category.is_declaration_like() {
        return None;
    }
    match find_type(&node.attributes) {
        None => None,
        Some(declared_type) => {
            let name = match find_literal(&node.attributes) {
                Some(text) => text,
                None => match find_name(&node.attributes) {
                    Some(value) => value,
                    None => String::new(),
                },
            };
            Some(TypeRecord { name, declared_type, category: node.category, is_original: inside })
        },
    }
}

fn collect_node(node: &Node, inside: bool, out: &mut Vec<TypeRecord>)
    ensures
        records_view(final(out)@) == records_view(old(out)@) + extract_node(node@, inside),
    decreases node, 0nat,
{
    proof {
        lemma_node_view(*node);
    }
    let ghost before = records_view(out@);
    let ghost own = match own_record(node@, inside) {
        Some(record) => seq![record],
        None => Seq::empty(),
    };
    match record_of(node, inside) {
        Some(record) => {
            proof {
                assert(records_view(out@.push(record)) =~= before + own);
            }
            out.push(record);
        },
        None => {
            proof {
                assert(before =~= before + own);
            }
        },
    }
    let below = inside || node.is_original;
    collect_nodes(&node.children, below, out);
    proof {
        let rest = extract_nodes(node@.children, 0, below);
        assert((before + own) + rest =~= before + (own + rest));
    }
}

fn collect_nodes(nodes: &Vec<Node>, inside: bool, out: &mut Vec<TypeRecord>)
    ensures
        records_view(final(out)@) == records_view(old(out)@) + extract_nodes(
            nodes_view(nodes@),
            0,
            inside,
        ),
    decreases nodes, 1nat,
{
    let ghost forest = nodes_view(nodes@);
    let ghost before = records_view(out@);
    let mut i: usize = 0;
    while i < nodes.len()
        invariant
            i <= nodes.len(),
            forest == nodes_view(nodes@),
            records_view(out@) + extract_nodes(forest, i as int, inside) == before + extract_nodes(
                forest,
                0,
                inside,
            ),
        decreases nodes.len() - i,
    {
        let ghost so_far = records_view(out@);
        collect_node(&nodes[i], inside, out);
        proof {
            let this = extract_node(forest[i as int], inside);
            let rest = extract_nodes(forest, i + 1, inside);
            assert((so_far + this) + rest =~= so_far + (this + rest));
        }
        i += 1;
    }
    proof {
        assert(records_view(out@) + Seq::<SpecTypeRecord>::empty() =~= records_view(out@));
    }
}

/// The extractor. It owns the forest it walks.
pub struct DataExtractor {
    nodes: Vec<Node>,
}

impl DataExtractor {
    /// The forest that this extractor walks.
    pub closed spec fn forest(&self) -> Seq<SpecNode> {
        nodes_view(self.nodes@)
    }

    /// An extractor over the top-level nodes `nodes`.
    pub fn new(nodes: Vec<Node>) -> (extractor: DataExtractor)
        ensures
            extractor.forest() == nodes_view(nodes@),
    {
        DataExtractor { nodes }
    }

    /// The type records of the declarations that stand in no wrapper, in
    /// pre-order, left to right: what [`Self::extract_data`] gives, without
    /// the records that are marked `is_original`.
    pub fn extract_outside_wrappers(&self) -> (records: Vec<TypeRecord>)
        ensures
            records_view(records@) == outside_wrappers(spec_extract(self.forest()), 0),
    {
        let all = self.extract_data();
        let ghost spec_all = records_view(all@);
        let mut kept: Vec<TypeRecord> = Vec::new();
        let mut i: usize = 0;
        proof {
            assert(records_view(kept@) + outside_wrappers(spec_all, 0) =~= outside_wrappers(
                spec_all,
                0,
            ));
        }
        while i < all.len()
            invariant
                i <= all.len(),
                spec_all == records_view(all@),
                records_view(kept@) + outside_wrappers(spec_all, i as int) == outside_wrappers(
                    spec_all,
                    0,
                ),
            decreases all.len() - i,
        {
            let record = &all[i];
            if !record.is_original {
                let copy = TypeRecord {
                    name: record.name.clone(),
                    declared_type: record.declared_type.clone(),
                    category: record.category,
                    is_original: false,
                };
                proof {
                    let before = records_view(kept@);
                    let rest = outside_wrappers(spec_all, i + 1);
                    assert(records_view(kept@.push(copy)) =~= before.push(copy@));
                    assert(before.push(copy@) + rest =~= before + (seq![copy@] + rest));
                }
                kept.push(copy);
            }
            i += 1;
        }
        proof {
            assert(records_view(kept@) + Seq::<SpecTypeRecord>::empty() =~= records_view(kept@));
        }
        kept
    }

    /// The type records of the forest, in pre-order, left to right.
    pub fn extract_data(&self) -> (records: Vec<TypeRecord>)
        ensures
            records_view(records@) == spec_extract(self.forest()),
    {
        let mut records: Vec<TypeRecord> = Vec::new();
        collect_nodes(&self.nodes, false, &mut records);
        proof {
            assert(Seq::<SpecTypeRecord>::empty() + spec_extract(self.forest()) =~= spec_extract(
                self.forest(),
            ));
        }
        records
    }
}

} // verus!
