//! The coarse category of a node, looked up from its tag.
//!
//! The three tables below are the one place where the tags of the dump format
//! are listed; a tag that stands in none of them is of the fallback category.

use vstd::prelude::*;
use crate::text::same_text;

verus! {

/// The coarse kind of a node.
#[derive(Clone, Copy, Debug, PartialEq, Eq, Structural)]
pub enum NodeType {
    /// The node declares something (a variable, a function, a type, ..).
    Declaration,
    /// The node is an expression.
    Expression,
    /// The node is a statement.
    Statement,
    /// Any tag the tables do not list.
    OtherType,
}

/// The tags of declarations.
pub open spec fn spec_is_declaration_tag(tag: Seq<char>) -> bool {
    ||| tag == "decl"@
    ||| tag == "var_decl"@
    ||| tag == "func_decl"@
    ||| tag == "param_decl"@
    ||| tag == "parameter"@
    ||| tag == "class_decl"@
    ||| tag == "struct_decl"@
    ||| tag == "enum_decl"@
    ||| tag == "enum_element_decl"@
    ||| tag == "protocol_decl"@
    ||| tag == "extension_decl"@
    ||| tag == "typealias"@
    ||| tag == "pattern_binding_decl"@
    ||| tag == "accessor_decl"@
    ||| tag == "constructor_decl"@
    ||| tag == "destructor_decl"@
    ||| tag == "subscript_decl"@
    ||| tag == "import_decl"@
    ||| tag == "top_level_code_decl"@
}

/// The tags of expressions.
pub open spec fn spec_is_expression_tag(tag: Seq<char>) -> bool {
    ||| tag == "expr"@
    ||| tag == "call_expr"@
    ||| tag == "declref_expr"@
    ||| tag == "member_ref_expr"@
    ||| tag == "integer_literal_expr"@
    ||| tag == "string_literal_expr"@
    ||| tag == "boolean_literal_expr"@
    ||| tag == "float_literal_expr"@
    ||| tag == "binary_expr"@
    ||| tag == "paren_expr"@
    ||| tag == "tuple_expr"@
    ||| tag == "closure_expr"@
    ||| tag == "assign_expr"@
}

/// The tags of statements.
pub open spec fn spec_is_statement_tag(tag: Seq<char>) -> bool {
    ||| tag == "stmt"@
    ||| tag == "brace_stmt"@
    ||| tag == "return_stmt"@
    ||| tag == "if_stmt"@
    ||| tag == "guard_stmt"@
    ||| tag == "while_stmt"@
    ||| tag == "for_each_stmt"@
    ||| tag == "switch_stmt"@
}

/// The category of a tag: that of the first table that lists it, the
/// fallback if none does.
pub open spec fn spec_classify(tag: Seq<char>) -> NodeType {
    if spec_is_declaration_tag(tag) {
        NodeType::Declaration
    } else if spec_is_expression_tag(tag) {
        NodeType::Expression
    } else if spec_is_statement_tag(tag) {
        NodeType::Statement
    } else {
        NodeType::OtherType
    }
}

/// Whether `tag` is the tag of a declaration.
pub fn is_declaration_tag(tag: &str) -> (r: bool)
    ensures
        r == spec_is_declaration_tag(tag@),
{
    same_text(tag, "decl")
        || same_text(tag, "var_decl")
        || same_text(tag, "func_decl")
        || same_text(tag, "param_decl")
        || same_text(tag, "parameter")
        || same_text(tag, "class_decl")
        || same_text(tag, "struct_decl")
        || same_text(tag, "enum_decl")
        || same_text(tag, "enum_element_decl")
        || same_text(tag, "protocol_decl")
        || same_text(tag, "extension_decl")
        || same_text(tag, "typealias")
        || same_text(tag, "pattern_binding_decl")
        || same_text(tag, "accessor_decl")
        || same_text(tag, "constructor_decl")
        || same_text(tag, "destructor_decl")
        || same_text(tag, "subscript_decl")
        || same_text(tag, "import_decl")
        || same_text(tag, "top_level_code_decl")
}

/// Whether `tag` is the tag of an expression.
pub fn is_expression_tag(tag: &str) -> (r: bool)
    ensures
        r == spec_is_expression_tag(tag@),
{
    same_text(tag, "expr")
        || same_text(tag, "call_expr")
        || same_text(tag, "declref_expr")
        || same_text(tag, "member_ref_expr")
        || same_text(tag, "integer_literal_expr")
        || same_text(tag, "string_literal_expr")
        || same_text(tag, "boolean_literal_expr")
        || same_text(tag, "float_literal_expr")
        || same_text(tag, "binary_expr")
        || same_text(tag, "paren_expr")
        || same_text(tag, "tuple_expr")
        || same_text(tag, "closure_expr")
        || same_text(tag, "assign_expr")
}

/// Whether `tag` is the tag of a statement.
pub fn is_statement_tag(tag: &str) -> (r: bool)
    ensures
        r == spec_is_statement_tag(tag@),
{
    same_text(tag, "stmt")
        || same_text(tag, "brace_stmt")
        || same_text(tag, "return_stmt")
        || same_text(tag, "if_stmt")
        || same_text(tag, "guard_stmt")
        || same_text(tag, "while_stmt")
        || same_text(tag, "for_each_stmt")
        || same_text(tag, "switch_stmt")
}

impl NodeType {
    /// The category of the node whose tag is `tag`.
    pub fn classify(tag: &str) -> (category: NodeType)
        ensures
            category == spec_classify(tag@),
    {
        if is_declaration_tag(tag) {
            NodeType::Declaration
        } else if is_expression_tag(tag) {
            NodeType::Expression
        } else if is_statement_tag(tag) {
            NodeType::Statement
        } else {
            NodeType::OtherType
        }
    }

    /// Whether nodes of this category are looked at for type records.
    pub open spec fn spec_is_declaration_like(&self) -> bool {
        *self == NodeType::Declaration
    }

    /// Whether nodes of this category are looked at for type records.
    pub fn is_declaration_like(&self) -> (r: bool)
        ensures
            r == self.spec_is_declaration_like(),
    {
        match self {
            NodeType::Declaration => true,
            _ => false,
        }
    }

    /// The name of the category, as it is written in a record.
    pub open spec fn spec_name(&self) -> Seq<char> {
        match self {
            NodeType::Declaration => "declaration"@,
            NodeType::Expression => "expression"@,
            NodeType::Statement => "statement"@,
            NodeType::OtherType => "other"@,
        }
    }

    /// The name of the category, as it is written in a record.
    pub fn name(&self) -> (n: &'static str)
        ensures
            n@ == self.spec_name(),
    {
        match self {
            NodeType::Declaration => "declaration",
            NodeType::Expression => "expression",
            NodeType::Statement => "statement",
            NodeType::OtherType => "other",
        }
    }
}

} // verus!
