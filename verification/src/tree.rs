//! The parse tree that the compiler reads.
//!
//! A document arrives already parsed: a tree of nodes, each tagged with the
//! grammar rule that produced it and carrying the source text it spans.

use vstd::prelude::*;

verus! {

/// The grammar rules that the compiler knows.
#[derive(Clone, Copy, Debug, PartialEq, Eq, Structural)]
pub enum Rule {
    Document,
    Declaration,
    DeclarationKey,
    DeclarationValue,
    Block,
    BlockElement,
    BlockElementName,
    BlockElementClasses,
    BlockElementClass,
    BlockElementAttributes,
    BlockElementContent,
    BlockTemplate,
    BlockTemplateName,
    BlockTemplateClasses,
    BlockTemplateClass,
    BlockTemplateAttributes,
    BlockTemplateContent,
    BlockChildren,
    BlockContentLine,
    BlockContentEmptyLine,
    Attribute,
    AttributeKey,
    AttributeValue,
    ExtendClasses,
    Ellipsis,
    EndOfInput,
    /// Any rule outside the vocabulary above.
    Other,
}

/// One node of a parse tree: its rule, the text it spans, and its parts in
/// source order.
#[derive(Debug)]
pub struct ParseNode {
    pub rule: Rule,
    pub text: String,
    pub children: Vec<ParseNode>,
}

impl ParseNode {
    /// A node without parts.
    pub fn leaf(rule: Rule, text: &str) -> (node: ParseNode)
        ensures
            node.rule == rule,
            node.text@ == text@,
            node.children@.len() == 0,
    {
        let mut owned = String::new();
        owned.append(text);
        ParseNode { rule, text: owned, children: Vec::new() }
    }

    /// A node made of the given parts, spanning no text of its own.
    pub fn branch(rule: Rule, children: Vec<ParseNode>) -> (node: ParseNode)
        ensures
            node.rule == rule,
            node.text@.len() == 0,
            node.children == children,
    {
        ParseNode { rule, text: String::new(), children }
    }
}

} // verus!
