//! The shape of a token sequence.
//!
//! Every element of a well-formed sequence has one opening token, then at
//! most one class list, at most one attribute list, and at most one of
//! inline content and child tokens, in this order. The lexer yields only
//! well-formed sequences from trees that the grammar can produce.

use vstd::prelude::*;
use crate::error::ErrorModel;
use crate::lexer::{
    block_prefix, children_prefix, document_prefix, element_prefix, invocation_prefix,
    lexed_document, lexed_template, supplied, Context, Lexed,
};
use crate::state::StateModel;
use crate::laws::law_first_template_counts;
use crate::template::{template_path_of, TemplateSource};
use crate::token::TokenModel;
use crate::tree::{ParseNode, Rule};

verus! {

/// Where a sequence stands with respect to its last element: outside of it
/// (none was opened, or it has its content), or inside, after its opening
/// token, after its class list, or after its attribute list.
pub enum Place {
    Outside,
    Opened,
    Classed,
    Attributed,
}

/// Where a sequence that stands at `place` stands after one more token of
/// the given kind; `None` where that token may not follow.
pub open spec fn place_after(place: Place, rule: Rule) -> Option<Place> {
    match rule {
        Rule::BlockElementName => Some(Place::Opened),
        Rule::BlockElementClasses => if place is Opened {
            Some(Place::Classed)
        } else {
            None
        },
        Rule::BlockElementAttributes => if place is Opened || place is Classed {
            Some(Place::Attributed)
        } else {
            None
        },
        Rule::BlockElementContent => if place is Outside {
            None
        } else {
            Some(Place::Outside)
        },
        Rule::BlockChildren => if place is Outside {
            None
        } else {
            Some(Place::Outside)
        },
        _ => Some(Place::Outside),
    }
}

/// The part of an element that a token stands for; a line of text stands
/// for itself.
pub open spec fn rule_of(token: TokenModel) -> Rule {
    match token {
        TokenModel::ElementOpen { .. } => Rule::BlockElementName,
        TokenModel::ElementClasses { .. } => Rule::BlockElementClasses,
        TokenModel::ElementAttributes { .. } => Rule::BlockElementAttributes,
        TokenModel::InlineContent { .. } => Rule::BlockElementContent,
        TokenModel::ChildTokens { .. } => Rule::BlockChildren,
        TokenModel::BlankLine => Rule::BlockContentEmptyLine,
        TokenModel::TextLine { .. } => Rule::BlockContentLine,
    }
}

/// Where a sequence that starts at `start` stands after its first `n`
/// tokens; `None` where one of them may not stand where it does, or where
/// child tokens are not well-formed themselves.
pub open spec fn shape_from(start: Place, tokens: Seq<TokenModel>, n: int) -> Option<Place>
    decreases tokens, n,
{
    if n <= 0 || n > tokens.len() {
        Some(start)
    } else {
        match shape_from(start, tokens, n - 1) {
            None => None,
            Some(place) => match tokens[n - 1] {
                TokenModel::ChildTokens { children } => if shape_from(
                    Place::Outside,
                    children,
                    children.len() as int,
                ) is Some {
                    place_after(place, Rule::BlockChildren)
                } else {
                    None
                },
                token => place_after(place, rule_of(token)),
            },
        }
    }
}

/// Whether a token sequence is well-formed.
pub open spec fn well_formed(tokens: Seq<TokenModel>) -> bool {
    shape_from(Place::Outside, tokens, tokens.len() as int) is Some
}

/// Where the parts of an element node stand after the first `n` of them,
/// read as the tokens they become. The first part is the element's name, and
/// no later part is; after it come only a class list, an attribute list,
/// inline content or a child block, each where it may stand.
pub open spec fn parts_shape(node: ParseNode, n: int) -> Option<Place>
    decreases n,
{
    if n <= 0 || n > node.children.len() {
        Some(Place::Outside)
    } else if n == 1 {
        if node.children[0].rule == Rule::BlockElementName {
            Some(Place::Opened)
        } else {
            None
        }
    } else {
        match parts_shape(node, n - 1) {
            None => None,
            Some(place) => match node.children[n - 1].rule {
                Rule::BlockElementClasses => place_after(place, Rule::BlockElementClasses),
                Rule::BlockElementAttributes => place_after(place, Rule::BlockElementAttributes),
                Rule::BlockElementContent => place_after(place, Rule::BlockElementContent),
                Rule::BlockChildren => place_after(place, Rule::BlockChildren),
                _ => None,
            },
        }
    }
}

/// Whether every element in the tree has its parts in the grammar's order:
/// one name, first, then at most one class list, at most one attribute list,
/// and at most one of inline content and a child block.
pub open spec fn shaped(node: ParseNode) -> bool
    decreases node,
{
    &&& node.rule == Rule::BlockElement ==> {
        &&& node.children.len() >= 1
        &&& parts_shape(node, node.children.len() as int) is Some
    }
    &&& forall|i: int| 0 <= i < node.children.len() ==> shaped(#[trigger] node.children[i])
}

/// Whether a context holds only what the grammar and the lexer can produce:
/// shaped templates, and well-formed tokens for the children slot.
pub open spec fn fit(cx: Context) -> bool {
    &&& well_formed(supplied(cx.scope.children))
    &&& forall|i: int|
        0 <= i < cx.store.len() ==> match (#[trigger] cx.store[i]).source {
            TemplateSource::Parsed(root) => shaped(root),
            TemplateSource::Unparsable(_) => true,
        }
}

/// The shape of the first `n` tokens depends on those tokens alone.
pub proof fn lemma_shape_of_prefix(start: Place, a: Seq<TokenModel>, b: Seq<TokenModel>, n: int)
    requires
        0 <= n <= a.len(),
        n <= b.len(),
        forall|i: int| 0 <= i < n ==> a[i] == b[i],
    ensures
        shape_from(start, a, n) == shape_from(start, b, n),
    decreases n,
{
    if n > 0 {
        lemma_shape_of_prefix(start, a, b, n - 1);
    }
}

/// A sequence that is well-formed as a whole is well-formed up to each of
/// its tokens.
pub proof fn lemma_shape_so_far(start: Place, tokens: Seq<TokenModel>, n: int)
    requires
        0 <= n <= tokens.len(),
        shape_from(start, tokens, tokens.len() as int) is Some,
    ensures
        shape_from(start, tokens, n) is Some,
    decreases tokens.len() - n,
{
    if n < tokens.len() {
        lemma_shape_so_far(start, tokens, n + 1);
    }
}

/// A well-formed sequence may follow anything: after its first token it
/// stands where it would stand had it started outside any element.
pub proof fn lemma_shape_from_anywhere(start: Place, tokens: Seq<TokenModel>, n: int)
    requires
        0 < n <= tokens.len(),
        shape_from(Place::Outside, tokens, n) is Some,
    ensures
        shape_from(start, tokens, n) == shape_from(Place::Outside, tokens, n),
    decreases n,
{
    if n > 1 {
        lemma_shape_from_anywhere(start, tokens, n - 1);
    } else {
        reveal_with_fuel(shape_from, 2);
    }
}

/// The shape of two sequences, one after the other, is the shape of the
/// second started where the first one ends.
pub proof fn lemma_shape_concat(start: Place, a: Seq<TokenModel>, b: Seq<TokenModel>, k: int)
    requires
        0 <= k <= b.len(),
    ensures
        shape_from(start, a + b, a.len() + k) == match shape_from(start, a, a.len() as int) {
            Some(place) => shape_from(place, b, k),
            None => None,
        },
    decreases k,
{
    if k == 0 {
        lemma_shape_of_prefix(start, a + b, a, a.len() as int);
    } else {
        lemma_shape_concat(start, a, b, k - 1);
        assert((a + b)[a.len() + k - 1] == b[k - 1]);
    }
}

/// Two well-formed sequences, one after the other, are well-formed.
pub proof fn lemma_well_formed_concat(a: Seq<TokenModel>, b: Seq<TokenModel>)
    requires
        well_formed(a),
        well_formed(b),
    ensures
        well_formed(a + b),
{
    lemma_shape_concat(Place::Outside, a, b, b.len() as int);
    if b.len() > 0 {
        lemma_shape_from_anywhere(
            shape_from(Place::Outside, a, a.len() as int)->Some_0,
            b,
            b.len() as int,
        );
    }
}

/// A well-formed sequence with a line of text at its end is well-formed.
pub proof fn lemma_well_formed_line(a: Seq<TokenModel>, line: TokenModel)
    requires
        well_formed(a),
        line is TextLine || line is BlankLine,
    ensures
        well_formed(a.push(line)),
{
    lemma_shape_of_prefix(Place::Outside, a.push(line), a, a.len() as int);
    assert(a.push(line)[a.len() as int] == line);
}

/// The parts of a shaped tree are shaped.
pub proof fn lemma_parts_are_shaped(node: ParseNode, i: int)
    requires
        shaped(node),
        0 <= i < node.children.len(),
    ensures
        shaped(node.children[i]),
{
}

/// The tokens of an element stand where its parts stand.
pub proof fn lemma_element_shape(node: ParseNode, n: int, state: StateModel, cx: Context)
    requires
        shaped(node),
        fit(cx),
        0 <= n <= node.children.len(),
        parts_shape(node, n) is Some,
    ensures
        match element_prefix(node, n, state, cx) {
            Ok(acc) => shape_from(Place::Outside, acc.tokens, acc.tokens.len() as int)
                == parts_shape(node, n),
            Err(_) => true,
        },
    decreases cx.depth, node, n,
{
    if n > 0 {
        lemma_element_shape(node, n - 1, state, cx);
        match element_prefix(node, n - 1, state, cx) {
            Ok(acc) => {
                let part = node.children[n - 1];
                lemma_parts_are_shaped(node, n - 1);
                if part.rule == Rule::BlockChildren {
                    lemma_children_shape(part, part.children.len() as int, acc.state, cx);
                }
                match element_prefix(node, n, state, cx) {
                    Ok(next) => {
                        assert(next.tokens == acc.tokens.push(next.tokens.last()));
                        lemma_shape_of_prefix(
                            Place::Outside,
                            next.tokens,
                            acc.tokens,
                            acc.tokens.len() as int,
                        );
                    },
                    Err(_) => {},
                }
            },
            Err(_) => {},
        }
    }
}

/// What a template reference supplies for the children slot is well-formed.
pub proof fn lemma_invocation_shape(node: ParseNode, n: int, state: StateModel, cx: Context)
    requires
        shaped(node),
        fit(cx),
    ensures
        match invocation_prefix(node, n, state, cx) {
            Ok(inv) => well_formed(supplied(inv.scope.children)),
            Err(_) => true,
        },
    decreases cx.depth, node, n,
{
    if 0 < n <= node.children.len() {
        lemma_invocation_shape(node, n - 1, state, cx);
        match invocation_prefix(node, n - 1, state, cx) {
            Ok(acc) => {
                let part = node.children[n - 1];
                lemma_parts_are_shaped(node, n - 1);
                match invocation_prefix(node, n, state, cx) {
                    Ok(next) => {
                        if part.rule == Rule::BlockChildren {
                            lemma_children_shape(part, part.children.len() as int, acc.state, cx);
                            let below = children_prefix(
                                part,
                                part.children.len() as int,
                                acc.state,
                                cx,
                            )->Ok_0;
                            lemma_well_formed_concat(supplied(acc.scope.children), below.tokens);
                        } else if part.rule == Rule::BlockTemplateContent {
                            lemma_well_formed_line(
                                supplied(acc.scope.children),
                                supplied(next.scope.children).last(),
                            );
                        }
                    },
                    Err(_) => {},
                }
            },
            Err(_) => {},
        }
    }
}

/// The tokens that a template reference expands to are well-formed.
pub proof fn lemma_template_shape(node: ParseNode, state: StateModel, cx: Context)
    requires
        shaped(node),
        fit(cx),
    ensures
        match lexed_template(node, state, cx) {
            Ok(lexed) => well_formed(lexed.tokens),
            Err(_) => true,
        },
    decreases cx.depth, node, node.children.len() + 1,
{
    lemma_invocation_shape(node, node.children.len() as int, state, cx);
    match invocation_prefix(node, node.children.len() as int, state, cx) {
        Ok(inv) => {
            if inv.template is Some && cx.depth > 0 {
                let at = inv.template->Some_0;
                law_first_template_counts(cx.store, inv.path);
                lemma_invocation_finds(node, node.children.len() as int, state, cx);
                match cx.store[at].source {
                    TemplateSource::Parsed(root) => {
                        let fresh = StateModel {
                            page_number: inv.state.page_number,
                            toc: Seq::empty(),
                        };
                        let inner = Context {
                            scope: inv.scope,
                            store: cx.store,
                            depth: (cx.depth - 1) as nat,
                        };
                        lemma_document_shape(root, root.children.len() as int, fresh, inner);
                    },
                    TemplateSource::Unparsable(_) => {},
                }
            }
        },
        Err(_) => {},
    }
}

/// The template that a reference names stands in the store.
pub proof fn lemma_invocation_finds(node: ParseNode, n: int, state: StateModel, cx: Context)
    ensures
        match invocation_prefix(node, n, state, cx) {
            Ok(inv) => match inv.template {
                Some(at) => 0 <= at < cx.store.len(),
                None => true,
            },
            Err(_) => true,
        },
    decreases n,
{
    if 0 < n <= node.children.len() {
        lemma_invocation_finds(node, n - 1, state, cx);
        let part = node.children[n - 1];
        if part.rule == Rule::BlockTemplateName {
            law_first_template_counts(
                cx.store,
                template_path_of(part.text@),
            );
        }
    }
}

/// The tokens of a block are well-formed.
pub proof fn lemma_block_shape(node: ParseNode, n: int, state: StateModel, cx: Context)
    requires
        shaped(node),
        fit(cx),
    ensures
        match block_prefix(node, n, state, cx) {
            Ok(lexed) => well_formed(lexed.tokens),
            Err(_) => true,
        },
    decreases cx.depth, node, n,
{
    if 0 < n <= node.children.len() {
        lemma_block_shape(node, n - 1, state, cx);
        match block_prefix(node, n - 1, state, cx) {
            Ok(acc) => {
                let part = node.children[n - 1];
                lemma_parts_are_shaped(node, n - 1);
                match block_prefix(node, n, state, cx) {
                    Ok(next) => {
                        if part.rule == Rule::BlockElement {
                            lemma_element_shape(part, part.children.len() as int, acc.state, cx);
                            let element = element_prefix(
                                part,
                                part.children.len() as int,
                                acc.state,
                                cx,
                            )->Ok_0;
                            lemma_well_formed_concat(acc.tokens, element.tokens);
                        } else if part.rule == Rule::BlockTemplate {
                            lemma_template_shape(part, acc.state, cx);
                            let expansion = lexed_template(part, acc.state, cx)->Ok_0;
                            lemma_well_formed_concat(acc.tokens, expansion.tokens);
                        } else {
                            lemma_well_formed_line(acc.tokens, next.tokens.last());
                            assert(next.tokens == acc.tokens.push(next.tokens.last()));
                        }
                    },
                    Err(_) => {},
                }
            },
            Err(_) => {},
        }
    }
}

/// The tokens of a child block are well-formed.
pub proof fn lemma_children_shape(node: ParseNode, n: int, state: StateModel, cx: Context)
    requires
        shaped(node),
        fit(cx),
    ensures
        match children_prefix(node, n, state, cx) {
            Ok(lexed) => well_formed(lexed.tokens),
            Err(_) => true,
        },
    decreases cx.depth, node, n,
{
    if 0 < n <= node.children.len() {
        lemma_children_shape(node, n - 1, state, cx);
        match children_prefix(node, n - 1, state, cx) {
            Ok(acc) => {
                let part = node.children[n - 1];
                lemma_parts_are_shaped(node, n - 1);
                match children_prefix(node, n, state, cx) {
                    Ok(next) => {
                        if part.rule == Rule::Block {
                            lemma_block_shape(part, part.children.len() as int, acc.state, cx);
                            let block = block_prefix(
                                part,
                                part.children.len() as int,
                                acc.state,
                                cx,
                            )->Ok_0;
                            lemma_well_formed_concat(acc.tokens, block.tokens);
                        } else {
                            lemma_well_formed_concat(acc.tokens, supplied(cx.scope.children));
                        }
                    },
                    Err(_) => {},
                }
            },
            Err(_) => {},
        }
    }
}

/// The tokens of a document are well-formed.
pub proof fn lemma_document_shape(node: ParseNode, n: int, state: StateModel, cx: Context)
    requires
        shaped(node),
        fit(cx),
    ensures
        match document_prefix(node, n, state, cx) {
            Ok(lexed) => well_formed(lexed.tokens),
            Err(_) => true,
        },
    decreases cx.depth, node, n,
{
    if 0 < n <= node.children.len() {
        lemma_document_shape(node, n - 1, state, cx);
        match document_prefix(node, n - 1, state, cx) {
            Ok(acc) => {
                let part = node.children[n - 1];
                lemma_parts_are_shaped(node, n - 1);
                match document_prefix(node, n, state, cx) {
                    Ok(next) => {
                        if part.rule == Rule::Block {
                            lemma_block_shape(part, part.children.len() as int, acc.state, cx);
                            let block = block_prefix(
                                part,
                                part.children.len() as int,
                                acc.state,
                                cx,
                            )->Ok_0;
                            lemma_well_formed_concat(acc.tokens, block.tokens);
                        }
                    },
                    Err(_) => {},
                }
            },
            Err(_) => {},
        }
    }
}

/// The lexer keeps the shape of elements: from a document and templates
/// whose elements have their parts in the grammar's order, it yields tokens
/// in which every element has one opening token, at most one class list,
/// at most one attribute list and at most one of inline content and child
/// tokens, at every depth.
pub proof fn law_lexed_tokens_are_well_formed(
    root: ParseNode,
    state: StateModel,
    cx: Context,
    lexed: Lexed,
)
    requires
        shaped(root),
        fit(cx),
        lexed_document(root, state, cx) == Ok::<_, ErrorModel>(lexed),
    ensures
        well_formed(lexed.tokens),
{
    lemma_document_shape(root, root.children.len() as int, state, cx);
}

} // verus!
