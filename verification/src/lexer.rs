//! From the parse tree to tokens.
//!
//! The lexer walks a document's parse tree in source order. It names every
//! element's parts as tokens, counts pages, collects the table of contents,
//! fills the placeholders of the scope it reads in, and expands each template
//! reference in place. What it yields is defined here as a function of the
//! tree, the state before, the scope and the template store; the executable
//! lexer is proved to compute exactly that.

use vstd::prelude::*;
use crate::error::{failure, inside, CompileError, ErrorKind, ErrorModel};
use crate::generator::limit_exceeded;
use crate::parser::DocumentParser;
use crate::state::{LexerState, Scope, ScopeModel, StateModel};
use crate::substitute::{replace_template_attributes, substituted};
use crate::template::{
    find_template, template_index, template_path, template_path_of, Template, TemplateSource,
};
use crate::text::{escape_quotes, quotes_escaped, same_text};
use crate::token::{
    copy_strings, copy_tokens, lemma_children_model, lemma_model_concat, lemma_model_push,
    set_attribute, with_attribute, Attributes, Token, TokenModel,
};
use crate::tree::{ParseNode, Rule};

verus! {

/// What a node is read in: the scope of the template body it belongs to, the
/// templates that can be referenced, and how many more levels of template
/// expansion are allowed below it.
pub struct Context {
    pub scope: ScopeModel,
    pub store: Seq<Template>,
    pub depth: nat,
}

/// What lexing yields: the tokens, and the compiler state afterwards.
pub struct Lexed {
    pub tokens: Seq<TokenModel>,
    pub state: StateModel,
}

/// The class that begins a page: `page`.
pub open spec fn page_class() -> Seq<char> {
    seq!['p', 'a', 'g', 'e']
}

/// The class that marks a heading for the table of contents: `toc`.
pub open spec fn toc_class() -> Seq<char> {
    seq!['t', 'o', 'c']
}

/// What a slot holds, where the caller supplied it; nothing otherwise.
pub open spec fn supplied<T>(slot: Option<Seq<T>>) -> Seq<T> {
    match slot {
        Some(items) => items,
        None => Seq::empty(),
    }
}

/// The classes that the first `n` parts of a class list name. A part of the
/// rule `own` names itself; the marker for the caller's classes stands for
/// all of them.
pub open spec fn class_list_prefix(node: ParseNode, n: int, own: Rule, scope: ScopeModel) -> Result<
    Seq<Seq<char>>,
    ErrorModel,
>
    decreases n,
{
    if n <= 0 || n > node.children.len() {
        Ok(Seq::empty())
    } else {
        match class_list_prefix(node, n - 1, own, scope) {
            Err(e) => Err(e),
            Ok(classes) => {
                let part = node.children[n - 1];
                if part.rule == own {
                    Ok(classes.push(part.text@))
                } else if part.rule == Rule::ExtendClasses {
                    match scope.classes {
                        Some(more) => Ok(classes + more),
                        None => Err(failure(ErrorKind::UndefinedTemplateSlot, part.text@)),
                    }
                } else {
                    Err(failure(ErrorKind::UnexpectedNode, part.text@))
                }
            },
        }
    }
}

/// The classes that a class list names.
pub open spec fn class_list(node: ParseNode, own: Rule, scope: ScopeModel) -> Result<
    Seq<Seq<char>>,
    ErrorModel,
> {
    class_list_prefix(node, node.children.len() as int, own, scope)
}

/// The key and the written value of an attribute node: a key part, then a
/// value part. `None` for a node of any other shape.
pub open spec fn attribute_of(part: ParseNode) -> Option<(Seq<char>, Seq<char>)> {
    if part.rule == Rule::Attribute && part.children.len() >= 2 && part.children[0].rule
        == Rule::AttributeKey && part.children[1].rule == Rule::AttributeValue {
        Some((part.children[0].text@, part.children[1].text@))
    } else {
        None
    }
}

/// The value of an attribute as the tokens carry it: the written value, with
/// the placeholders of `bindings` filled where there are bindings, and each
/// backslash-quote pair as a character reference.
pub open spec fn attribute_value(
    written: Seq<char>,
    bindings: Option<Seq<(Seq<char>, Seq<char>)>>,
) -> Seq<char> {
    match bindings {
        Some(attrs) => quotes_escaped(substituted(written, attrs)),
        None => quotes_escaped(written),
    }
}

/// `start` with the first `n` attributes of an attribute list bound, each in
/// its turn.
pub open spec fn attribute_list_prefix(
    node: ParseNode,
    n: int,
    start: Seq<(Seq<char>, Seq<char>)>,
    bindings: Option<Seq<(Seq<char>, Seq<char>)>>,
) -> Result<Seq<(Seq<char>, Seq<char>)>, ErrorModel>
    decreases n,
{
    if n <= 0 || n > node.children.len() {
        Ok(start)
    } else {
        match attribute_list_prefix(node, n - 1, start, bindings) {
            Err(e) => Err(e),
            Ok(attributes) => {
                let part = node.children[n - 1];
                match attribute_of(part) {
                    Some((key, written)) => Ok(
                        with_attribute(attributes, key, attribute_value(written, bindings)),
                    ),
                    None => Err(failure(ErrorKind::UnexpectedNode, part.text@)),
                }
            },
        }
    }
}

/// `start` with the attributes of an attribute list bound.
pub open spec fn attribute_list(
    node: ParseNode,
    start: Seq<(Seq<char>, Seq<char>)>,
    bindings: Option<Seq<(Seq<char>, Seq<char>)>>,
) -> Result<Seq<(Seq<char>, Seq<char>)>, ErrorModel> {
    attribute_list_prefix(node, node.children.len() as int, start, bindings)
}

/// Where the lexer stands inside an element: the tokens and the state so
/// far, and whether the element's inline content belongs in the table of
/// contents.
pub struct ElementAcc {
    pub tokens: Seq<TokenModel>,
    pub state: StateModel,
    pub toc: bool,
}

/// An element's standing after its class list `classes`: a `toc` class marks
/// the element for the table of contents, and a `page` class begins a page
/// at once.
pub open spec fn after_classes(acc: ElementAcc, classes: Seq<Seq<char>>) -> Result<
    ElementAcc,
    ErrorModel,
> {
    let tokens = acc.tokens.push(TokenModel::ElementClasses { classes });
    let toc = acc.toc || classes.contains(toc_class());
    if !classes.contains(page_class()) {
        Ok(ElementAcc { tokens, state: acc.state, toc })
    } else if acc.state.page_number < usize::MAX {
        Ok(
            ElementAcc {
                tokens,
                state: StateModel {
                    page_number: (acc.state.page_number + 1) as usize,
                    toc: acc.state.toc,
                },
                toc,
            },
        )
    } else {
        Err(failure(ErrorKind::LimitExceeded, Seq::empty()))
    }
}

/// An element's standing after its inline content `content`: the content
/// becomes a token, and an entry of the table of contents, on the current
/// page, where the element is marked for it.
pub open spec fn after_content(acc: ElementAcc, content: Seq<char>) -> ElementAcc {
    ElementAcc {
        tokens: acc.tokens.push(TokenModel::InlineContent { content }),
        state: if acc.toc {
            StateModel {
                page_number: acc.state.page_number,
                toc: acc.state.toc.push((content, acc.state.page_number)),
            }
        } else {
            acc.state
        },
        toc: acc.toc,
    }
}

/// What a template reference has supplied so far: the template it names,
/// the scope for the template's body, and the state after the caller's own
/// children were read.
pub struct Invocation {
    pub template: Option<int>,
    pub path: Seq<char>,
    pub scope: ScopeModel,
    pub state: StateModel,
}

/// The lexer's standing after the first `n` parts of an element.
pub open spec fn element_prefix(node: ParseNode, n: int, state: StateModel, cx: Context) -> Result<
    ElementAcc,
    ErrorModel,
>
    decreases cx.depth, node, n,
{
    if n <= 0 || n > node.children.len() {
        Ok(ElementAcc { tokens: Seq::empty(), state, toc: false })
    } else {
        match element_prefix(node, n - 1, state, cx) {
            Err(e) => Err(e),
            Ok(acc) => {
                let part = node.children[n - 1];
                match part.rule {
                    Rule::BlockElementName => Ok(
                        ElementAcc {
                            tokens: acc.tokens.push(TokenModel::ElementOpen { name: part.text@ }),
                            state: acc.state,
                            toc: false,
                        },
                    ),
                    Rule::BlockElementClasses => match class_list(
                        part,
                        Rule::BlockElementClass,
                        cx.scope,
                    ) {
                        Err(e) => Err(e),
                        Ok(classes) => after_classes(acc, classes),
                    },
                    Rule::BlockElementAttributes => match attribute_list(
                        part,
                        Seq::empty(),
                        Some(cx.scope.attributes),
                    ) {
                        Err(e) => Err(e),
                        Ok(attributes) => Ok(
                            ElementAcc {
                                tokens: acc.tokens.push(
                                    TokenModel::ElementAttributes { attributes },
                                ),
                                state: acc.state,
                                toc: acc.toc,
                            },
                        ),
                    },
                    Rule::BlockElementContent => Ok(
                        after_content(acc, substituted(part.text@, cx.scope.attributes)),
                    ),
                    Rule::BlockChildren => match children_prefix(
                        part,
                        part.children.len() as int,
                        acc.state,
                        cx,
                    ) {
                        Err(e) => Err(e),
                        Ok(below) => Ok(
                            ElementAcc {
                                tokens: acc.tokens.push(
                                    TokenModel::ChildTokens { children: below.tokens },
                                ),
                                state: below.state,
                                toc: acc.toc,
                            },
                        ),
                    },
                    _ => Err(failure(ErrorKind::UnexpectedNode, part.text@)),
                }
            },
        }
    }
}

/// The tokens of an element, and the state after it.
pub open spec fn lexed_element(node: ParseNode, state: StateModel, cx: Context) -> Result<
    Lexed,
    ErrorModel,
> {
    match element_prefix(node, node.children.len() as int, state, cx) {
        Err(e) => Err(e),
        Ok(acc) => Ok(Lexed { tokens: acc.tokens, state: acc.state }),
    }
}

/// What the first `n` parts of a template reference supply.
pub open spec fn invocation_prefix(
    node: ParseNode,
    n: int,
    state: StateModel,
    cx: Context,
) -> Result<Invocation, ErrorModel>
    decreases cx.depth, node, n,
{
    if n <= 0 || n > node.children.len() {
        Ok(
            Invocation {
                template: None,
                path: Seq::empty(),
                scope: ScopeModel { children: None, classes: None, attributes: Seq::empty() },
                state,
            },
        )
    } else {
        match invocation_prefix(node, n - 1, state, cx) {
            Err(e) => Err(e),
            Ok(acc) => {
                let part = node.children[n - 1];
                match part.rule {
                    Rule::BlockTemplateName => {
                        let path = template_path_of(part.text@);
                        match template_index(cx.store, path) {
                            Some(i) => Ok(Invocation { template: Some(i), path, ..acc }),
                            None => Err(failure(ErrorKind::TemplateNotFound, path)),
                        }
                    },
                    Rule::BlockTemplateClasses => match class_list(
                        part,
                        Rule::BlockTemplateClass,
                        cx.scope,
                    ) {
                        Err(e) => Err(e),
                        Ok(classes) => Ok(
                            Invocation {
                                scope: ScopeModel {
                                    classes: Some(supplied(acc.scope.classes) + classes),
                                    ..acc.scope
                                },
                                ..acc
                            },
                        ),
                    },
                    Rule::BlockTemplateAttributes => match attribute_list(
                        part,
                        acc.scope.attributes,
                        None,
                    ) {
                        Err(e) => Err(e),
                        Ok(attributes) => Ok(
                            Invocation { scope: ScopeModel { attributes, ..acc.scope }, ..acc },
                        ),
                    },
                    Rule::BlockChildren => match children_prefix(
                        part,
                        part.children.len() as int,
                        acc.state,
                        cx,
                    ) {
                        Err(e) => Err(e),
                        Ok(below) => Ok(
                            Invocation {
                                scope: ScopeModel {
                                    children: Some(supplied(acc.scope.children) + below.tokens),
                                    ..acc.scope
                                },
                                state: below.state,
                                ..acc
                            },
                        ),
                    },
                    Rule::BlockTemplateContent => Ok(
                        Invocation {
                            scope: ScopeModel {
                                children: Some(
                                    supplied(acc.scope.children).push(
                                        TokenModel::TextLine {
                                            content: substituted(part.text@, cx.scope.attributes),
                                        },
                                    ),
                                ),
                                ..acc.scope
                            },
                            ..acc
                        },
                    ),
                    _ => Err(failure(ErrorKind::UnexpectedNode, part.text@)),
                }
            },
        }
    }
}

/// The tokens that a template reference expands to, and the state after it.
///
/// The template's body is read in the scope that the reference supplies and
/// in no other, one level of expansion deeper, from the caller's page number
/// on. The caller's state afterwards has the body's page number, and the
/// body's table of contents after its own. A failure inside the body is
/// reported with the template's path in front of its chain.
pub open spec fn lexed_template(node: ParseNode, state: StateModel, cx: Context) -> Result<
    Lexed,
    ErrorModel,
>
    decreases cx.depth, node, node.children.len() + 1,
{
    match invocation_prefix(node, node.children.len() as int, state, cx) {
        Err(e) => Err(e),
        Ok(inv) => match inv.template {
            None => Err(failure(ErrorKind::UnexpectedNode, node.text@)),
            Some(i) => if cx.depth == 0 {
                Err(failure(ErrorKind::LimitExceeded, inv.path))
            } else {
                match cx.store[i].source {
                    TemplateSource::Unparsable(complaint) => Err(
                        inside(inv.path, failure(ErrorKind::Syntax, complaint@)),
                    ),
                    TemplateSource::Parsed(root) => match document_prefix(
                        root,
                        root.children.len() as int,
                        StateModel { page_number: inv.state.page_number, toc: Seq::empty() },
                        Context { scope: inv.scope, store: cx.store, depth: (cx.depth - 1) as nat },
                    ) {
                        Err(e) => Err(inside(inv.path, e)),
                        Ok(body) => Ok(
                            Lexed {
                                tokens: body.tokens,
                                state: StateModel {
                                    page_number: body.state.page_number,
                                    toc: inv.state.toc + body.state.toc,
                                },
                            },
                        ),
                    },
                }
            },
        },
    }
}

/// The tokens of the first `n` parts of a block, and the state after them.
pub open spec fn block_prefix(node: ParseNode, n: int, state: StateModel, cx: Context) -> Result<
    Lexed,
    ErrorModel,
>
    decreases cx.depth, node, n,
{
    if n <= 0 || n > node.children.len() {
        Ok(Lexed { tokens: Seq::empty(), state })
    } else {
        match block_prefix(node, n - 1, state, cx) {
            Err(e) => Err(e),
            Ok(acc) => {
                let part = node.children[n - 1];
                match part.rule {
                    Rule::BlockElement => match element_prefix(
                        part,
                        part.children.len() as int,
                        acc.state,
                        cx,
                    ) {
                        Err(e) => Err(e),
                        Ok(element) => Ok(
                            Lexed { tokens: acc.tokens + element.tokens, state: element.state },
                        ),
                    },
                    Rule::BlockTemplate => match lexed_template(part, acc.state, cx) {
                        Err(e) => Err(e),
                        Ok(expansion) => Ok(
                            Lexed { tokens: acc.tokens + expansion.tokens, state: expansion.state },
                        ),
                    },
                    Rule::BlockContentLine => Ok(
                        Lexed {
                            tokens: acc.tokens.push(
                                TokenModel::TextLine {
                                    content: substituted(part.text@, cx.scope.attributes),
                                },
                            ),
                            state: acc.state,
                        },
                    ),
                    Rule::BlockContentEmptyLine => Ok(
                        Lexed { tokens: acc.tokens.push(TokenModel::BlankLine), state: acc.state },
                    ),
                    _ => Err(failure(ErrorKind::UnexpectedNode, part.text@)),
                }
            },
        }
    }
}

/// The tokens of a block, and the state after it.
pub open spec fn lexed_block(node: ParseNode, state: StateModel, cx: Context) -> Result<
    Lexed,
    ErrorModel,
> {
    block_prefix(node, node.children.len() as int, state, cx)
}

/// The tokens of the first `n` parts of an element's or a reference's child
/// block, and the state after them. The marker for the caller's children
/// stands for exactly the tokens that the scope holds for it.
pub open spec fn children_prefix(node: ParseNode, n: int, state: StateModel, cx: Context) -> Result<
    Lexed,
    ErrorModel,
>
    decreases cx.depth, node, n,
{
    if n <= 0 || n > node.children.len() {
        Ok(Lexed { tokens: Seq::empty(), state })
    } else {
        match children_prefix(node, n - 1, state, cx) {
            Err(e) => Err(e),
            Ok(acc) => {
                let part = node.children[n - 1];
                match part.rule {
                    Rule::Block => match block_prefix(
                        part,
                        part.children.len() as int,
                        acc.state,
                        cx,
                    ) {
                        Err(e) => Err(e),
                        Ok(block) => Ok(
                            Lexed { tokens: acc.tokens + block.tokens, state: block.state },
                        ),
                    },
                    Rule::Ellipsis => match cx.scope.children {
                        Some(tokens) => Ok(
                            Lexed { tokens: acc.tokens + tokens, state: acc.state },
                        ),
                        None => Err(failure(ErrorKind::UndefinedTemplateSlot, part.text@)),
                    },
                    _ => Err(failure(ErrorKind::UnexpectedNode, part.text@)),
                }
            },
        }
    }
}

/// The tokens of a child block, and the state after it.
pub open spec fn lexed_children(node: ParseNode, state: StateModel, cx: Context) -> Result<
    Lexed,
    ErrorModel,
> {
    children_prefix(node, node.children.len() as int, state, cx)
}

/// The tokens of the first `n` parts of a document, and the state after
/// them. Declarations and the end-of-input mark yield nothing.
pub open spec fn document_prefix(node: ParseNode, n: int, state: StateModel, cx: Context) -> Result<
    Lexed,
    ErrorModel,
>
    decreases cx.depth, node, n,
{
    if n <= 0 || n > node.children.len() {
        Ok(Lexed { tokens: Seq::empty(), state })
    } else {
        match document_prefix(node, n - 1, state, cx) {
            Err(e) => Err(e),
            Ok(acc) => {
                let part = node.children[n - 1];
                match part.rule {
                    Rule::Block => match block_prefix(
                        part,
                        part.children.len() as int,
                        acc.state,
                        cx,
                    ) {
                        Err(e) => Err(e),
                        Ok(block) => Ok(
                            Lexed { tokens: acc.tokens + block.tokens, state: block.state },
                        ),
                    },
                    Rule::Declaration => Ok(acc),
                    Rule::EndOfInput => Ok(acc),
                    _ => Err(failure(ErrorKind::UnexpectedNode, part.text@)),
                }
            },
        }
    }
}

/// The tokens of a document, and the state after it.
pub open spec fn lexed_document(node: ParseNode, state: StateModel, cx: Context) -> Result<
    Lexed,
    ErrorModel,
> {
    document_prefix(node, node.children.len() as int, state, cx)
}

/// Once a class list has failed, it has failed: reading on changes nothing.
pub proof fn lemma_class_list_fails(node: ParseNode, n: int, m: int, own: Rule, scope: ScopeModel)
    requires
        0 <= n <= m <= node.children.len(),
        class_list_prefix(node, n, own, scope) is Err,
    ensures
        class_list_prefix(node, m, own, scope) == class_list_prefix(node, n, own, scope),
    decreases m - n,
{
    if n < m {
        lemma_class_list_fails(node, n, m - 1, own, scope);
    }
}

/// Once an attribute list has failed, it has failed.
pub proof fn lemma_attribute_list_fails(
    node: ParseNode,
    n: int,
    m: int,
    start: Seq<(Seq<char>, Seq<char>)>,
    bindings: Option<Seq<(Seq<char>, Seq<char>)>>,
)
    requires
        0 <= n <= m <= node.children.len(),
        attribute_list_prefix(node, n, start, bindings) is Err,
    ensures
        attribute_list_prefix(node, m, start, bindings) == attribute_list_prefix(
            node,
            n,
            start,
            bindings,
        ),
    decreases m - n,
{
    if n < m {
        lemma_attribute_list_fails(node, n, m - 1, start, bindings);
    }
}

/// Once an element has failed, it has failed.
pub proof fn lemma_element_fails(node: ParseNode, n: int, m: int, state: StateModel, cx: Context)
    requires
        0 <= n <= m <= node.children.len(),
        element_prefix(node, n, state, cx) is Err,
    ensures
        element_prefix(node, m, state, cx) == element_prefix(node, n, state, cx),
    decreases m - n,
{
    if n < m {
        lemma_element_fails(node, n, m - 1, state, cx);
    }
}

/// Once a template reference has failed, it has failed.
pub proof fn lemma_invocation_fails(node: ParseNode, n: int, m: int, state: StateModel, cx: Context)
    requires
        0 <= n <= m <= node.children.len(),
        invocation_prefix(node, n, state, cx) is Err,
    ensures
        invocation_prefix(node, m, state, cx) == invocation_prefix(node, n, state, cx),
    decreases m - n,
{
    if n < m {
        lemma_invocation_fails(node, n, m - 1, state, cx);
    }
}

/// Once a block has failed, it has failed.
pub proof fn lemma_block_fails(node: ParseNode, n: int, m: int, state: StateModel, cx: Context)
    requires
        0 <= n <= m <= node.children.len(),
        block_prefix(node, n, state, cx) is Err,
    ensures
        block_prefix(node, m, state, cx) == block_prefix(node, n, state, cx),
    decreases m - n,
{
    if n < m {
        lemma_block_fails(node, n, m - 1, state, cx);
    }
}

/// Once a child block has failed, it has failed.
pub proof fn lemma_children_fail(node: ParseNode, n: int, m: int, state: StateModel, cx: Context)
    requires
        0 <= n <= m <= node.children.len(),
        children_prefix(node, n, state, cx) is Err,
    ensures
        children_prefix(node, m, state, cx) == children_prefix(node, n, state, cx),
    decreases m - n,
{
    if n < m {
        lemma_children_fail(node, n, m - 1, state, cx);
    }
}

/// Once a document has failed, it has failed.
pub proof fn lemma_document_fails(node: ParseNode, n: int, m: int, state: StateModel, cx: Context)
    requires
        0 <= n <= m <= node.children.len(),
        document_prefix(node, n, state, cx) is Err,
    ensures
        document_prefix(node, m, state, cx) == document_prefix(node, n, state, cx),
    decreases m - n,
{
    if n < m {
        lemma_document_fails(node, n, m - 1, state, cx);
    }
}

/// The context that the executable lexer's arguments stand for.
pub open spec fn context(scope: ScopeModel, store: Seq<Template>, depth: nat) -> Context {
    Context { scope, store, depth }
}

/// What the executable lexer returned, as a mathematical value.
pub open spec fn outcome(result: Result<(Vec<Token>, LexerState), CompileError>) -> Result<
    Lexed,
    ErrorModel,
> {
    match result {
        Ok((tokens, state)) => Ok(
            Lexed { tokens: tokens.deep_view(), state: state.deep_view() },
        ),
        Err(e) => Err(e.deep_view()),
    }
}

/// Whether `name` is among `classes`.
fn has_class(classes: &Vec<String>, name: &str) -> (found: bool)
    ensures
        found == classes.deep_view().contains(name@),
{
    let mut i: usize = 0;
    while i < classes.len()
        invariant
            i <= classes.len(),
            forall|j: int| 0 <= j < i ==> classes.deep_view()[j] != name@,
        decreases classes.len() - i,
    {
        if same_text(classes[i].as_str(), name) {
            assert(classes.deep_view()[i as int] == name@);
            return true;
        }
        i = i + 1;
    }
    false
}

/// Reads a class list.
fn lex_class_list(
    node: &ParseNode,
    own: Rule,
    scope: &Scope,
) -> (result: Result<Vec<String>, CompileError>)
    ensures
        match result {
            Ok(classes) => class_list(*node, own, scope.deep_view()) == Ok::<_, ErrorModel>(
                classes.deep_view(),
            ),
            Err(e) => class_list(*node, own, scope.deep_view()) == Err::<Seq<Seq<char>>, _>(
                e.deep_view(),
            ),
        },
{
    let mut classes: Vec<String> = Vec::new();
    let mut i: usize = 0;
    assert(classes.deep_view() =~= Seq::empty());
    while i < node.children.len()
        invariant
            i <= node.children.len(),
            class_list_prefix(*node, i as int, own, scope.deep_view()) == Ok::<_, ErrorModel>(
                classes.deep_view(),
            ),
        decreases node.children.len() - i,
    {
        let part = &node.children[i];
        let ghost before = classes;
        if part.rule == own {
            let name = part.text.clone();
            classes.push(name);
            proof {
                lemma_model_push(before, classes, name);
            }
        } else if part.rule == Rule::ExtendClasses {
            match &scope.classes {
                Some(more) => {
                    let mut copy = copy_strings(more);
                    let ghost added = copy;
                    classes.append(&mut copy);
                    proof {
                        lemma_model_concat(classes, before, added);
                    }
                },
                None => {
                    proof {
                        lemma_class_list_fails(
                            *node,
                            i + 1,
                            node.children.len() as int,
                            own,
                            scope.deep_view(),
                        );
                    }
                    return Err(
                        CompileError::new(ErrorKind::UndefinedTemplateSlot, part.text.as_str()),
                    );
                },
            }
        } else {
            proof {
                lemma_class_list_fails(
                    *node,
                    i + 1,
                    node.children.len() as int,
                    own,
                    scope.deep_view(),
                );
            }
            return Err(CompileError::new(ErrorKind::UnexpectedNode, part.text.as_str()));
        }
        i = i + 1;
    }
    Ok(classes)
}

/// Reads the key and the written value of an attribute node.
fn lex_attribute(part: &ParseNode) -> (pair: Option<(&String, &String)>)
    ensures
        match pair {
            Some((key, written)) => attribute_of(*part) == Some((key@, written@)),
            None => attribute_of(*part) is None,
        },
{
    if part.rule == Rule::Attribute && part.children.len() >= 2 && part.children[0].rule
        == Rule::AttributeKey && part.children[1].rule == Rule::AttributeValue {
        Some((&part.children[0].text, &part.children[1].text))
    } else {
        None
    }
}

/// Binds the attributes of an attribute list, one after the other, on top
/// of `start`.
fn lex_attribute_list(
    node: &ParseNode,
    start: Attributes,
    bindings: Option<&Attributes>,
) -> (result: Result<Attributes, CompileError>)
    ensures
        match result {
            Ok(attributes) => attribute_list(*node, start.deep_view(), bindings.deep_view())
                == Ok::<_, ErrorModel>(attributes.deep_view()),
            Err(e) => attribute_list(*node, start.deep_view(), bindings.deep_view()) == Err::<
                Seq<(Seq<char>, Seq<char>)>,
                _,
            >(e.deep_view()),
        },
{
    let mut attributes = start;
    let mut i: usize = 0;
    while i < node.children.len()
        invariant
            i <= node.children.len(),
            attribute_list_prefix(*node, i as int, start.deep_view(), bindings.deep_view())
                == Ok::<_, ErrorModel>(attributes.deep_view()),
        decreases node.children.len() - i,
    {
        let part = &node.children[i];
        match lex_attribute(part) {
            Some((key, written)) => {
                let value = match bindings {
                    Some(attrs) => {
                        let filled = replace_template_attributes(written.as_str(), attrs);
                        escape_quotes(filled.as_str())
                    },
                    None => escape_quotes(written.as_str()),
                };
                set_attribute(&mut attributes, key.clone(), value);
            },
            None => {
                proof {
                    lemma_attribute_list_fails(
                        *node,
                        i + 1,
                        node.children.len() as int,
                        start.deep_view(),
                        bindings.deep_view(),
                    );
                }
                return Err(CompileError::new(ErrorKind::UnexpectedNode, part.text.as_str()));
            },
        }
        i = i + 1;
    }
    Ok(attributes)
}

/// Whether a class list marks its element for the table of contents.
fn marks_heading(classes: &Vec<String>) -> (yes: bool)
    ensures
        yes == classes.deep_view().contains(toc_class()),
{
    proof {
        reveal_strlit("toc");
    }
    assert("toc"@ =~= toc_class());
    has_class(classes, "toc")
}

/// Whether a class list begins a page.
fn begins_page(classes: &Vec<String>) -> (yes: bool)
    ensures
        yes == classes.deep_view().contains(page_class()),
{
    proof {
        reveal_strlit("page");
    }
    assert("page"@ =~= page_class());
    has_class(classes, "page")
}

/// The failure for a node that the grammar never puts where it stands.
fn unexpected(part: &ParseNode) -> (e: CompileError)
    ensures
        e.deep_view() == failure(ErrorKind::UnexpectedNode, part.text@),
{
    CompileError::new(ErrorKind::UnexpectedNode, part.text.as_str())
}

/// Adds `more` at the end of what the slot holds.
fn extend_slot<T: DeepView>(slot: Option<Vec<T>>, more: Vec<T>) -> (filled: Option<Vec<T>>)
    ensures
        filled.deep_view() == Some(supplied(slot.deep_view()) + more.deep_view()),
{
    let mut items = match slot {
        Some(items) => items,
        None => Vec::new(),
    };
    let ghost before = items;
    assert(before.deep_view() =~= supplied(slot.deep_view()));
    let mut more = more;
    let ghost added = more;
    items.append(&mut more);
    proof {
        lemma_model_concat(items, before, added);
    }
    Some(items)
}

impl DocumentParser {
    /// Reads an element: its name, classes, attributes and content become
    /// tokens, in the order they were written.
    pub fn lex_html_block_element(
        node: &ParseNode,
        state: LexerState,
        scope: &Scope,
        store: &Vec<Template>,
        depth: usize,
    ) -> (result: Result<(Vec<Token>, LexerState), CompileError>)
        ensures
            outcome(result) == lexed_element(
                *node,
                state.deep_view(),
                context(scope.deep_view(), store@, depth as nat),
            ),
        decreases depth, node,
    {
        let ghost cx = context(scope.deep_view(), store@, depth as nat);
        let ghost start = state.deep_view();
        let ghost len = node.children.len() as int;
        let mut tokens: Vec<Token> = Vec::new();
        let mut current = state;
        let mut toc = false;
        let mut i: usize = 0;
        assert(tokens.deep_view() =~= Seq::empty());
        while i < node.children.len()
            invariant
                i <= node.children.len(),
                len == node.children.len(),
                cx == context(scope.deep_view(), store@, depth as nat),
                start == state.deep_view(),
                element_prefix(*node, i as int, start, cx) == Ok::<_, ErrorModel>(
                    ElementAcc { tokens: tokens.deep_view(), state: current.deep_view(), toc },
                ),
            decreases node.children.len() - i,
        {
            let part = &node.children[i];
            let ghost before = tokens;
            assert(decreases_to!(node.children => node.children[i as int]));
            match part.rule {
                Rule::BlockElementName => {
                    let token = Token::ElementOpen { name: part.text.clone() };
                    tokens.push(token);
                    proof {
                        lemma_model_push(before, tokens, token);
                    }
                    toc = false;
                },
                Rule::BlockElementClasses => {
                    let classes = match lex_class_list(part, Rule::BlockElementClass, scope) {
                        Ok(classes) => classes,
                        Err(e) => {
                            proof {
                                lemma_element_fails(*node, i + 1, len, start, cx);
                            }
                            return Err(e);
                        },
                    };
                    if marks_heading(&classes) {
                        toc = true;
                    }
                    if begins_page(&classes) {
                        if current.page_number == usize::MAX {
                            proof {
                                lemma_element_fails(*node, i + 1, len, start, cx);
                            }
                            return Err(limit_exceeded());
                        }
                        current.page_number = current.page_number + 1;
                    }
                    let token = Token::ElementClasses { classes };
                    tokens.push(token);
                    proof {
                        lemma_model_push(before, tokens, token);
                    }
                },
                Rule::BlockElementAttributes => {
                    let none: Attributes = Vec::new();
                    assert(none.deep_view() =~= Seq::empty());
                    let attributes = match lex_attribute_list(
                        part,
                        none,
                        Some(&scope.attributes),
                    ) {
                        Ok(attributes) => attributes,
                        Err(e) => {
                            proof {
                                lemma_element_fails(*node, i + 1, len, start, cx);
                            }
                            return Err(e);
                        },
                    };
                    let token = Token::ElementAttributes { attributes };
                    tokens.push(token);
                    proof {
                        lemma_model_push(before, tokens, token);
                    }
                },
                Rule::BlockElementContent => {
                    let content = replace_template_attributes(
                        part.text.as_str(),
                        &scope.attributes,
                    );
                    if toc {
                        let ghost listed = current.toc;
                        let entry = (content.clone(), current.page_number);
                        current.toc.push(entry);
                        proof {
                            lemma_model_push(listed, current.toc, entry);
                        }
                    }
                    let token = Token::InlineContent { content };
                    tokens.push(token);
                    proof {
                        lemma_model_push(before, tokens, token);
                    }
                },
                Rule::BlockChildren => {
                    let (below, after) = match Self::lex_html_block_children(
                        part,
                        current,
                        scope,
                        store,
                        depth,
                    ) {
                        Ok(lexed) => lexed,
                        Err(e) => {
                            proof {
                                lemma_element_fails(*node, i + 1, len, start, cx);
                            }
                            return Err(e);
                        },
                    };
                    current = after;
                    proof {
                        lemma_children_model(below);
                    }
                    let token = Token::ChildTokens { children: below };
                    tokens.push(token);
                    proof {
                        lemma_model_push(before, tokens, token);
                    }
                },
                _ => {
                    proof {
                        lemma_element_fails(*node, i + 1, len, start, cx);
                    }
                    return Err(unexpected(part));
                },
            }
            i = i + 1;
        }
        Ok((tokens, current))
    }

    /// Reads the child block of an element or of a template reference.
    pub fn lex_html_block_children(
        node: &ParseNode,
        state: LexerState,
        scope: &Scope,
        store: &Vec<Template>,
        depth: usize,
    ) -> (result: Result<(Vec<Token>, LexerState), CompileError>)
        ensures
            outcome(result) == lexed_children(
                *node,
                state.deep_view(),
                context(scope.deep_view(), store@, depth as nat),
            ),
        decreases depth, node,
    {
        let ghost cx = context(scope.deep_view(), store@, depth as nat);
        let ghost start = state.deep_view();
        let ghost len = node.children.len() as int;
        let mut tokens: Vec<Token> = Vec::new();
        let mut current = state;
        let mut i: usize = 0;
        assert(tokens.deep_view() =~= Seq::empty());
        while i < node.children.len()
            invariant
                i <= node.children.len(),
                len == node.children.len(),
                cx == context(scope.deep_view(), store@, depth as nat),
                start == state.deep_view(),
                children_prefix(*node, i as int, start, cx) == Ok::<_, ErrorModel>(
                    Lexed { tokens: tokens.deep_view(), state: current.deep_view() },
                ),
            decreases node.children.len() - i,
        {
            let part = &node.children[i];
            let ghost before = tokens;
            assert(decreases_to!(node.children => node.children[i as int]));
            match part.rule {
                Rule::Block => {
                    let (mut more, after) = match Self::lex_html_block(
                        part,
                        current,
                        scope,
                        store,
                        depth,
                    ) {
                        Ok(lexed) => lexed,
                        Err(e) => {
                            proof {
                                lemma_children_fail(*node, i + 1, len, start, cx);
                            }
                            return Err(e);
                        },
                    };
                    current = after;
                    let ghost added = more;
                    tokens.append(&mut more);
                    proof {
                        lemma_model_concat(tokens, before, added);
                    }
                },
                Rule::Ellipsis => {
                    match &scope.children {
                        Some(given) => {
                            let mut more = copy_tokens(given);
                            let ghost added = more;
                            tokens.append(&mut more);
                            proof {
                                lemma_model_concat(tokens, before, added);
                            }
                        },
                        None => {
                            proof {
                                lemma_children_fail(*node, i + 1, len, start, cx);
                            }
                            return Err(
                                CompileError::new(
                                    ErrorKind::UndefinedTemplateSlot,
                                    part.text.as_str(),
                                ),
                            );
                        },
                    }
                },
                _ => {
                    proof {
                        lemma_children_fail(*node, i + 1, len, start, cx);
                    }
                    return Err(unexpected(part));
                },
            }
            i = i + 1;
        }
        Ok((tokens, current))
    }

    /// Reads a block: elements, template references and lines of text.
    pub fn lex_html_block(
        node: &ParseNode,
        state: LexerState,
        scope: &Scope,
        store: &Vec<Template>,
        depth: usize,
    ) -> (result: Result<(Vec<Token>, LexerState), CompileError>)
        ensures
            outcome(result) == lexed_block(
                *node,
                state.deep_view(),
                context(scope.deep_view(), store@, depth as nat),
            ),
        decreases depth, node,
    {
        let ghost cx = context(scope.deep_view(), store@, depth as nat);
        let ghost start = state.deep_view();
        let ghost len = node.children.len() as int;
        let mut tokens: Vec<Token> = Vec::new();
        let mut current = state;
        let mut i: usize = 0;
        assert(tokens.deep_view() =~= Seq::empty());
        while i < node.children.len()
            invariant
                i <= node.children.len(),
                len == node.children.len(),
                cx == context(scope.deep_view(), store@, depth as nat),
                start == state.deep_view(),
                block_prefix(*node, i as int, start, cx) == Ok::<_, ErrorModel>(
                    Lexed { tokens: tokens.deep_view(), state: current.deep_view() },
                ),
            decreases node.children.len() - i,
        {
            let part = &node.children[i];
            let ghost before = tokens;
            assert(decreases_to!(node.children => node.children[i as int]));
            match part.rule {
                Rule::BlockElement => {
                    let (mut more, after) = match Self::lex_html_block_element(
                        part,
                        current,
                        scope,
                        store,
                        depth,
                    ) {
                        Ok(lexed) => lexed,
                        Err(e) => {
                            proof {
                                lemma_block_fails(*node, i + 1, len, start, cx);
                            }
                            return Err(e);
                        },
                    };
                    current = after;
                    let ghost added = more;
                    tokens.append(&mut more);
                    proof {
                        lemma_model_concat(tokens, before, added);
                    }
                },
                Rule::BlockTemplate => {
                    let (mut more, after) = match Self::lex_html_block_template(
                        part,
                        current,
                        scope,
                        store,
                        depth,
                    ) {
                        Ok(lexed) => lexed,
                        Err(e) => {
                            proof {
                                lemma_block_fails(*node, i + 1, len, start, cx);
                            }
                            return Err(e);
                        },
                    };
                    current = after;
                    let ghost added = more;
                    tokens.append(&mut more);
                    proof {
                        lemma_model_concat(tokens, before, added);
                    }
                },
                Rule::BlockContentLine => {
                    let token = Token::TextLine {
                        content: replace_template_attributes(
                            part.text.as_str(),
                            &scope.attributes,
                        ),
                    };
                    tokens.push(token);
                    proof {
                        lemma_model_push(before, tokens, token);
                    }
                },
                Rule::BlockContentEmptyLine => {
                    let token = Token::BlankLine;
                    tokens.push(token);
                    proof {
                        lemma_model_push(before, tokens, token);
                    }
                },
                _ => {
                    proof {
                        lemma_block_fails(*node, i + 1, len, start, cx);
                    }
                    return Err(unexpected(part));
                },
            }
            i = i + 1;
        }
        Ok((tokens, current))
    }

    /// Reads a document: its blocks, one after the other.
    pub fn lex_html_document(
        node: &ParseNode,
        state: LexerState,
        scope: &Scope,
        store: &Vec<Template>,
        depth: usize,
    ) -> (result: Result<(Vec<Token>, LexerState), CompileError>)
        ensures
            outcome(result) == lexed_document(
                *node,
                state.deep_view(),
                context(scope.deep_view(), store@, depth as nat),
            ),
        decreases depth, node,
    {
        let ghost cx = context(scope.deep_view(), store@, depth as nat);
        let ghost start = state.deep_view();
        let ghost len = node.children.len() as int;
        let mut tokens: Vec<Token> = Vec::new();
        let mut current = state;
        let mut i: usize = 0;
        assert(tokens.deep_view() =~= Seq::empty());
        while i < node.children.len()
            invariant
                i <= node.children.len(),
                len == node.children.len(),
                cx == context(scope.deep_view(), store@, depth as nat),
                start == state.deep_view(),
                document_prefix(*node, i as int, start, cx) == Ok::<_, ErrorModel>(
                    Lexed { tokens: tokens.deep_view(), state: current.deep_view() },
                ),
            decreases node.children.len() - i,
        {
            let part = &node.children[i];
            let ghost before = tokens;
            assert(decreases_to!(node.children => node.children[i as int]));
            match part.rule {
                Rule::Block => {
                    let (mut more, after) = match Self::lex_html_block(
                        part,
                        current,
                        scope,
                        store,
                        depth,
                    ) {
                        Ok(lexed) => lexed,
                        Err(e) => {
                            proof {
                                lemma_document_fails(*node, i + 1, len, start, cx);
                            }
                            return Err(e);
                        },
                    };
                    current = after;
                    let ghost added = more;
                    tokens.append(&mut more);
                    proof {
                        lemma_model_concat(tokens, before, added);
                    }
                },
                Rule::Declaration => {},
                Rule::EndOfInput => {},
                _ => {
                    proof {
                        lemma_document_fails(*node, i + 1, len, start, cx);
                    }
                    return Err(unexpected(part));
                },
            }
            i = i + 1;
        }
        Ok((tokens, current))
    }

    /// Expands a template reference: reads what the reference supplies, then
    /// reads the template's body in the scope made of it.
    pub fn lex_html_block_template(
        node: &ParseNode,
        state: LexerState,
        scope: &Scope,
        store: &Vec<Template>,
        depth: usize,
    ) -> (result: Result<(Vec<Token>, LexerState), CompileError>)
        ensures
            outcome(result) == lexed_template(
                *node,
                state.deep_view(),
                context(scope.deep_view(), store@, depth as nat),
            ),
        decreases depth, node,
    {
        let ghost cx = context(scope.deep_view(), store@, depth as nat);
        let ghost start = state.deep_view();
        let ghost len = node.children.len() as int;
        let mut template: Option<usize> = None;
        let mut path = String::new();
        let mut given = Scope::root();
        let mut current = state;
        let mut i: usize = 0;
        while i < node.children.len()
            invariant
                i <= node.children.len(),
                len == node.children.len(),
                cx == context(scope.deep_view(), store@, depth as nat),
                start == state.deep_view(),
                match template {
                    Some(at) => at < store.len(),
                    None => true,
                },
                invocation_prefix(*node, i as int, start, cx) == Ok::<_, ErrorModel>(
                    Invocation {
                        template: match template {
                            Some(at) => Some(at as int),
                            None => None,
                        },
                        path: path@,
                        scope: given.deep_view(),
                        state: current.deep_view(),
                    },
                ),
            decreases node.children.len() - i,
        {
            let part = &node.children[i];
            assert(decreases_to!(node.children => node.children[i as int]));
            match part.rule {
                Rule::BlockTemplateName => {
                    path = template_path(part.text.as_str());
                    match find_template(store, path.as_str()) {
                        Some(at) => {
                            template = Some(at);
                        },
                        None => {
                            proof {
                                lemma_invocation_fails(*node, i + 1, len, start, cx);
                            }
                            return Err(
                                CompileError::new(ErrorKind::TemplateNotFound, path.as_str()),
                            );
                        },
                    }
                },
                Rule::BlockTemplateClasses => {
                    let classes = match lex_class_list(part, Rule::BlockTemplateClass, scope) {
                        Ok(classes) => classes,
                        Err(e) => {
                            proof {
                                lemma_invocation_fails(*node, i + 1, len, start, cx);
                            }
                            return Err(e);
                        },
                    };
                    given = Scope {
                        children: given.children,
                        classes: extend_slot(given.classes, classes),
                        attributes: given.attributes,
                    };
                },
                Rule::BlockTemplateAttributes => {
                    let attributes = match lex_attribute_list(part, given.attributes, None) {
                        Ok(attributes) => attributes,
                        Err(e) => {
                            proof {
                                lemma_invocation_fails(*node, i + 1, len, start, cx);
                            }
                            return Err(e);
                        },
                    };
                    given = Scope {
                        children: given.children,
                        classes: given.classes,
                        attributes,
                    };
                },
                Rule::BlockChildren => {
                    let (below, after) = match Self::lex_html_block_children(
                        part,
                        current,
                        scope,
                        store,
                        depth,
                    ) {
                        Ok(lexed) => lexed,
                        Err(e) => {
                            proof {
                                lemma_invocation_fails(*node, i + 1, len, start, cx);
                            }
                            return Err(e);
                        },
                    };
                    current = after;
                    given = Scope {
                        children: extend_slot(given.children, below),
                        classes: given.classes,
                        attributes: given.attributes,
                    };
                },
                Rule::BlockTemplateContent => {
                    let token = Token::TextLine {
                        content: replace_template_attributes(
                            part.text.as_str(),
                            &scope.attributes,
                        ),
                    };
                    let mut line: Vec<Token> = Vec::new();
                    line.push(token);
                    assert(line.deep_view() =~= seq![token.deep_view()]);
                    let ghost held = given.children.deep_view();
                    assert(supplied(held) + seq![token.deep_view()]
                        =~= supplied(held).push(token.deep_view()));
                    given = Scope {
                        children: extend_slot(given.children, line),
                        classes: given.classes,
                        attributes: given.attributes,
                    };
                },
                _ => {
                    proof {
                        lemma_invocation_fails(*node, i + 1, len, start, cx);
                    }
                    return Err(unexpected(part));
                },
            }
            i = i + 1;
        }
        let at = match template {
            Some(at) => at,
            None => {
                return Err(unexpected(node));
            },
        };
        if depth == 0 {
            return Err(CompileError::new(ErrorKind::LimitExceeded, path.as_str()));
        }
        match &store[at].source {
            TemplateSource::Unparsable(complaint) => Err(
                CompileError::new(ErrorKind::Syntax, complaint.as_str()).within(path.as_str()),
            ),
            TemplateSource::Parsed(root) => {
                let fresh = LexerState { page_number: current.page_number, toc: Vec::new() };
                assert(fresh.toc.deep_view() =~= Seq::empty());
                match Self::lex_html_document(root, fresh, &given, store, depth - 1) {
                    Err(e) => Err(e.within(path.as_str())),
                    Ok((tokens, inner)) => {
                        let mut toc = current.toc;
                        let ghost listed = toc;
                        let mut more = inner.toc;
                        let ghost added = more;
                        toc.append(&mut more);
                        proof {
                            lemma_model_concat(toc, listed, added);
                        }
                        Ok((tokens, LexerState { page_number: inner.page_number, toc }))
                    },
                }
            },
        }
    }
}

} // verus!
