//! What holds of the compiler as a whole, proved from the definitions of its
//! stages.

use vstd::prelude::*;
use crate::error::ErrorModel;
use crate::generator::{
    attributes_text, classes_text, close_tag, line_break, nesting, nesting_prefix, render_prefix,
    rendered, self_close, verbatim_name,
};
use crate::lexer::{
    after_classes, after_content, attribute_list, block_prefix, children_prefix, document_prefix,
    element_prefix, invocation_prefix, lexed_children, lexed_document, lexed_template, page_class,
    toc_class, Context, ElementAcc, Invocation, Lexed,
};
use crate::state::{ScopeModel, StateModel};
use crate::substitute::{
    binding, escaped_name, is_brace, name_len, placeholder_name, placeholder_value, substituted,
};
use crate::template::{template_index, template_path_of, Template, TemplateSource};
use crate::text::blanks;
use crate::token::{key_index, TokenModel};
use crate::tree::{ParseNode, Rule};

verus! {

/// Whether no character of `s` is a brace.
pub open spec fn brace_free(s: Seq<char>) -> bool {
    forall|i: int| 0 <= i < s.len() ==> !is_brace(#[trigger] s[i])
}

/// A name runs up to the brace that follows it.
pub proof fn lemma_name_len(name: Seq<char>, rest: Seq<char>)
    requires
        brace_free(name),
        rest.len() == 0 || is_brace(rest[0]),
    ensures
        name_len(name + rest) == name.len(),
    decreases name.len(),
{
    if name.len() > 0 {
        assert((name + rest)[0] == name[0]);
        assert((name + rest).skip(1) =~= name.skip(1) + rest);
        assert(brace_free(name.skip(1))) by {
            assert forall|i: int| 0 <= i < name.skip(1).len() implies !is_brace(
                #[trigger] name.skip(1)[i],
            ) by {
                assert(name.skip(1)[i] == name[i + 1]);
            }
        }
        lemma_name_len(name.skip(1), rest);
    } else {
        assert(name + rest =~= rest);
    }
}

/// An escaped placeholder is written as a single-braced one, whatever is
/// bound: `{{name}}` becomes `{name}`, and the text after it is read as if
/// it stood alone.
pub proof fn law_escaped_placeholder_is_literal(
    name: Seq<char>,
    rest: Seq<char>,
    attrs: Seq<(Seq<char>, Seq<char>)>,
)
    requires
        name.len() > 0,
        brace_free(name),
    ensures
        substituted(seq!['{', '{'] + name + seq!['}', '}'] + rest, attrs) == seq!['{'] + name
            + seq!['}'] + substituted(rest, attrs),
{
    let s = seq!['{', '{'] + name + seq!['}', '}'] + rest;
    let tail = seq!['}', '}'] + rest;
    assert(s.skip(2) =~= name + tail);
    lemma_name_len(name, tail);
    assert(s.subrange(2, 2 + name.len() as int) =~= name);
    assert(s[2 + name.len() as int] == '}');
    assert(s[3 + name.len() as int] == '}');
    assert(escaped_name(s) == Some(name));
    assert(s.skip(name.len() as int + 4) =~= rest);
}

/// A placeholder whose name the caller bound is replaced by the bound value,
/// and the value is not read again.
pub proof fn law_bound_placeholder_is_replaced(
    name: Seq<char>,
    value: Seq<char>,
    rest: Seq<char>,
    attrs: Seq<(Seq<char>, Seq<char>)>,
)
    requires
        name.len() > 0,
        brace_free(name),
        rest.len() == 0 || rest[0] != '}',
        binding(attrs, name) == Some(value),
    ensures
        substituted(seq!['{'] + name + seq!['}'] + rest, attrs) == value + substituted(
            rest,
            attrs,
        ),
{
    let s = seq!['{'] + name + seq!['}'] + rest;
    let tail = seq!['}'] + rest;
    assert(s.skip(1) =~= name + tail);
    lemma_name_len(name, tail);
    assert(s.subrange(1, 1 + name.len() as int) =~= name);
    assert(s[1 + name.len() as int] == '}');
    assert(s[1] == name[0]);
    assert(!is_brace(name[0]));
    assert(escaped_name(s) is None);
    assert(placeholder_name(s) == Some(name));
    assert(s.skip(name.len() as int + 2) =~= rest);
}

/// Text without an opening brace holds no placeholder: it is kept as it is,
/// whatever is bound.
pub proof fn law_text_without_placeholders_is_kept(
    text: Seq<char>,
    attrs: Seq<(Seq<char>, Seq<char>)>,
)
    requires
        forall|i: int| 0 <= i < text.len() ==> text[i] != '{',
    ensures
        substituted(text, attrs) == text,
    decreases text.len(),
{
    if text.len() > 0 {
        assert(text[0] != '{');
        assert(escaped_name(text) is None);
        assert(placeholder_name(text) is None);
        assert forall|i: int| 0 <= i < text.skip(1).len() implies text.skip(1)[i] != '{' by {
            assert(text.skip(1)[i] == text[i + 1]);
        }
        law_text_without_placeholders_is_kept(text.skip(1), attrs);
        assert(seq![text[0]] + text.skip(1) =~= text);
    }
}

/// A placeholder whose name the caller did not bind stays as it was written.
pub proof fn law_unbound_placeholder_is_kept(name: Seq<char>, attrs: Seq<(Seq<char>, Seq<char>)>)
    requires
        name.len() > 0,
        brace_free(name),
        binding(attrs, name) is None,
    ensures
        substituted(seq!['{'] + name + seq!['}'], attrs) == seq!['{'] + name + seq!['}'],
{
    let s = seq!['{'] + name + seq!['}'];
    let tail = seq!['}'];
    assert(s.skip(1) =~= name + tail);
    lemma_name_len(name, tail);
    assert(s.subrange(1, 1 + name.len() as int) =~= name);
    assert(s[1] == name[0]);
    assert(!is_brace(name[0]));
    assert(escaped_name(s) is None);
    assert(placeholder_name(s) == Some(name));
    assert(placeholder_value(s, attrs) is None);
    assert forall|i: int| 0 <= i < (name + tail).len() implies (name + tail)[i] != '{' by {
        if i < name.len() {
            assert((name + tail)[i] == name[i]);
            assert(!is_brace(name[i]));
        }
    }
    law_text_without_placeholders_is_kept(name + tail, attrs);
    assert(seq![s[0]] + (name + tail) =~= s);
}

/// The body of a template is read in the scope that its reference supplies
/// and in no other: two callers whose references supply the same thing get
/// the same expansion, whatever their own scopes hold.
pub proof fn law_expansion_sees_only_its_reference(
    node: ParseNode,
    state: StateModel,
    one: Context,
    other: Context,
)
    requires
        one.store == other.store,
        one.depth == other.depth,
        invocation_prefix(node, node.children.len() as int, state, one) == invocation_prefix(
            node,
            node.children.len() as int,
            state,
            other,
        ),
    ensures
        lexed_template(node, state, one) == lexed_template(node, state, other),
{
}

/// What a template reference expands to is the template's body, read in the
/// scope that the reference supplies, one level deeper, from the caller's
/// page on; the caller's table of contents gets the body's entries at its
/// end.
pub proof fn law_expansion_is_the_body_in_its_own_scope(
    node: ParseNode,
    state: StateModel,
    cx: Context,
    inv: Invocation,
    root: ParseNode,
    body: Lexed,
)
    requires
        invocation_prefix(node, node.children.len() as int, state, cx) == Ok::<_, ErrorModel>(
            inv,
        ),
        inv.template is Some,
        cx.depth > 0,
        cx.store[inv.template->Some_0].source == TemplateSource::Parsed(root),
        lexed_document(
            root,
            StateModel { page_number: inv.state.page_number, toc: Seq::empty() },
            Context { scope: inv.scope, store: cx.store, depth: (cx.depth - 1) as nat },
        ) == Ok::<_, ErrorModel>(body),
    ensures
        lexed_template(node, state, cx) == Ok::<_, ErrorModel>(
            Lexed {
                tokens: body.tokens,
                state: StateModel {
                    page_number: body.state.page_number,
                    toc: inv.state.toc + body.state.toc,
                },
            },
        ),
{
}

/// Whether `root` is a document of one block that holds one line of text,
/// `text`, and nothing else.
pub open spec fn is_one_line(root: ParseNode, text: Seq<char>) -> bool {
    &&& root.children.len() == 1
    &&& root.children[0].rule == Rule::Block
    &&& root.children[0].children.len() == 1
    &&& root.children[0].children[0].rule == Rule::BlockContentLine
    &&& root.children[0].children[0].text@ == text
}

/// Whether `node` is a reference of two parts, the name of the template that
/// stands at `at` in `store` and a part of the rule `second`.
pub open spec fn refers_to(node: ParseNode, second: Rule, store: Seq<Template>, at: int) -> bool {
    &&& node.children.len() == 2
    &&& node.children[0].rule == Rule::BlockTemplateName
    &&& node.children[1].rule == second
    &&& template_index(store, template_path_of(node.children[0].text@)) == Some(at)
}

/// A template of one line of text, referenced with attributes, expands to
/// that line with exactly the placeholders filled that the reference binds,
/// whatever the caller's own scope binds, and leaves the state as it was.
pub proof fn law_one_line_template_is_filled_by_its_reference(
    node: ParseNode,
    state: StateModel,
    cx: Context,
    at: int,
    root: ParseNode,
    text: Seq<char>,
    bound: Seq<(Seq<char>, Seq<char>)>,
)
    requires
        refers_to(node, Rule::BlockTemplateAttributes, cx.store, at),
        attribute_list(node.children[1], Seq::empty(), None) == Ok::<_, ErrorModel>(bound),
        cx.store[at].source == TemplateSource::Parsed(root),
        cx.depth > 0,
        is_one_line(root, text),
    ensures
        lexed_template(node, state, cx) == Ok::<_, ErrorModel>(
            Lexed {
                tokens: seq![TokenModel::TextLine { content: substituted(text, bound) }],
                state,
            },
        ),
{
    reveal_with_fuel(invocation_prefix, 3);
    reveal_with_fuel(document_prefix, 2);
    reveal_with_fuel(block_prefix, 2);
    let scope = ScopeModel { children: None, classes: None, attributes: bound };
    let inv = Invocation {
        template: Some(at),
        path: template_path_of(node.children[0].text@),
        scope,
        state,
    };
    assert(invocation_prefix(node, 2, state, cx) == Ok::<_, ErrorModel>(inv));
    let fresh = StateModel { page_number: state.page_number, toc: Seq::empty() };
    let inner = Context { scope, store: cx.store, depth: (cx.depth - 1) as nat };
    let line = TokenModel::TextLine { content: substituted(text, bound) };
    let block = block_prefix(root.children[0], 1, fresh, inner);
    assert(block == Ok::<_, ErrorModel>(
        Lexed { tokens: Seq::<TokenModel>::empty().push(line), state: fresh },
    ));
    assert(Seq::<TokenModel>::empty() + Seq::<TokenModel>::empty().push(line) =~= seq![line]);
    assert(document_prefix(root, 1, fresh, inner) == Ok::<_, ErrorModel>(
        Lexed { tokens: seq![line], state: fresh },
    ));
    assert(state.toc + fresh.toc =~= state.toc);
}

/// A placeholder in a template's body is filled only by what the reference
/// itself binds: where the reference does not bind `name`, the body's
/// `{name}` stays as it was written, even where the caller's own scope binds
/// `name`.
pub proof fn law_callers_bindings_do_not_fill_the_body(
    node: ParseNode,
    state: StateModel,
    cx: Context,
    at: int,
    root: ParseNode,
    name: Seq<char>,
    bound: Seq<(Seq<char>, Seq<char>)>,
)
    requires
        refers_to(node, Rule::BlockTemplateAttributes, cx.store, at),
        attribute_list(node.children[1], Seq::empty(), None) == Ok::<_, ErrorModel>(bound),
        cx.store[at].source == TemplateSource::Parsed(root),
        cx.depth > 0,
        is_one_line(root, seq!['{'] + name + seq!['}']),
        name.len() > 0,
        brace_free(name),
        binding(bound, name) is None,
    ensures
        lexed_template(node, state, cx) == Ok::<_, ErrorModel>(
            Lexed {
                tokens: seq![TokenModel::TextLine { content: seq!['{'] + name + seq!['}'] }],
                state,
            },
        ),
{
    law_one_line_template_is_filled_by_its_reference(
        node,
        state,
        cx,
        at,
        root,
        seq!['{'] + name + seq!['}'],
        bound,
    );
    law_unbound_placeholder_is_kept(name, bound);
}

/// Whether `root` is a document of one block that holds one element, named
/// `name`, whose child block is the marker for the caller's children and
/// nothing else.
pub open spec fn is_one_wrapper(root: ParseNode, name: Seq<char>) -> bool {
    let element = root.children[0].children[0];
    &&& root.children.len() == 1
    &&& root.children[0].rule == Rule::Block
    &&& root.children[0].children.len() == 1
    &&& element.rule == Rule::BlockElement
    &&& element.children.len() == 2
    &&& element.children[0].rule == Rule::BlockElementName
    &&& element.children[0].text@ == name
    &&& element.children[1].rule == Rule::BlockChildren
    &&& element.children[1].children.len() == 1
    &&& element.children[1].children[0].rule == Rule::Ellipsis
}

/// A template that wraps the caller's children in one element expands to
/// that element holding exactly the tokens of the reference's child block,
/// as they were read in the caller's scope: once, in their order, with all
/// that is nested in them, and nothing besides. The state afterwards is the
/// state after the child block.
pub proof fn law_wrapper_template_holds_the_callers_children(
    node: ParseNode,
    state: StateModel,
    cx: Context,
    at: int,
    root: ParseNode,
    name: Seq<char>,
    given: Lexed,
)
    requires
        refers_to(node, Rule::BlockChildren, cx.store, at),
        lexed_children(node.children[1], state, cx) == Ok::<_, ErrorModel>(given),
        cx.store[at].source == TemplateSource::Parsed(root),
        cx.depth > 0,
        is_one_wrapper(root, name),
    ensures
        lexed_template(node, state, cx) == Ok::<_, ErrorModel>(
            Lexed {
                tokens: seq![
                    TokenModel::ElementOpen { name },
                    TokenModel::ChildTokens { children: given.tokens },
                ],
                state: given.state,
            },
        ),
{
    reveal_with_fuel(invocation_prefix, 3);
    reveal_with_fuel(document_prefix, 2);
    reveal_with_fuel(block_prefix, 2);
    reveal_with_fuel(element_prefix, 3);
    reveal_with_fuel(children_prefix, 2);
    assert(Seq::<TokenModel>::empty() + given.tokens =~= given.tokens);
    let scope = ScopeModel {
        children: Some(given.tokens),
        classes: None,
        attributes: Seq::empty(),
    };
    let inv = Invocation {
        template: Some(at),
        path: template_path_of(node.children[0].text@),
        scope,
        state: given.state,
    };
    assert(invocation_prefix(node, 2, state, cx) == Ok::<_, ErrorModel>(inv));
    let fresh = StateModel { page_number: given.state.page_number, toc: Seq::empty() };
    let inner = Context { scope, store: cx.store, depth: (cx.depth - 1) as nat };
    let element = root.children[0].children[0];
    let tokens = seq![
        TokenModel::ElementOpen { name },
        TokenModel::ChildTokens { children: given.tokens },
    ];
    assert(children_prefix(element.children[1], 1, fresh, inner) == Ok::<_, ErrorModel>(
        Lexed { tokens: given.tokens, state: fresh },
    ));
    let opened = Seq::<TokenModel>::empty().push(TokenModel::ElementOpen { name });
    assert(opened.push(TokenModel::ChildTokens { children: given.tokens }) =~= tokens);
    assert(element_prefix(element, 2, fresh, inner) == Ok::<_, ErrorModel>(
        ElementAcc { tokens, state: fresh, toc: false },
    ));
    assert(Seq::<TokenModel>::empty() + tokens =~= tokens);
    assert(block_prefix(root.children[0], 1, fresh, inner) == Ok::<_, ErrorModel>(
        Lexed { tokens, state: fresh },
    ));
    assert(document_prefix(root, 1, fresh, inner) == Ok::<_, ErrorModel>(
        Lexed { tokens, state: fresh },
    ));
    assert(given.state.toc + fresh.toc =~= given.state.toc);
}

/// Whether the first `n` parts of a template reference are its name and its
/// attributes only: the reference has no children, no content and no
/// classes.
pub open spec fn names_and_binds_only(node: ParseNode, n: int) -> bool {
    forall|i: int|
        0 <= i < n && i < node.children.len() ==> {
            let rule = (#[trigger] node.children[i]).rule;
            rule == Rule::BlockTemplateName || rule == Rule::BlockTemplateAttributes
        }
}

/// What a reference of name and attributes supplies does not depend on the
/// scope that the reference stands in.
pub proof fn lemma_plain_reference_ignores_scope(
    node: ParseNode,
    n: int,
    state: StateModel,
    one: Context,
    other: Context,
)
    requires
        one.store == other.store,
        names_and_binds_only(node, n),
    ensures
        invocation_prefix(node, n, state, one) == invocation_prefix(node, n, state, other),
    decreases n,
{
    if 0 < n <= node.children.len() {
        lemma_plain_reference_ignores_scope(node, n - 1, state, one, other);
        assert(node.children[n - 1].rule == Rule::BlockTemplateName || node.children[n - 1].rule
            == Rule::BlockTemplateAttributes);
    }
}

/// A placeholder is filled only from what the immediate caller bound: a
/// template that is referenced by name and attributes alone expands to the
/// same tokens in every scope, so nothing that an outer caller bound can
/// reach its body.
pub proof fn law_outer_scope_does_not_reach_the_body(
    node: ParseNode,
    state: StateModel,
    one: Context,
    other: Context,
)
    requires
        one.store == other.store,
        one.depth == other.depth,
        names_and_binds_only(node, node.children.len() as int),
    ensures
        lexed_template(node, state, one) == lexed_template(node, state, other),
{
    lemma_plain_reference_ignores_scope(node, node.children.len() as int, state, one, other);
}

/// The marker for the caller's children is replaced by exactly the tokens
/// that the caller supplied, in their order and with all that is nested in
/// them, between what stands before the marker and what stands after it;
/// the compiler state passes the marker unchanged.
pub proof fn law_children_are_spliced(
    node: ParseNode,
    n: int,
    state: StateModel,
    cx: Context,
    before: Lexed,
    supplied: Seq<TokenModel>,
)
    requires
        0 < n <= node.children.len(),
        node.children[n - 1].rule == Rule::Ellipsis,
        cx.scope.children == Some(supplied),
        children_prefix(node, n - 1, state, cx) == Ok::<_, ErrorModel>(before),
    ensures
        children_prefix(node, n, state, cx) == Ok::<_, ErrorModel>(
            Lexed { tokens: before.tokens + supplied, state: before.state },
        ),
{
}

/// A child block that holds the marker and nothing else yields exactly the
/// caller's tokens.
pub proof fn law_lone_marker_is_the_children(
    node: ParseNode,
    state: StateModel,
    cx: Context,
    supplied: Seq<TokenModel>,
)
    requires
        node.children.len() == 1,
        node.children[0].rule == Rule::Ellipsis,
        cx.scope.children == Some(supplied),
    ensures
        lexed_children(node, state, cx) == Ok::<_, ErrorModel>(Lexed { tokens: supplied, state }),
{
    reveal_with_fuel(children_prefix, 2);
    assert(Seq::<TokenModel>::empty() + supplied =~= supplied);
}

/// An element with a name, classes and attributes, and nothing inside, is
/// written self-closed, at the top and in a nested block alike.
pub proof fn law_empty_element_self_closes(
    name: Seq<char>,
    classes: Seq<Seq<char>>,
    attributes: Seq<(Seq<char>, Seq<char>)>,
    indent: nat,
    enclosing: Seq<char>,
)
    ensures
        rendered(
            seq![
                TokenModel::ElementOpen { name },
                TokenModel::ElementClasses { classes },
                TokenModel::ElementAttributes { attributes },
            ],
            indent,
            enclosing,
        ) == seq!['\n'] + blanks(indent) + seq!['<'] + name + classes_text(classes)
            + attributes_text(attributes) + self_close(),
        rendered(seq![TokenModel::ElementOpen { name }], indent, enclosing) == seq!['\n']
            + blanks(indent) + seq!['<'] + name + self_close(),
{
    reveal_with_fuel(render_prefix, 4);
    let tokens = seq![
        TokenModel::ElementOpen { name },
        TokenModel::ElementClasses { classes },
        TokenModel::ElementAttributes { attributes },
    ];
    let first = render_prefix(tokens, 1, indent, enclosing);
    assert(first.html =~= seq!['\n'] + blanks(indent) + seq!['<'] + name);
    let alone = render_prefix(seq![TokenModel::ElementOpen { name }], 1, indent, enclosing);
    assert(alone.html =~= seq!['\n'] + blanks(indent) + seq!['<'] + name);
}

/// The last element of a nested block is closed before the block's own
/// element is: an element that holds one empty element is written as its
/// opening tag, the inner element self-closed on a line of its own, and its
/// closing tag.
pub proof fn law_last_nested_element_self_closes(
    outer: Seq<char>,
    inner: Seq<char>,
    indent: nat,
    enclosing: Seq<char>,
)
    ensures
        rendered(
            seq![
                TokenModel::ElementOpen { name: outer },
                TokenModel::ChildTokens {
                    children: seq![TokenModel::ElementOpen { name: inner }],
                },
            ],
            indent,
            enclosing,
        ) == seq!['\n'] + blanks(indent) + seq!['<'] + outer + seq!['>'] + (seq!['\n'] + blanks(
            indent + 2,
        ) + seq!['<'] + inner + self_close()) + seq!['\n'] + blanks(indent) + close_tag(outer),
{
    reveal_with_fuel(render_prefix, 3);
    law_empty_element_self_closes(inner, Seq::empty(), Seq::empty(), indent + 2, outer);
    let tokens = seq![
        TokenModel::ElementOpen { name: outer },
        TokenModel::ChildTokens { children: seq![TokenModel::ElementOpen { name: inner }] },
    ];
    let first = render_prefix(tokens, 1, indent, enclosing);
    assert(first.html =~= seq!['\n'] + blanks(indent) + seq!['<'] + outer);
}

/// An element with inline content is written as its opening tag, the
/// content, and the closing tag of its own name.
pub proof fn law_inline_element_closes_by_name(
    name: Seq<char>,
    content: Seq<char>,
    indent: nat,
    enclosing: Seq<char>,
)
    ensures
        rendered(
            seq![TokenModel::ElementOpen { name }, TokenModel::InlineContent { content }],
            indent,
            enclosing,
        ) == seq!['\n'] + blanks(indent) + seq!['<'] + name + seq!['>'] + content + close_tag(
            name,
        ),
{
    reveal_with_fuel(render_prefix, 3);
    let tokens = seq![TokenModel::ElementOpen { name }, TokenModel::InlineContent { content }];
    let first = render_prefix(tokens, 1, indent, enclosing);
    assert(first.html =~= seq!['\n'] + blanks(indent) + seq!['<'] + name);
}

/// Lines of text are written by the rule of the element they stand in: after
/// a verbatim element that opened and closed beside them, two lines in any
/// other element are still indented and parted by a line break.
pub proof fn law_lines_follow_the_enclosing_element(
    tokens: Seq<TokenModel>,
    n: int,
    indent: nat,
    enclosing: Seq<char>,
)
    requires
        0 < n <= tokens.len(),
        tokens[n - 1] is TextLine,
        enclosing != verbatim_name(),
    ensures
        render_prefix(tokens, n, indent, enclosing).html == render_prefix(
            tokens,
            n - 1,
            indent,
            enclosing,
        ).html + (if render_prefix(tokens, n - 1, indent, enclosing).after_line {
            line_break()
        } else {
            Seq::empty()
        }) + seq!['\n'] + blanks(indent) + tokens[n - 1]->TextLine_content,
{
}

/// An element that is still open when its sibling opens is closed first.
pub proof fn law_open_element_closes_before_sibling(
    tokens: Seq<TokenModel>,
    n: int,
    indent: nat,
    enclosing: Seq<char>,
)
    requires
        0 < n <= tokens.len(),
        tokens[n - 1] is ElementOpen,
        render_prefix(tokens, n - 1, indent, enclosing).open,
    ensures
        render_prefix(tokens, n, indent, enclosing).html == render_prefix(
            tokens,
            n - 1,
            indent,
            enclosing,
        ).html + self_close() + seq!['\n'] + blanks(indent) + seq!['<']
            + tokens[n - 1]->ElementOpen_name,
{
}

/// How the compiler state may change while a part of a document is read:
/// the page number does not go down; the table of contents keeps the entries
/// it had and gets new ones at its end; each new entry names a page between
/// the page number before and the page number after; and the new entries
/// name their pages in rising order.
pub open spec fn advances(before: StateModel, after: StateModel) -> bool {
    &&& before.page_number <= after.page_number
    &&& before.toc.len() <= after.toc.len()
    &&& forall|i: int| 0 <= i < before.toc.len() ==> after.toc[i] == before.toc[i]
    &&& forall|i: int|
        before.toc.len() <= i < after.toc.len() ==> {
            let entry = #[trigger] after.toc[i];
            before.page_number <= entry.1 <= after.page_number
        }
    &&& forall|i: int, j: int|
        before.toc.len() <= i <= j < after.toc.len() ==> {
            let first = #[trigger] after.toc[i];
            let second = #[trigger] after.toc[j];
            first.1 <= second.1
        }
}

/// Two advances, one after the other, are an advance.
pub proof fn lemma_advances_chain(a: StateModel, b: StateModel, c: StateModel)
    requires
        advances(a, b),
        advances(b, c),
    ensures
        advances(a, c),
{
    assert forall|i: int| a.toc.len() <= i < c.toc.len() implies {
        let entry = #[trigger] c.toc[i];
        a.page_number <= entry.1 <= c.page_number
    } by {
        if i < b.toc.len() {
            assert(c.toc[i] == b.toc[i]);
        }
    }
    assert forall|i: int, j: int| a.toc.len() <= i <= j < c.toc.len() implies {
        let first = #[trigger] c.toc[i];
        let second = #[trigger] c.toc[j];
        first.1 <= second.1
    } by {
        if j < b.toc.len() {
            assert(c.toc[i] == b.toc[i]);
            assert(c.toc[j] == b.toc[j]);
        } else if i < b.toc.len() {
            assert(c.toc[i] == b.toc[i]);
            assert(b.toc[i].1 <= b.page_number);
            assert(b.page_number <= c.toc[j].1);
        }
    }
}

/// A template's body starts on the caller's page with an empty table of
/// contents. Where the body advances from there, the caller's state with the
/// body's page number and the body's entries behind its own is an advance.
pub proof fn lemma_merge_advances(caller: StateModel, body: StateModel)
    requires
        advances(StateModel { page_number: caller.page_number, toc: Seq::empty() }, body),
    ensures
        advances(
            caller,
            StateModel { page_number: body.page_number, toc: caller.toc + body.toc },
        ),
{
    let after = StateModel { page_number: body.page_number, toc: caller.toc + body.toc };
    let shift = caller.toc.len() as int;
    assert forall|i: int| shift <= i < after.toc.len() implies {
        let entry = #[trigger] after.toc[i];
        caller.page_number <= entry.1 <= after.page_number
    } by {
        assert(after.toc[i] == body.toc[i - shift]);
    }
    assert forall|i: int, j: int| shift <= i <= j < after.toc.len() implies {
        let first = #[trigger] after.toc[i];
        let second = #[trigger] after.toc[j];
        first.1 <= second.1
    } by {
        assert(after.toc[i] == body.toc[i - shift]);
        assert(after.toc[j] == body.toc[j - shift]);
    }
}

/// Reading the parts of an element advances the state.
pub proof fn lemma_element_advances(node: ParseNode, n: int, state: StateModel, cx: Context)
    ensures
        match element_prefix(node, n, state, cx) {
            Ok(acc) => advances(state, acc.state),
            Err(_) => true,
        },
    decreases cx.depth, node, n,
{
    if 0 < n <= node.children.len() {
        lemma_element_advances(node, n - 1, state, cx);
        match element_prefix(node, n - 1, state, cx) {
            Ok(acc) => {
                let part = node.children[n - 1];
                if part.rule == Rule::BlockChildren {
                    lemma_children_advance(part, part.children.len() as int, acc.state, cx);
                }
                match element_prefix(node, n, state, cx) {
                    Ok(next) => {
                        assert(advances(acc.state, next.state));
                        lemma_advances_chain(state, acc.state, next.state);
                    },
                    Err(_) => {},
                }
            },
            Err(_) => {},
        }
    }
}

/// Reading the parts of a template reference advances the state.
pub proof fn lemma_invocation_advances(node: ParseNode, n: int, state: StateModel, cx: Context)
    ensures
        match invocation_prefix(node, n, state, cx) {
            Ok(inv) => advances(state, inv.state),
            Err(_) => true,
        },
    decreases cx.depth, node, n,
{
    if 0 < n <= node.children.len() {
        lemma_invocation_advances(node, n - 1, state, cx);
        match invocation_prefix(node, n - 1, state, cx) {
            Ok(acc) => {
                let part = node.children[n - 1];
                if part.rule == Rule::BlockChildren {
                    lemma_children_advance(part, part.children.len() as int, acc.state, cx);
                }
                match invocation_prefix(node, n, state, cx) {
                    Ok(next) => {
                        assert(advances(acc.state, next.state));
                        lemma_advances_chain(state, acc.state, next.state);
                    },
                    Err(_) => {},
                }
            },
            Err(_) => {},
        }
    }
}

/// Expanding a template reference advances the state.
pub proof fn lemma_template_advances(node: ParseNode, state: StateModel, cx: Context)
    ensures
        match lexed_template(node, state, cx) {
            Ok(lexed) => advances(state, lexed.state),
            Err(_) => true,
        },
    decreases cx.depth, node, node.children.len() + 1,
{
    lemma_invocation_advances(node, node.children.len() as int, state, cx);
    match invocation_prefix(node, node.children.len() as int, state, cx) {
        Ok(inv) => {
            if inv.template is Some && cx.depth > 0 {
                match cx.store[inv.template->Some_0].source {
                    TemplateSource::Parsed(root) => {
                        let fresh = StateModel {
                            page_number: inv.state.page_number,
                            toc: Seq::empty(),
                        };
                        let inner = Context {
                            scope: inv.scope,
                            store: cx.store,
                            depth: (cx.depth - 1) as nat,
                        };
                        lemma_document_advances(root, root.children.len() as int, fresh, inner);
                        match document_prefix(root, root.children.len() as int, fresh, inner) {
                            Ok(body) => {
                                let after = StateModel {
                                    page_number: body.state.page_number,
                                    toc: inv.state.toc + body.state.toc,
                                };
                                lemma_merge_advances(inv.state, body.state);
                                lemma_advances_chain(state, inv.state, after);
                            },
                            Err(_) => {},
                        }
                    },
                    TemplateSource::Unparsable(_) => {},
                }
            }
        },
        Err(_) => {},
    }
}

/// Reading the parts of a block advances the state.
pub proof fn lemma_block_advances(node: ParseNode, n: int, state: StateModel, cx: Context)
    ensures
        match block_prefix(node, n, state, cx) {
            Ok(lexed) => advances(state, lexed.state),
            Err(_) => true,
        },
    decreases cx.depth, node, n,
{
    if 0 < n <= node.children.len() {
        lemma_block_advances(node, n - 1, state, cx);
        match block_prefix(node, n - 1, state, cx) {
            Ok(acc) => {
                let part = node.children[n - 1];
                if part.rule == Rule::BlockElement {
                    lemma_element_advances(part, part.children.len() as int, acc.state, cx);
                } else if part.rule == Rule::BlockTemplate {
                    lemma_template_advances(part, acc.state, cx);
                }
                match block_prefix(node, n, state, cx) {
                    Ok(next) => {
                        assert(advances(acc.state, next.state));
                        lemma_advances_chain(state, acc.state, next.state);
                    },
                    Err(_) => {},
                }
            },
            Err(_) => {},
        }
    }
}

/// Reading the parts of a child block advances the state.
pub proof fn lemma_children_advance(node: ParseNode, n: int, state: StateModel, cx: Context)
    ensures
        match children_prefix(node, n, state, cx) {
            Ok(lexed) => advances(state, lexed.state),
            Err(_) => true,
        },
    decreases cx.depth, node, n,
{
    if 0 < n <= node.children.len() {
        lemma_children_advance(node, n - 1, state, cx);
        match children_prefix(node, n - 1, state, cx) {
            Ok(acc) => {
                let part = node.children[n - 1];
                if part.rule == Rule::Block {
                    lemma_block_advances(part, part.children.len() as int, acc.state, cx);
                }
                match children_prefix(node, n, state, cx) {
                    Ok(next) => {
                        assert(advances(acc.state, next.state));
                        lemma_advances_chain(state, acc.state, next.state);
                    },
                    Err(_) => {},
                }
            },
            Err(_) => {},
        }
    }
}

/// Reading the parts of a document advances the state.
pub proof fn lemma_document_advances(node: ParseNode, n: int, state: StateModel, cx: Context)
    ensures
        match document_prefix(node, n, state, cx) {
            Ok(lexed) => advances(state, lexed.state),
            Err(_) => true,
        },
    decreases cx.depth, node, n,
{
    if 0 < n <= node.children.len() {
        lemma_document_advances(node, n - 1, state, cx);
        match document_prefix(node, n - 1, state, cx) {
            Ok(acc) => {
                let part = node.children[n - 1];
                if part.rule == Rule::Block {
                    lemma_block_advances(part, part.children.len() as int, acc.state, cx);
                }
                match document_prefix(node, n, state, cx) {
                    Ok(next) => {
                        assert(advances(acc.state, next.state));
                        lemma_advances_chain(state, acc.state, next.state);
                    },
                    Err(_) => {},
                }
            },
            Err(_) => {},
        }
    }
}

/// The table of contents is written in document order: compiling a document
/// keeps the entries that were there, adds the new ones behind them, and the
/// new entries name pages that never go down from one entry to the next and
/// that lie between the page number before and the page number after.
pub proof fn law_toc_follows_the_document(
    root: ParseNode,
    state: StateModel,
    cx: Context,
    lexed: Lexed,
)
    requires
        lexed_document(root, state, cx) == Ok::<_, ErrorModel>(lexed),
    ensures
        advances(state, lexed.state),
{
    lemma_document_advances(root, root.children.len() as int, state, cx);
}

/// An entry of the table of contents names the page as it is counted when
/// the heading's content is read: a class list that both begins a page and
/// marks a heading counts the page first, so the heading stands on the new
/// page.
pub proof fn law_heading_stands_on_its_new_page(
    acc: ElementAcc,
    classes: Seq<Seq<char>>,
    content: Seq<char>,
)
    requires
        classes.contains(page_class()),
        classes.contains(toc_class()),
        acc.state.page_number < usize::MAX,
    ensures
        after_classes(acc, classes) is Ok,
        after_content(after_classes(acc, classes)->Ok_0, content).state == (StateModel {
            page_number: (acc.state.page_number + 1) as usize,
            toc: acc.state.toc.push((content, (acc.state.page_number + 1) as usize)),
        }),
{
}

/// Whether a template reference or a slot marker stands anywhere in the
/// tree.
pub open spec fn mentions_templates(node: ParseNode) -> bool
    decreases node,
{
    node.rule == Rule::BlockTemplate || node.rule == Rule::Ellipsis || exists|i: int|
        0 <= i < node.children.len() && mentions_templates(#[trigger] node.children[i])
}

/// The larger of two numbers.
pub open spec fn larger(a: nat, b: nat) -> nat {
    if a > b {
        a
    } else {
        b
    }
}

/// How deep child blocks nest within the first `n` parts of a node: a child
/// block lies one level below the element that holds it.
pub open spec fn source_depth_prefix(node: ParseNode, n: int) -> nat
    decreases node, n,
{
    if n <= 0 || n > node.children.len() {
        0
    } else {
        let part = node.children[n - 1];
        larger(
            source_depth_prefix(node, n - 1),
            match part.rule {
                Rule::BlockChildren => 1 + source_depth_prefix(part, part.children.len() as int),
                Rule::Block => source_depth_prefix(part, part.children.len() as int),
                Rule::BlockElement => source_depth_prefix(part, part.children.len() as int),
                _ => 0,
            },
        )
    }
}

/// How deep child blocks nest within a node.
pub open spec fn source_depth(node: ParseNode) -> nat {
    source_depth_prefix(node, node.children.len() as int)
}

/// How deep a single token nests.
pub open spec fn token_depth(token: TokenModel) -> nat {
    match token {
        TokenModel::ChildTokens { children } => 1 + nesting(children),
        _ => 0,
    }
}

/// The nesting of the first `n` tokens depends on those tokens alone.
pub proof fn lemma_nesting_of_prefix(a: Seq<TokenModel>, b: Seq<TokenModel>, n: int)
    requires
        0 <= n <= a.len(),
        n <= b.len(),
        forall|i: int| 0 <= i < n ==> a[i] == b[i],
    ensures
        nesting_prefix(a, n) == nesting_prefix(b, n),
    decreases n,
{
    if n > 0 {
        lemma_nesting_of_prefix(a, b, n - 1);
    }
}

/// Two token sequences, one after the other, nest as deep as the deeper one.
pub proof fn lemma_nesting_concat(a: Seq<TokenModel>, b: Seq<TokenModel>, k: int)
    requires
        0 <= k <= b.len(),
    ensures
        nesting_prefix(a + b, a.len() + k) == larger(nesting(a), nesting_prefix(b, k)),
    decreases k,
{
    if k == 0 {
        lemma_nesting_of_prefix(a + b, a, a.len() as int);
    } else {
        lemma_nesting_concat(a, b, k - 1);
        assert((a + b)[a.len() + k - 1] == b[k - 1]);
    }
}

/// A token sequence with one more token nests as deep as the deeper of the
/// two.
pub proof fn lemma_nesting_push(a: Seq<TokenModel>, token: TokenModel)
    ensures
        nesting(a.push(token)) == larger(nesting(a), token_depth(token)),
{
    lemma_nesting_of_prefix(a.push(token), a, a.len() as int);
    assert(a.push(token)[a.len() as int] == token);
}

/// The parts of a tree without templates are without templates.
pub proof fn lemma_parts_without_templates(node: ParseNode, i: int)
    requires
        !mentions_templates(node),
        0 <= i < node.children.len(),
    ensures
        !mentions_templates(node.children[i]),
        node.children[i].rule != Rule::BlockTemplate,
        node.children[i].rule != Rule::Ellipsis,
{
    reveal_with_fuel(mentions_templates, 2);
}

/// The tokens of an element without templates nest as deep as its source.
pub proof fn lemma_element_depth(node: ParseNode, n: int, state: StateModel, cx: Context)
    requires
        !mentions_templates(node),
    ensures
        match element_prefix(node, n, state, cx) {
            Ok(acc) => nesting(acc.tokens) == source_depth_prefix(node, n),
            Err(_) => true,
        },
    decreases cx.depth, node, n,
{
    if 0 < n <= node.children.len() {
        lemma_element_depth(node, n - 1, state, cx);
        match element_prefix(node, n - 1, state, cx) {
            Ok(acc) => {
                let part = node.children[n - 1];
                lemma_parts_without_templates(node, n - 1);
                if part.rule == Rule::BlockChildren {
                    lemma_children_depth(part, part.children.len() as int, acc.state, cx);
                }
                match element_prefix(node, n, state, cx) {
                    Ok(next) => {
                        assert(next.tokens.len() == acc.tokens.len() + 1);
                        assert(next.tokens == acc.tokens.push(next.tokens.last()));
                        lemma_nesting_push(acc.tokens, next.tokens.last());
                    },
                    Err(_) => {},
                }
            },
            Err(_) => {},
        }
    } else {
        assert(nesting(Seq::<TokenModel>::empty()) == 0);
    }
}

/// The tokens of a block without templates nest as deep as its source.
pub proof fn lemma_block_depth(node: ParseNode, n: int, state: StateModel, cx: Context)
    requires
        !mentions_templates(node),
    ensures
        match block_prefix(node, n, state, cx) {
            Ok(lexed) => nesting(lexed.tokens) == source_depth_prefix(node, n),
            Err(_) => true,
        },
    decreases cx.depth, node, n,
{
    if 0 < n <= node.children.len() {
        lemma_block_depth(node, n - 1, state, cx);
        match block_prefix(node, n - 1, state, cx) {
            Ok(acc) => {
                let part = node.children[n - 1];
                lemma_parts_without_templates(node, n - 1);
                match block_prefix(node, n, state, cx) {
                    Ok(next) => {
                        if part.rule == Rule::BlockElement {
                            lemma_element_depth(part, part.children.len() as int, acc.state, cx);
                            let element = element_prefix(
                                part,
                                part.children.len() as int,
                                acc.state,
                                cx,
                            )->Ok_0;
                            lemma_nesting_concat(
                                acc.tokens,
                                element.tokens,
                                element.tokens.len() as int,
                            );
                        } else {
                            assert(next.tokens == acc.tokens.push(next.tokens.last()));
                            lemma_nesting_push(acc.tokens, next.tokens.last());
                        }
                    },
                    Err(_) => {},
                }
            },
            Err(_) => {},
        }
    } else {
        assert(nesting(Seq::<TokenModel>::empty()) == 0);
    }
}

/// The tokens of a child block without templates nest as deep as its source.
pub proof fn lemma_children_depth(node: ParseNode, n: int, state: StateModel, cx: Context)
    requires
        !mentions_templates(node),
    ensures
        match children_prefix(node, n, state, cx) {
            Ok(lexed) => nesting(lexed.tokens) == source_depth_prefix(node, n),
            Err(_) => true,
        },
    decreases cx.depth, node, n,
{
    if 0 < n <= node.children.len() {
        lemma_children_depth(node, n - 1, state, cx);
        match children_prefix(node, n - 1, state, cx) {
            Ok(acc) => {
                let part = node.children[n - 1];
                lemma_parts_without_templates(node, n - 1);
                match children_prefix(node, n, state, cx) {
                    Ok(next) => {
                        lemma_block_depth(part, part.children.len() as int, acc.state, cx);
                        let block = block_prefix(
                            part,
                            part.children.len() as int,
                            acc.state,
                            cx,
                        )->Ok_0;
                        lemma_nesting_concat(acc.tokens, block.tokens, block.tokens.len() as int);
                    },
                    Err(_) => {},
                }
            },
            Err(_) => {},
        }
    } else {
        assert(nesting(Seq::<TokenModel>::empty()) == 0);
    }
}

/// The tokens of a document without templates nest as deep as its source.
pub proof fn lemma_document_depth(node: ParseNode, n: int, state: StateModel, cx: Context)
    requires
        !mentions_templates(node),
    ensures
        match document_prefix(node, n, state, cx) {
            Ok(lexed) => nesting(lexed.tokens) == source_depth_prefix(node, n),
            Err(_) => true,
        },
    decreases cx.depth, node, n,
{
    if 0 < n <= node.children.len() {
        lemma_document_depth(node, n - 1, state, cx);
        match document_prefix(node, n - 1, state, cx) {
            Ok(acc) => {
                let part = node.children[n - 1];
                lemma_parts_without_templates(node, n - 1);
                match document_prefix(node, n, state, cx) {
                    Ok(next) => {
                        if part.rule == Rule::Block {
                            lemma_block_depth(part, part.children.len() as int, acc.state, cx);
                            let block = block_prefix(
                                part,
                                part.children.len() as int,
                                acc.state,
                                cx,
                            )->Ok_0;
                            lemma_nesting_concat(
                                acc.tokens,
                                block.tokens,
                                block.tokens.len() as int,
                            );
                        }
                    },
                    Err(_) => {},
                }
            },
            Err(_) => {},
        }
    } else {
        assert(nesting(Seq::<TokenModel>::empty()) == 0);
    }
}

/// The tokens of a document without templates nest as deep as the source:
/// child tokens lie within child tokens exactly as many levels deep as child
/// blocks lie within child blocks in the tree, whatever the text holds. The
/// generator writes each level of child tokens two spaces further in, inside
/// the tag of the element that holds them.
pub proof fn law_tokens_nest_as_deep_as_the_source(root: ParseNode, state: StateModel, cx: Context, lexed: Lexed)
    requires
        !mentions_templates(root),
        lexed_document(root, state, cx) == Ok::<_, ErrorModel>(lexed),
    ensures
        nesting(lexed.tokens) == source_depth(root),
{
    lemma_document_depth(root, root.children.len() as int, state, cx);
}

/// Of the pairs that bind a key, the first one counts: `key_index` finds a
/// pair with the key that has none before it, and finds nothing only where
/// no pair has the key.
pub proof fn law_first_binding_counts(attributes: Seq<(Seq<char>, Seq<char>)>, key: Seq<char>)
    ensures
        match key_index(attributes, key) {
            Some(i) => {
                &&& 0 <= i < attributes.len()
                &&& attributes[i].0 == key
                &&& forall|j: int| 0 <= j < i ==> (#[trigger] attributes[j]).0 != key
            },
            None => forall|j: int|
                0 <= j < attributes.len() ==> (#[trigger] attributes[j]).0 != key,
        },
    decreases attributes.len(),
{
    if attributes.len() > 0 {
        law_first_binding_counts(attributes.drop_last(), key);
        assert(forall|j: int|
            0 <= j < attributes.len() - 1 ==> attributes.drop_last()[j] == attributes[j]);
    }
}

/// Of the templates that go by a path, the first one counts, and templates
/// are never merged: `template_index` finds a template with the path that
/// has none before it, and finds nothing only where no template has the path.
pub proof fn law_first_template_counts(store: Seq<Template>, path: Seq<char>)
    ensures
        match template_index(store, path) {
            Some(i) => {
                &&& 0 <= i < store.len()
                &&& store[i].path@ == path
                &&& forall|j: int| 0 <= j < i ==> (#[trigger] store[j]).path@ != path
            },
            None => forall|j: int| 0 <= j < store.len() ==> (#[trigger] store[j]).path@ != path,
        },
    decreases store.len(),
{
    if store.len() > 0 {
        law_first_template_counts(store.drop_last(), path);
        assert(forall|j: int| 0 <= j < store.len() - 1 ==> store.drop_last()[j] == store[j]);
    }
}

} // verus!
