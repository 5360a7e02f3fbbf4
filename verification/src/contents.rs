//! The table of contents of a document without templates, read off its tree.
//!
//! `pages_of` counts the pages that a part of the tree begins, and
//! `headings_of` lists its headings with the pages they stand on, both by
//! walking the tree in source order. The lexer, which finds the same while it
//! makes tokens, is proved to leave exactly this list in its state.

use vstd::prelude::*;
use crate::error::ErrorModel;
use crate::laws::{lemma_parts_without_templates, mentions_templates};
use crate::lexer::{
    block_prefix, children_prefix, class_list, document_prefix, element_prefix, lexed_document,
    page_class, toc_class, Context, Lexed,
};
use crate::shape::{lemma_parts_are_shaped, parts_shape, shaped};
use crate::state::{ScopeModel, StateModel};
use crate::substitute::substituted;
use crate::tree::{ParseNode, Rule};

verus! {

/// The classes of an element: those of the class list that follows its
/// name, or none where no class list does.
pub open spec fn element_classes(element: ParseNode, scope: ScopeModel) -> Seq<Seq<char>> {
    if element.children.len() >= 2 && element.children[1].rule == Rule::BlockElementClasses {
        match class_list(element.children[1], Rule::BlockElementClass, scope) {
            Ok(classes) => classes,
            Err(_) => Seq::empty(),
        }
    } else {
        Seq::empty()
    }
}

/// How many pages an element begins by itself: one where it has the class
/// `page`, none otherwise.
pub open spec fn own_pages(element: ParseNode, scope: ScopeModel) -> nat {
    if element_classes(element, scope).contains(page_class()) {
        1
    } else {
        0
    }
}

/// How many pages begin within the first `n` parts of a document, a block
/// or a child block.
pub open spec fn pages_prefix(node: ParseNode, n: int, scope: ScopeModel) -> nat
    decreases node, n,
{
    if n <= 0 || n > node.children.len() {
        0
    } else {
        pages_prefix(node, n - 1, scope) + pages_of(node.children[n - 1], scope)
    }
}

/// How many pages begin within a block or an element: for an element, its
/// own and those of the elements in its child block.
pub open spec fn pages_of(part: ParseNode, scope: ScopeModel) -> nat
    decreases part, part.children.len() + 1,
{
    match part.rule {
        Rule::Block => pages_prefix(part, part.children.len() as int, scope),
        Rule::BlockElement => own_pages(part, scope) + (if part.children.len() >= 1
            && part.children[part.children.len() - 1].rule == Rule::BlockChildren {
            pages_prefix(
                part.children[part.children.len() - 1],
                part.children[part.children.len() - 1].children.len() as int,
                scope,
            )
        } else {
            0
        }),
        _ => 0,
    }
}

/// The headings within the first `n` parts of a document, a block or a
/// child block, in source order, each with the page it stands on, where
/// `page` pages have begun before the first part.
pub open spec fn headings_prefix(node: ParseNode, n: int, scope: ScopeModel, page: nat) -> Seq<
    (Seq<char>, nat),
>
    decreases node, n,
{
    if n <= 0 || n > node.children.len() {
        Seq::empty()
    } else {
        headings_prefix(node, n - 1, scope, page) + headings_of(
            node.children[n - 1],
            scope,
            page + pages_prefix(node, n - 1, scope),
        )
    }
}

/// The headings within a block or an element, where `page` pages have begun
/// before it. An element with the class `toc` and inline content is a
/// heading; it stands on the page that is current once the element's own
/// page, if it begins one, is counted. The headings of an element's child
/// block come after that count too.
pub open spec fn headings_of(part: ParseNode, scope: ScopeModel, page: nat) -> Seq<
    (Seq<char>, nat),
>
    decreases part, part.children.len() + 1,
{
    match part.rule {
        Rule::Block => headings_prefix(part, part.children.len() as int, scope, page),
        Rule::BlockElement => if part.children.len() >= 1 {
            let here = page + own_pages(part, scope);
            let last = part.children[part.children.len() - 1];
            if last.rule == Rule::BlockChildren {
                headings_prefix(last, last.children.len() as int, scope, here)
            } else if last.rule == Rule::BlockElementContent && element_classes(
                part,
                scope,
            ).contains(toc_class()) {
                seq![(substituted(last.text@, scope.attributes), here)]
            } else {
                Seq::empty()
            }
        } else {
            Seq::empty()
        },
        _ => Seq::empty(),
    }
}

/// Headings as the entries of a table of contents.
pub open spec fn listed(headings: Seq<(Seq<char>, nat)>) -> Seq<(Seq<char>, usize)> {
    Seq::new(headings.len(), |i: int| (headings[i].0, headings[i].1 as usize))
}

/// Whether `after` is `before` with `pages` more pages begun and with
/// `headings` listed behind what was listed.
pub open spec fn follows(
    before: StateModel,
    after: StateModel,
    pages: nat,
    headings: Seq<(Seq<char>, nat)>,
) -> bool {
    &&& after.page_number == before.page_number + pages
    &&& after.toc == before.toc + listed(headings)
}

/// Two steps, one after the other, add up.
pub proof fn lemma_follows_chain(
    a: StateModel,
    b: StateModel,
    c: StateModel,
    first_pages: nat,
    first: Seq<(Seq<char>, nat)>,
    second_pages: nat,
    second: Seq<(Seq<char>, nat)>,
)
    requires
        follows(a, b, first_pages, first),
        follows(b, c, second_pages, second),
    ensures
        follows(a, c, first_pages + second_pages, first + second),
{
    assert(a.toc + listed(first) + listed(second) =~= a.toc + listed(first + second));
}

/// A state follows itself by nothing.
pub proof fn lemma_follows_nothing(a: StateModel)
    ensures
        follows(a, a, 0, Seq::empty()),
{
    assert(a.toc + listed(Seq::empty()) =~= a.toc);
}

/// The parts of an element stand in the grammar's order up to each part.
pub proof fn lemma_parts_so_far(node: ParseNode, n: int)
    requires
        0 <= n <= node.children.len(),
        parts_shape(node, node.children.len() as int) is Some,
    ensures
        parts_shape(node, n) is Some,
    decreases node.children.len() - n,
{
    if n < node.children.len() {
        lemma_parts_so_far(node, n + 1);
    }
}

/// What reading the first `n` parts of an element has done to the state:
/// nothing after the name alone; after that the element's own page is
/// counted, and, once its content or its child block is read, its headings
/// are listed.
pub open spec fn element_progress(
    node: ParseNode,
    n: int,
    state: StateModel,
    scope: ScopeModel,
    after: StateModel,
    toc: bool,
) -> bool {
    let here = (state.page_number + own_pages(node, scope)) as nat;
    let last = node.children[n - 1];
    if n <= 1 {
        after == state && !toc
    } else if last.rule == Rule::BlockChildren {
        follows(
            state,
            after,
            own_pages(node, scope) + pages_prefix(last, last.children.len() as int, scope),
            headings_prefix(last, last.children.len() as int, scope, here),
        )
    } else if last.rule == Rule::BlockElementContent {
        follows(
            state,
            after,
            own_pages(node, scope),
            if element_classes(node, scope).contains(toc_class()) {
                seq![(substituted(last.text@, scope.attributes), here)]
            } else {
                Seq::empty()
            },
        )
    } else {
        &&& follows(state, after, own_pages(node, scope), Seq::empty())
        &&& toc == element_classes(node, scope).contains(toc_class())
    }
}

/// Reading the first `n` parts of an element does to the state what
/// `element_progress` says.
pub proof fn lemma_element_contents(node: ParseNode, n: int, state: StateModel, cx: Context)
    requires
        shaped(node),
        !mentions_templates(node),
        node.rule == Rule::BlockElement,
        0 <= n <= node.children.len(),
    ensures
        match element_prefix(node, n, state, cx) {
            Ok(acc) => element_progress(node, n, state, cx.scope, acc.state, acc.toc),
            Err(_) => true,
        },
    decreases cx.depth, node, n,
{
    lemma_parts_so_far(node, n);
    if n == 1 {
        reveal_with_fuel(element_prefix, 2);
    } else if n >= 2 {
        lemma_parts_so_far(node, n - 1);
        lemma_element_contents(node, n - 1, state, cx);
        if n >= 3 {
            lemma_parts_so_far(node, n - 2);
        }
        match element_prefix(node, n - 1, state, cx) {
            Ok(acc) => {
                let part = node.children[n - 1];
                lemma_parts_without_templates(node, n - 1);
                lemma_follows_nothing(acc.state);
                lemma_follows_nothing(state);
                let before = parts_shape(node, n - 1)->Some_0;
                assert(!(before is Outside));
                if part.rule == Rule::BlockElementClasses {
                    assert(before is Opened);
                    assert(n == 2);
                }
                match element_prefix(node, n, state, cx) {
                    Ok(next) => {
                        let here = (state.page_number + own_pages(node, cx.scope)) as nat;
                        if part.rule == Rule::BlockChildren {
                            lemma_children_contents(
                                part,
                                part.children.len() as int,
                                acc.state,
                                cx,
                            );
                            lemma_follows_chain(
                                state,
                                acc.state,
                                next.state,
                                own_pages(node, cx.scope),
                                Seq::empty(),
                                pages_prefix(part, part.children.len() as int, cx.scope),
                                headings_prefix(
                                    part,
                                    part.children.len() as int,
                                    cx.scope,
                                    here,
                                ),
                            );
                            assert(Seq::<(Seq<char>, nat)>::empty() + headings_prefix(
                                part,
                                part.children.len() as int,
                                cx.scope,
                                here,
                            ) =~= headings_prefix(
                                part,
                                part.children.len() as int,
                                cx.scope,
                                here,
                            ));
                        } else if part.rule == Rule::BlockElementContent {
                            let content = substituted(part.text@, cx.scope.attributes);
                            assert(listed(seq![(content, here)]) =~= seq![
                                (content, acc.state.page_number),
                            ]);
                            assert(acc.state.toc.push((content, acc.state.page_number))
                                =~= acc.state.toc + seq![(content, acc.state.page_number)]);
                        }
                    },
                    Err(_) => {},
                }
            },
            Err(_) => {},
        }
    }
}

/// An element begins the pages and lists the headings that `pages_of` and
/// `headings_of` read off it.
pub proof fn lemma_whole_element_contents(node: ParseNode, state: StateModel, cx: Context)
    requires
        shaped(node),
        !mentions_templates(node),
        node.rule == Rule::BlockElement,
    ensures
        match element_prefix(node, node.children.len() as int, state, cx) {
            Ok(acc) => follows(
                state,
                acc.state,
                pages_of(node, cx.scope),
                headings_of(node, cx.scope, state.page_number as nat),
            ),
            Err(_) => true,
        },
    decreases cx.depth, node, node.children.len() + 1,
{
    let n = node.children.len() as int;
    lemma_element_contents(node, n, state, cx);
    lemma_follows_nothing(state);
    if n == 1 {
        assert(element_classes(node, cx.scope) =~= Seq::<Seq<char>>::empty());
    }
}

/// A block begins the pages and lists the headings that are read off it.
pub proof fn lemma_block_contents(node: ParseNode, n: int, state: StateModel, cx: Context)
    requires
        shaped(node),
        !mentions_templates(node),
    ensures
        match block_prefix(node, n, state, cx) {
            Ok(lexed) => follows(
                state,
                lexed.state,
                pages_prefix(node, n, cx.scope),
                headings_prefix(node, n, cx.scope, state.page_number as nat),
            ),
            Err(_) => true,
        },
    decreases cx.depth, node, n,
{
    if 0 < n <= node.children.len() {
        lemma_block_contents(node, n - 1, state, cx);
        match block_prefix(node, n - 1, state, cx) {
            Ok(acc) => {
                let part = node.children[n - 1];
                lemma_parts_without_templates(node, n - 1);
                lemma_parts_are_shaped(node, n - 1);
                match block_prefix(node, n, state, cx) {
                    Ok(next) => {
                        if part.rule == Rule::BlockElement {
                            lemma_whole_element_contents(part, acc.state, cx);
                        } else {
                            lemma_follows_nothing(acc.state);
                        }
                        lemma_follows_chain(
                            state,
                            acc.state,
                            next.state,
                            pages_prefix(node, n - 1, cx.scope),
                            headings_prefix(node, n - 1, cx.scope, state.page_number as nat),
                            pages_of(part, cx.scope),
                            headings_of(part, cx.scope, acc.state.page_number as nat),
                        );
                    },
                    Err(_) => {},
                }
            },
            Err(_) => {},
        }
    } else {
        lemma_follows_nothing(state);
    }
}

/// A child block begins the pages and lists the headings that are read off
/// it.
pub proof fn lemma_children_contents(node: ParseNode, n: int, state: StateModel, cx: Context)
    requires
        shaped(node),
        !mentions_templates(node),
    ensures
        match children_prefix(node, n, state, cx) {
            Ok(lexed) => follows(
                state,
                lexed.state,
                pages_prefix(node, n, cx.scope),
                headings_prefix(node, n, cx.scope, state.page_number as nat),
            ),
            Err(_) => true,
        },
    decreases cx.depth, node, n,
{
    if 0 < n <= node.children.len() {
        lemma_children_contents(node, n - 1, state, cx);
        match children_prefix(node, n - 1, state, cx) {
            Ok(acc) => {
                let part = node.children[n - 1];
                lemma_parts_without_templates(node, n - 1);
                lemma_parts_are_shaped(node, n - 1);
                match children_prefix(node, n, state, cx) {
                    Ok(next) => {
                        lemma_block_contents(part, part.children.len() as int, acc.state, cx);
                        lemma_follows_chain(
                            state,
                            acc.state,
                            next.state,
                            pages_prefix(node, n - 1, cx.scope),
                            headings_prefix(node, n - 1, cx.scope, state.page_number as nat),
                            pages_of(part, cx.scope),
                            headings_of(part, cx.scope, acc.state.page_number as nat),
                        );
                    },
                    Err(_) => {},
                }
            },
            Err(_) => {},
        }
    } else {
        lemma_follows_nothing(state);
    }
}

/// A document begins the pages and lists the headings that are read off it.
pub proof fn lemma_document_contents(node: ParseNode, n: int, state: StateModel, cx: Context)
    requires
        shaped(node),
        !mentions_templates(node),
    ensures
        match document_prefix(node, n, state, cx) {
            Ok(lexed) => follows(
                state,
                lexed.state,
                pages_prefix(node, n, cx.scope),
                headings_prefix(node, n, cx.scope, state.page_number as nat),
            ),
            Err(_) => true,
        },
    decreases cx.depth, node, n,
{
    if 0 < n <= node.children.len() {
        lemma_document_contents(node, n - 1, state, cx);
        match document_prefix(node, n - 1, state, cx) {
            Ok(acc) => {
                let part = node.children[n - 1];
                lemma_parts_without_templates(node, n - 1);
                lemma_parts_are_shaped(node, n - 1);
                match document_prefix(node, n, state, cx) {
                    Ok(next) => {
                        if part.rule == Rule::Block {
                            lemma_block_contents(part, part.children.len() as int, acc.state, cx);
                        } else {
                            lemma_follows_nothing(acc.state);
                        }
                        lemma_follows_chain(
                            state,
                            acc.state,
                            next.state,
                            pages_prefix(node, n - 1, cx.scope),
                            headings_prefix(node, n - 1, cx.scope, state.page_number as nat),
                            pages_of(part, cx.scope),
                            headings_of(part, cx.scope, acc.state.page_number as nat),
                        );
                    },
                    Err(_) => {},
                }
            },
            Err(_) => {},
        }
    } else {
        lemma_follows_nothing(state);
    }
}

/// The table of contents of a document without templates is exactly its
/// headings in source order: after compiling, the state lists what it
/// listed before and then, for each element with the class `toc` and inline
/// content, that content with the number of pages begun at or before the
/// element; nothing is left out and nothing is added. The page number has
/// gone up by the number of elements with the class `page`.
pub proof fn law_toc_is_the_headings_in_order(
    root: ParseNode,
    state: StateModel,
    cx: Context,
    lexed: Lexed,
)
    requires
        shaped(root),
        !mentions_templates(root),
        lexed_document(root, state, cx) == Ok::<_, ErrorModel>(lexed),
    ensures
        lexed.state.page_number == state.page_number + pages_prefix(
            root,
            root.children.len() as int,
            cx.scope,
        ),
        lexed.state.toc == state.toc + listed(
            headings_prefix(
                root,
                root.children.len() as int,
                cx.scope,
                state.page_number as nat,
            ),
        ),
{
    lemma_document_contents(root, root.children.len() as int, state, cx);
}

} // verus!
