//! What the lexer carries along: the compiler state that it hands on from
//! token to token, and the scope that a template body is read in.

use vstd::prelude::*;
use crate::token::{lemma_model_push, lemma_model_take, Attributes, Token, TokenModel};

verus! {

/// One entry of the table of contents: a heading and the number of the page
/// it stands on, counted from 1.
pub type TocEntry = (String, usize);

/// The compiler state: how many pages have begun, and the table of contents
/// so far, in document order.
#[derive(Debug)]
pub struct LexerState {
    pub page_number: usize,
    pub toc: Vec<TocEntry>,
}

/// The compiler state as a mathematical value.
pub struct StateModel {
    pub page_number: usize,
    pub toc: Seq<(Seq<char>, usize)>,
}

impl DeepView for LexerState {
    type V = StateModel;

    open spec fn deep_view(&self) -> StateModel {
        StateModel { page_number: self.page_number, toc: self.toc.deep_view() }
    }
}

impl Default for LexerState {
    /// The state before anything was read: no page, no entry.
    fn default() -> (state: LexerState)
        ensures
            state.deep_view() == (StateModel { page_number: 0, toc: Seq::empty() }),
    {
        let state = LexerState { page_number: 0, toc: Vec::new() };
        assert(state.toc.deep_view() =~= Seq::empty());
        state
    }
}

impl LexerState {
    /// A copy of the state.
    pub fn duplicate(&self) -> (copy: LexerState)
        ensures
            copy.deep_view() == self.deep_view(),
    {
        let mut toc: Vec<TocEntry> = Vec::new();
        let mut i: usize = 0;
        assert(toc.deep_view() =~= self.toc.deep_view().take(0));
        while i < self.toc.len()
            invariant
                i <= self.toc.len(),
                toc.deep_view() == self.toc.deep_view().take(i as int),
            decreases self.toc.len() - i,
        {
            let ghost before = toc;
            let entry = (self.toc[i].0.clone(), self.toc[i].1);
            toc.push(entry);
            proof {
                lemma_model_push(before, toc, entry);
                lemma_model_take(self.toc, i as int);
            }
            i = i + 1;
        }
        assert(self.toc.deep_view().take(i as int) =~= self.toc.deep_view());
        LexerState { page_number: self.page_number, toc }
    }
}

/// What one template invocation supplies to the template's body: the tokens
/// for its children slot, the classes for its class slot, and the values of
/// its named placeholders. A slot that the caller left out is `None`. A body
/// sees the scope of its own invocation and no other.
#[derive(Debug)]
pub struct Scope {
    pub children: Option<Vec<Token>>,
    pub classes: Option<Vec<String>>,
    pub attributes: Attributes,
}

/// A scope as a mathematical value.
pub struct ScopeModel {
    pub children: Option<Seq<TokenModel>>,
    pub classes: Option<Seq<Seq<char>>>,
    pub attributes: Seq<(Seq<char>, Seq<char>)>,
}

impl DeepView for Scope {
    type V = ScopeModel;

    open spec fn deep_view(&self) -> ScopeModel {
        ScopeModel {
            children: self.children.deep_view(),
            classes: self.classes.deep_view(),
            attributes: self.attributes.deep_view(),
        }
    }
}

/// The scope of a document that no template invoked: nothing is supplied.
pub open spec fn root_scope() -> ScopeModel {
    ScopeModel { children: None, classes: None, attributes: Seq::empty() }
}

impl Scope {
    /// The scope of a document that no template invoked.
    pub fn root() -> (scope: Scope)
        ensures
            scope.deep_view() == root_scope(),
    {
        let scope = Scope { children: None, classes: None, attributes: Vec::new() };
        assert(scope.attributes.deep_view() =~= Seq::empty());
        scope
    }
}

} // verus!
