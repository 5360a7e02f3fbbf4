//! Templates: where they are looked for, and the store that holds the ones
//! that were found.

use vstd::prelude::*;
use crate::text::{char_replaced, replace_char, same_text};
use crate::token::lemma_model_push;
use crate::tree::{ParseNode, Rule};

verus! {

/// What a template file holds: a parsed document, or text that is no
/// document, with the parser's complaint.
#[derive(Debug)]
pub enum TemplateSource {
    Parsed(ParseNode),
    Unparsable(String),
}

/// A template that was found, under the path it is referenced by.
#[derive(Debug)]
pub struct Template {
    pub path: String,
    pub source: TemplateSource,
}

/// The path that a template name refers to: the name with each `-` read as
/// a path separator.
pub open spec fn template_path_of(name: Seq<char>) -> Seq<char> {
    char_replaced(name, '-', '/')
}

/// The path that a template name refers to.
pub fn template_path(name: &str) -> (path: String)
    ensures
        path@ == template_path_of(name@),
{
    replace_char(name, '-', '/')
}

/// Where the template `path` stands in `store`: the place of the first
/// template with this path, if there is one.
pub open spec fn template_index(store: Seq<Template>, path: Seq<char>) -> Option<int>
    decreases store.len(),
{
    if store.len() == 0 {
        None
    } else {
        match template_index(store.drop_last(), path) {
            Some(i) => Some(i),
            None => if store.last().path@ == path {
                Some(store.len() - 1)
            } else {
                None
            },
        }
    }
}

/// Finds the template `path` in `store`.
pub fn find_template(store: &Vec<Template>, path: &str) -> (place: Option<usize>)
    ensures
        match place {
            Some(i) => template_index(store@, path@) == Some(i as int) && i < store.len(),
            None => template_index(store@, path@) is None,
        },
{
    let mut place: Option<usize> = None;
    let mut i: usize = 0;
    while i < store.len()
        invariant
            i <= store.len(),
            match place {
                Some(at) => template_index(store@.take(i as int), path@) == Some(at as int) && at
                    < i,
                None => template_index(store@.take(i as int), path@) is None,
            },
        decreases store.len() - i,
    {
        assert(store@.take(i + 1).drop_last() == store@.take(i as int));
        if place.is_none() && same_text(store[i].path.as_str(), path) {
            place = Some(i);
        }
        i = i + 1;
    }
    assert(store@.take(i as int) == store@);
    place
}

/// The suffix of a template's file name.
pub open spec fn template_suffix() -> Seq<char> {
    seq!['.', 't', 'w', 'm', 'l']
}

/// The directories that templates are looked for in, in this order: the
/// working directory, the directory shared by the system's users, and the
/// user's own.
pub open spec fn template_directories() -> Seq<Seq<char>> {
    seq!["./"@, "/usr/share/twml/templates/"@, "~/.config/twml/templates/"@]
}

/// The files that may hold the template `path`, in the order in which they
/// are tried. The first one that exists is the template; the others are
/// not looked at.
pub open spec fn template_candidates_of(path: Seq<char>) -> Seq<Seq<char>> {
    Seq::new(3, |i: int| template_directories()[i] + path + template_suffix())
}

fn candidate(directory: &str, path: &str) -> (file: String)
    ensures
        file@ == directory@ + path@ + template_suffix(),
{
    let mut file = String::new();
    file.append(directory);
    file.append(path);
    file.push('.');
    file.push('t');
    file.push('w');
    file.push('m');
    file.push('l');
    assert(file@ =~= directory@ + path@ + template_suffix());
    file
}

/// The files that may hold the template `path`, in the order in which they
/// are tried.
pub fn template_candidates(path: &str) -> (files: Vec<String>)
    ensures
        files.deep_view() == template_candidates_of(path@),
{
    let mut files: Vec<String> = Vec::new();
    files.push(candidate("./", path));
    files.push(candidate("/usr/share/twml/templates/", path));
    files.push(candidate("~/.config/twml/templates/", path));
    assert(files.deep_view() =~= template_candidates_of(path@));
    files
}

/// What the search for a template finds, where `contents` holds, for each
/// candidate in the order of the candidates, what the file holds or `None`
/// where it does not exist: the content of the first file that exists. The
/// files behind it are not looked at, and nothing is merged.
pub open spec fn first_found_of(contents: Seq<Option<Seq<char>>>) -> Option<Seq<char>>
    decreases contents.len(),
{
    if contents.len() == 0 {
        None
    } else {
        match contents[0] {
            Some(text) => Some(text),
            None => first_found_of(contents.skip(1)),
        }
    }
}

/// Picks what the search for a template finds among what its candidates
/// hold.
pub fn first_found(contents: Vec<Option<String>>) -> (found: Option<String>)
    ensures
        found.deep_view() == first_found_of(contents.deep_view()),
{
    let ghost all = contents.deep_view();
    let mut contents = contents;
    let mut found: Option<String> = None;
    assert(all.skip(all.len() as int) =~= Seq::empty());
    while contents.len() > 0
        invariant
            contents.deep_view() == all.take(contents.len() as int),
            contents.len() <= all.len(),
            found.deep_view() == first_found_of(all.skip(contents.len() as int)),
        decreases contents.len(),
    {
        let ghost before = contents;
        let last = contents.pop();
        let ghost rest = all.skip(before.len() as int);
        let ghost from_here = all.skip(contents.len() as int);
        assert(from_here.skip(1) =~= rest);
        assert(contents.deep_view() =~= all.take(contents.len() as int));
        assert(from_here[0] == before.deep_view()[before.len() - 1]);
        match last {
            Some(Some(text)) => {
                found = Some(text);
            },
            _ => {},
        }
    }
    assert(all.skip(0) =~= all);
    found
}

/// The template paths that the first `n` parts of a node refer to, in
/// source order.
pub open spec fn references_prefix(node: ParseNode, n: int) -> Seq<Seq<char>>
    decreases node, n,
{
    if n <= 0 || n > node.children.len() {
        Seq::empty()
    } else {
        references_prefix(node, n - 1) + references_of(node.children[n - 1])
    }
}

/// The template paths that a tree refers to, in source order: one for each
/// template name in it.
pub open spec fn references_of(node: ParseNode) -> Seq<Seq<char>>
    decreases node, node.children.len() + 1,
{
    (if node.rule == Rule::BlockTemplateName {
        seq![template_path_of(node.text@)]
    } else {
        Seq::empty()
    }) + references_prefix(node, node.children.len() as int)
}

/// Adds the template paths that a tree refers to at the end of `paths`.
pub fn collect_references(node: &ParseNode, paths: &mut Vec<String>)
    ensures
        final(paths).deep_view() == old(paths).deep_view() + references_of(*node),
    decreases node,
{
    if node.rule == Rule::BlockTemplateName {
        let ghost before = *paths;
        let path = template_path(node.text.as_str());
        paths.push(path);
        proof {
            lemma_model_push(before, *paths, path);
        }
    }
    let ghost own = paths.deep_view();
    assert(own =~= old(paths).deep_view() + (if node.rule == Rule::BlockTemplateName {
        seq![template_path_of(node.text@)]
    } else {
        Seq::empty()
    }));
    let mut i: usize = 0;
    assert(own + references_prefix(*node, 0) =~= own);
    while i < node.children.len()
        invariant
            i <= node.children.len(),
            paths.deep_view() == own + references_prefix(*node, i as int),
        decreases node.children.len() - i,
    {
        assert(decreases_to!(node.children => node.children[i as int]));
        let ghost before = paths.deep_view();
        collect_references(&node.children[i], paths);
        assert(paths.deep_view() =~= own + references_prefix(*node, i + 1));
        i = i + 1;
    }
    assert(paths.deep_view() =~= old(paths).deep_view() + references_of(*node));
}

/// Whether `path` is among `paths`.
pub fn has_path(paths: &Vec<String>, path: &str) -> (found: bool)
    ensures
        found == paths.deep_view().contains(path@),
{
    let mut i: usize = 0;
    while i < paths.len()
        invariant
            i <= paths.len(),
            forall|j: int| 0 <= j < i ==> paths.deep_view()[j] != path@,
        decreases paths.len() - i,
    {
        if same_text(paths[i].as_str(), path) {
            assert(paths.deep_view()[i as int] == path@);
            return true;
        }
        i = i + 1;
    }
    false
}

/// The templates of a document, while they are being gathered: the ones
/// found so far, the paths still to be looked for, and the paths that no
/// file was found for.
///
/// A caller asks `next_request` for a path, looks for the file among the
/// path's candidates, and hands what it found to `supply`, until no request
/// is left.
#[derive(Debug)]
pub struct TemplateLoader {
    pub store: Vec<Template>,
    pub pending: Vec<String>,
    pub missing: Vec<String>,
}

/// Whether the loader has an answer for `path`: a template, or the knowledge
/// that there is none.
pub open spec fn is_settled(loader: TemplateLoader, path: Seq<char>) -> bool {
    template_index(loader.store@, path) is Some || loader.missing.deep_view().contains(path)
}

/// Whether `request` is the next request of `loader`, and `left` what is
/// pending after it: `left` is the pending paths up to the requested one,
/// which is not settled, while every path behind it is; or nothing is left,
/// nothing is requested, and every pending path is settled.
pub open spec fn is_next_request(
    loader: TemplateLoader,
    left: Seq<Seq<char>>,
    request: Option<String>,
) -> bool {
    let pending = loader.pending.deep_view();
    let kept = left.len() as int;
    &&& kept <= pending.len()
    &&& left == pending.take(kept)
    &&& match request {
        Some(path) => {
            &&& kept < pending.len()
            &&& path@ == pending[kept]
            &&& !is_settled(loader, path@)
            &&& forall|j: int| kept < j < pending.len() ==> is_settled(loader, #[trigger] pending[j])
        },
        None => {
            &&& kept == 0
            &&& forall|j: int| 0 <= j < pending.len() ==> is_settled(loader, #[trigger] pending[j])
        },
    }
}

impl TemplateLoader {
    /// A loader for the templates that `root` refers to.
    pub fn new(root: &ParseNode) -> (loader: TemplateLoader)
        ensures
            loader.store@.len() == 0,
            loader.missing@.len() == 0,
            loader.pending.deep_view() == references_of(*root),
    {
        let mut pending: Vec<String> = Vec::new();
        assert(pending.deep_view() =~= Seq::empty());
        collect_references(root, &mut pending);
        assert(pending.deep_view() =~= references_of(*root));
        TemplateLoader { store: Vec::new(), pending, missing: Vec::new() }
    }

    /// The next path to look for: the last pending one that is not settled
    /// yet. Settled paths behind it are dropped on the way. `None` once every
    /// pending path is settled.
    pub fn next_request(&mut self) -> (request: Option<String>)
        ensures
            final(self).store == old(self).store,
            final(self).missing == old(self).missing,
            is_next_request(*old(self), final(self).pending.deep_view(), request),
    {
        let ghost all = self.pending.deep_view();
        assert(all.take(all.len() as int) =~= all);
        loop
            invariant
                self.store == old(self).store,
                self.missing == old(self).missing,
                all == old(self).pending.deep_view(),
                self.pending.deep_view().len() <= all.len(),
                self.pending.deep_view() == all.take(self.pending.deep_view().len() as int),
                forall|j: int|
                    self.pending.deep_view().len() <= j < all.len() ==> is_settled(
                        *old(self),
                        #[trigger] all[j],
                    ),
            decreases self.pending.len(),
        {
            let ghost before = self.pending;
            match self.pending.pop() {
                None => {
                    return None;
                },
                Some(path) => {
                    assert(self.pending.deep_view() =~= all.take(
                        self.pending.deep_view().len() as int,
                    ));
                    assert(path@ == all[self.pending.deep_view().len() as int]) by {
                        assert(before.deep_view()[before.len() - 1] == path@);
                    }
                    let found = find_template(&self.store, path.as_str());
                    if found.is_none() && !has_path(&self.missing, path.as_str()) {
                        return Some(path);
                    }
                },
            }
        }
    }

    /// Takes the answer to a request: the content of the first file that
    /// exists among the path's candidates, or `None` where none exists. A
    /// template that was found joins the store, and the paths that it
    /// refers to become pending behind the others.
    pub fn supply(&mut self, path: String, source: Option<TemplateSource>)
        ensures
            match source {
                None => {
                    &&& final(self).store == old(self).store
                    &&& final(self).pending == old(self).pending
                    &&& final(self).missing.deep_view() == old(self).missing.deep_view().push(
                        path@,
                    )
                },
                Some(found) => {
                    &&& final(self).missing == old(self).missing
                    &&& final(self).store@ == old(self).store@.push(
                        Template { path, source: found },
                    )
                    &&& final(self).pending.deep_view() == old(self).pending.deep_view() + (
                    match found {
                        TemplateSource::Parsed(root) => references_of(root),
                        TemplateSource::Unparsable(_) => Seq::empty(),
                    })
                },
            },
    {
        match source {
            None => {
                let ghost before = self.missing;
                self.missing.push(path);
                proof {
                    lemma_model_push(before, self.missing, path);
                }
            },
            Some(found) => {
                match &found {
                    TemplateSource::Parsed(root) => {
                        collect_references(root, &mut self.pending);
                    },
                    TemplateSource::Unparsable(_) => {
                        assert(self.pending.deep_view() + Seq::<Seq<char>>::empty()
                            =~= self.pending.deep_view());
                    },
                }
                self.store.push(Template { path, source: found });
            },
        }
    }
}

} // verus!
