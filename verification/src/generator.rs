//! From tokens to the text of the document's body.

use vstd::prelude::*;
use crate::error::{failure, CompileError, ErrorKind};
use crate::parser::DocumentParser;
use crate::text::{blanks, joined, push_blanks, push_joined, same_text};
use crate::token::{lemma_children_model, Attributes, Token, TokenModel};

verus! {

/// What ends an element that holds nothing: ` />`.
pub open spec fn self_close() -> Seq<char> {
    seq![' ', '/', '>']
}

/// What separates two lines of text: `<br />`.
pub open spec fn line_break() -> Seq<char> {
    seq!['<', 'b', 'r', ' ', '/', '>']
}

/// The name of the element whose text is kept as it was written: `pre`.
pub open spec fn verbatim_name() -> Seq<char> {
    seq!['p', 'r', 'e']
}

/// A class list as one attribute: ` class="a b c"`.
pub open spec fn classes_text(classes: Seq<Seq<char>>) -> Seq<char> {
    seq![' ', 'c', 'l', 'a', 's', 's', '=', '"'] + joined(classes, seq![' ']) + seq!['"']
}

/// An attribute list, each pair as ` key="value"`, in the list's order.
pub open spec fn attributes_text(attributes: Seq<(Seq<char>, Seq<char>)>) -> Seq<char>
    decreases attributes.len(),
{
    if attributes.len() == 0 {
        Seq::empty()
    } else {
        attributes_text(attributes.drop_last()) + seq![' '] + attributes.last().0 + seq!['=', '"']
            + attributes.last().1 + seq!['"']
    }
}

/// The closing tag of the element `name`: `</name>`.
pub open spec fn close_tag(name: Seq<char>) -> Seq<char> {
    seq!['<', '/'] + name + seq!['>']
}

/// Where the generator stands after some tokens of a sequence: the text so
/// far, whether the last element is still open, the name of the nearest
/// element, and whether a line of text came since that element opened.
pub struct Rendering {
    pub html: Seq<char>,
    pub open: bool,
    pub name: Seq<char>,
    pub after_line: bool,
}

/// How deep `ChildTokens` nest within the first `n` tokens.
pub open spec fn nesting_prefix(tokens: Seq<TokenModel>, n: int) -> nat
    decreases tokens, n,
{
    if n <= 0 || n > tokens.len() {
        0
    } else {
        let before = nesting_prefix(tokens, n - 1);
        match tokens[n - 1] {
            TokenModel::ChildTokens { children } => {
                let below = 1 + nesting_prefix(children, children.len() as int);
                if below > before {
                    below
                } else {
                    before
                }
            },
            _ => before,
        }
    }
}

/// How deep `ChildTokens` nest within `tokens`: 0 where there are none.
pub open spec fn nesting(tokens: Seq<TokenModel>) -> nat {
    nesting_prefix(tokens, tokens.len() as int)
}

/// The text that a standing amounts to once its sequence has ended: the text
/// so far, and the closing of the last element where that one is still open.
pub open spec fn finished(end: Rendering) -> Seq<char> {
    if end.open {
        end.html + self_close()
    } else {
        end.html
    }
}

/// The generator's standing after the first `n` tokens, at an indentation of
/// `indent` spaces and inside an element named `enclosing`.
///
/// Lines of text belong to the block they stand in: whether they are kept
/// as written is decided by `enclosing`, the element around the block, and
/// not by an element that was opened and closed beside them.
pub open spec fn render_prefix(
    tokens: Seq<TokenModel>,
    n: int,
    indent: nat,
    enclosing: Seq<char>,
) -> Rendering
    decreases tokens, n,
{
    if n <= 0 || n > tokens.len() {
        Rendering { html: Seq::empty(), open: false, name: enclosing, after_line: false }
    } else {
        let acc = render_prefix(tokens, n - 1, indent, enclosing);
        let verbatim = enclosing == verbatim_name();
        match tokens[n - 1] {
            TokenModel::ElementOpen { name } => Rendering {
                html: acc.html + (if acc.open {
                    self_close()
                } else {
                    Seq::empty()
                }) + seq!['\n'] + blanks(indent) + seq!['<'] + name,
                open: true,
                name: name,
                after_line: false,
            },
            TokenModel::ElementClasses { classes } => Rendering {
                html: acc.html + classes_text(classes),
                ..acc
            },
            TokenModel::ElementAttributes { attributes } => Rendering {
                html: acc.html + attributes_text(attributes),
                ..acc
            },
            TokenModel::InlineContent { content } => Rendering {
                html: acc.html + seq!['>'] + content + close_tag(acc.name),
                open: false,
                ..acc
            },
            TokenModel::ChildTokens { children } => Rendering {
                html: acc.html + seq!['>'] + finished(
                    render_prefix(children, children.len() as int, indent + 2, acc.name),
                ) + seq!['\n'] + blanks(indent) + close_tag(acc.name),
                open: false,
                ..acc
            },
            TokenModel::BlankLine => Rendering {
                html: acc.html + (if verbatim {
                    Seq::empty()
                } else {
                    line_break()
                }) + seq!['\n'],
                ..acc
            },
            TokenModel::TextLine { content } => Rendering {
                html: acc.html + (if acc.after_line && !verbatim {
                    line_break()
                } else {
                    Seq::empty()
                }) + seq!['\n'] + (if verbatim {
                    Seq::empty()
                } else {
                    blanks(indent)
                }) + content,
                after_line: true,
                ..acc
            },
        }
    }
}

/// The text of a token sequence that stands in the element `enclosing`, at
/// an indentation of `indent` spaces. An element that is still open where
/// the sequence ends is closed there, in a nested block as at the top.
pub open spec fn rendered(tokens: Seq<TokenModel>, indent: nat, enclosing: Seq<char>) -> Seq<
    char,
> {
    finished(render_prefix(tokens, tokens.len() as int, indent, enclosing))
}

/// Appends an attribute list to `out`.
fn push_attributes(out: &mut String, attributes: &Attributes)
    ensures
        final(out)@ == old(out)@ + attributes_text(attributes.deep_view()),
{
    let mut i: usize = 0;
    assert(attributes.deep_view().take(0) =~= Seq::empty());
    while i < attributes.len()
        invariant
            i <= attributes.len(),
            out@ == old(out)@ + attributes_text(attributes.deep_view().take(i as int)),
        decreases attributes.len() - i,
    {
        let ghost before = out@;
        let ghost longer = attributes.deep_view().take(i + 1);
        assert(longer.drop_last() == attributes.deep_view().take(i as int));
        assert(longer.last() == (attributes[i as int].0@, attributes[i as int].1@));
        out.push(' ');
        out.append(attributes[i].0.as_str());
        out.push('=');
        out.push('"');
        out.append(attributes[i].1.as_str());
        out.push('"');
        assert(out@ == before + seq![' '] + longer.last().0 + seq!['=', '"'] + longer.last().1
            + seq!['"']);
        i = i + 1;
    }
    assert(attributes.deep_view().take(i as int) == attributes.deep_view());
}

/// Appends `</name>` to `out`.
fn push_close_tag(out: &mut String, name: &str)
    ensures
        final(out)@ == old(out)@ + close_tag(name@),
{
    out.push('<');
    out.push('/');
    out.append(name);
    out.push('>');
    assert(out@ =~= old(out)@ + close_tag(name@));
}

/// Appends `<br />` to `out`.
fn push_line_break(out: &mut String)
    ensures
        final(out)@ == old(out)@ + line_break(),
{
    out.push('<');
    out.push('b');
    out.push('r');
    out.push(' ');
    out.push('/');
    out.push('>');
    assert(out@ =~= old(out)@ + line_break());
}

/// Appends ` />` to `out`.
fn push_self_close(out: &mut String)
    ensures
        final(out)@ == old(out)@ + self_close(),
{
    out.push(' ');
    out.push('/');
    out.push('>');
    assert(out@ =~= old(out)@ + self_close());
}

/// Whether `name` is `pre`.
fn is_verbatim(name: &str) -> (yes: bool)
    ensures
        yes == (name@ == verbatim_name()),
{
    proof {
        reveal_strlit("pre");
    }
    assert("pre"@ =~= verbatim_name());
    same_text(name, "pre")
}

/// Opens the element `name` on a line of its own, closing the element before
/// it if that one is still open.
fn push_open(out: &mut String, open: bool, indentation: usize, name: &str)
    ensures
        final(out)@ == old(out)@ + (if open {
            self_close()
        } else {
            Seq::empty()
        }) + seq!['\n'] + blanks(indentation as nat) + seq!['<'] + name@,
{
    if open {
        push_self_close(out);
    }
    let ghost closed = out@;
    assert(closed =~= old(out)@ + (if open {
        self_close()
    } else {
        Seq::empty()
    }));
    out.push('\n');
    push_blanks(out, indentation);
    out.push('<');
    out.append(name);
    assert(out@ =~= closed + seq!['\n'] + blanks(indentation as nat) + seq!['<'] + name@);
}

/// Appends a class list as one attribute.
fn push_classes(out: &mut String, classes: &Vec<String>)
    ensures
        final(out)@ == old(out)@ + classes_text(classes.deep_view()),
{
    out.push(' ');
    out.push('c');
    out.push('l');
    out.push('a');
    out.push('s');
    out.push('s');
    out.push('=');
    out.push('"');
    proof {
        reveal_strlit(" ");
    }
    assert(" "@ =~= seq![' ']);
    push_joined(out, classes, " ");
    out.push('"');
    assert(out@ =~= old(out)@ + classes_text(classes.deep_view()));
}

/// Appends inline content and the closing tag of the element around it.
fn push_inline(out: &mut String, content: &str, name: &str)
    ensures
        final(out)@ == old(out)@ + seq!['>'] + content@ + close_tag(name@),
{
    out.push('>');
    out.append(content);
    push_close_tag(out, name);
    assert(out@ =~= old(out)@ + seq!['>'] + content@ + close_tag(name@));
}

/// Appends a nested block, already written, and the closing tag of the
/// element around it.
fn push_block(out: &mut String, inner: &str, indentation: usize, name: &str)
    ensures
        final(out)@ == old(out)@ + seq!['>'] + inner@ + seq!['\n'] + blanks(indentation as nat)
            + close_tag(name@),
{
    out.push('>');
    out.append(inner);
    out.push('\n');
    push_blanks(out, indentation);
    push_close_tag(out, name);
    assert(out@ =~= old(out)@ + seq!['>'] + inner@ + seq!['\n'] + blanks(indentation as nat)
        + close_tag(name@));
}

/// Appends an empty line.
fn push_blank_line(out: &mut String, verbatim: bool)
    ensures
        final(out)@ == old(out)@ + (if verbatim {
            Seq::empty()
        } else {
            line_break()
        }) + seq!['\n'],
{
    if !verbatim {
        push_line_break(out);
    }
    let ghost broken = out@;
    assert(broken =~= old(out)@ + (if verbatim {
        Seq::empty()
    } else {
        line_break()
    }));
    out.push('\n');
    assert(out@ =~= broken + seq!['\n']);
}

/// Appends a line of text.
fn push_text_line(
    out: &mut String,
    content: &str,
    after_line: bool,
    verbatim: bool,
    indentation: usize,
)
    ensures
        final(out)@ == old(out)@ + (if after_line && !verbatim {
            line_break()
        } else {
            Seq::empty()
        }) + seq!['\n'] + (if verbatim {
            Seq::empty()
        } else {
            blanks(indentation as nat)
        }) + content@,
{
    if after_line && !verbatim {
        push_line_break(out);
    }
    let ghost broken = out@;
    assert(broken =~= old(out)@ + (if after_line && !verbatim {
        line_break()
    } else {
        Seq::empty()
    }));
    out.push('\n');
    if !verbatim {
        push_blanks(out, indentation);
    }
    let ghost indented = out@;
    assert(indented =~= broken + seq!['\n'] + (if verbatim {
        Seq::empty()
    } else {
        blanks(indentation as nat)
    }));
    out.append(content);
}

impl DocumentParser {
    /// Writes a token sequence as text, at an indentation of `indentation`
    /// spaces. `element_name` names the element around the sequence, and
    /// `children` says that the sequence is a nested block; the text is the
    /// same whether it is or not.
    ///
    /// Every element is written as one tag: self-closed where it holds
    /// nothing, closed by the tag of its own name otherwise. Each nested
    /// block is indented two spaces more than the element that holds it. The
    /// call fails, with `LimitExceeded`, exactly when the deepest block's
    /// indentation is more than a `usize` can hold.
    pub fn generate_html_body(
        tokens: &Vec<Token>,
        indentation: usize,
        children: bool,
        element_name: &str,
    ) -> (result: Result<String, CompileError>)
        ensures
            match result {
                Ok(html) => {
                    &&& indentation + 2 * nesting(tokens.deep_view()) <= usize::MAX
                    &&& html@ == rendered(tokens.deep_view(), indentation as nat, element_name@)
                },
                Err(e) => {
                    &&& indentation + 2 * nesting(tokens.deep_view()) > usize::MAX
                    &&& e.deep_view() == failure(ErrorKind::LimitExceeded, Seq::empty())
                },
            },
        decreases tokens,
    {
        let ghost model = tokens.deep_view();
        let ghost indent = indentation as nat;
        let mut html = String::new();
        let mut open = false;
        let mut name: &str = element_name;
        let mut after_line = false;
        let verbatim = is_verbatim(element_name);
        let mut i: usize = 0;
        while i < tokens.len()
            invariant
                i <= tokens.len(),
                model == tokens.deep_view(),
                indent == indentation as nat,
                verbatim == (element_name@ == verbatim_name()),
                indentation + 2 * nesting_prefix(model, i as int) <= usize::MAX,
                render_prefix(model, i as int, indent, element_name@) == (Rendering {
                    html: html@,
                    open,
                    name: name@,
                    after_line,
                }),
            decreases tokens.len() - i,
        {
            assert(model[i as int] == tokens[i as int].deep_view());
            match &tokens[i] {
                Token::ElementOpen { name: opened } => {
                    push_open(&mut html, open, indentation, opened.as_str());
                    name = opened.as_str();
                    open = true;
                    after_line = false;
                },
                Token::ElementClasses { classes } => {
                    push_classes(&mut html, classes);
                },
                Token::ElementAttributes { attributes } => {
                    push_attributes(&mut html, attributes);
                },
                Token::InlineContent { content } => {
                    push_inline(&mut html, content.as_str(), name);
                    open = false;
                },
                Token::ChildTokens { children: below } => {
                    proof {
                        lemma_children_model(*below);
                        lemma_nesting_grows(model, i + 1);
                    }
                    assert(decreases_to!(*tokens => tokens[i as int]));
                    if indentation > usize::MAX - 2 {
                        return Err(limit_exceeded());
                    }
                    let inner = match Self::generate_html_body(below, indentation + 2, true, name) {
                        Ok(inner) => inner,
                        Err(e) => {
                            return Err(e);
                        },
                    };
                    push_block(&mut html, inner.as_str(), indentation, name);
                    open = false;
                },
                Token::BlankLine => {
                    push_blank_line(&mut html, verbatim);
                },
                Token::TextLine { content } => {
                    push_text_line(&mut html, content.as_str(), after_line, verbatim, indentation);
                    after_line = true;
                },
            }
            i = i + 1;
        }
        if open {
            push_self_close(&mut html);
        }
        Ok(html)
    }
}

/// The failure of a count that the machine cannot hold.
pub fn limit_exceeded() -> (e: CompileError)
    ensures
        e.deep_view() == failure(ErrorKind::LimitExceeded, Seq::empty()),
{
    proof {
        reveal_strlit("");
    }
    assert(""@ =~= Seq::<char>::empty());
    CompileError::new(ErrorKind::LimitExceeded, "")
}

/// The nesting of a sequence is at least that of each of its prefixes.
pub proof fn lemma_nesting_grows(tokens: Seq<TokenModel>, n: int)
    requires
        0 <= n <= tokens.len(),
    ensures
        nesting_prefix(tokens, n) <= nesting(tokens),
    decreases tokens.len() - n,
{
    if n < tokens.len() {
        lemma_nesting_grows(tokens, n + 1);
    }
}

} // verus!
