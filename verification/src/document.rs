//! The finished document: the body inside its wrapper.

use vstd::prelude::*;
use crate::declarations::{
    page_height_of, page_width_of, Declarations, DeclarationsModel, FontHandle, FontModel,
};
use crate::error::{failure, CompileError, ErrorKind};
use crate::generator::{nesting, rendered};
use crate::lexer::{context, lexed_document};
use crate::parser::DocumentParser;
use crate::state::{root_scope, LexerState, Scope};
use crate::template::Template;
use crate::text::{
    char_replaced, copy_text, decimal, joined, lowercase, push_decimal, push_joined, replace_char,
    to_lowercase,
};
use crate::token::{lemma_model_push, TokenModel};
use crate::tree::ParseNode;

verus! {

/// How many levels of template expansion a document may need: a template
/// that references templates that reference templates, and so on. A document
/// that needs more is refused; one that references itself always does.
pub const MAX_TEMPLATE_DEPTH: usize = 64;

/// The indentation of the body's outermost elements, in spaces.
pub const BODY_INDENTATION: usize = 4;

/// The wrapper around every document. Each `{}` is a gap to fill, in this
/// order: the page's width, its height, the font rules, the utility rules,
/// the stylesheet links, the body, the script links. `{{` and `}}` stand
/// for single braces.
pub const DOCUMENT_TEMPLATE: &'static str =
    "<!DOCTYPE html>\n<html>\n  <head>\n    <style>\n      * {{\n        margin: 0;\n      }}\n\n      .page {{\n        width: {}mm;\n        height: {}mm;\n        overflow: hidden;\n        page-break-after: always;\n        counter-increment: page-number;\n      }}\n\n      .page-number::before {{\n        content: counter(page-number);\n      }}\n      {}\n      {}\n    </style>\n    {}\n  </head>\n  <body>{}\n  {}\n  </body>\n</html>\n";

/// A format string with its gaps filled. The string is read from left to
/// right: `{}` is replaced by the next argument, or by nothing once the
/// arguments are used up; any other character that follows a brace is
/// written in place of the two; a brace at the very end is dropped; every
/// other character is written as it is.
pub open spec fn filled(format: Seq<char>, args: Seq<Seq<char>>) -> Seq<char>
    decreases format.len(),
{
    if format.len() == 0 {
        Seq::empty()
    } else if format[0] == '{' || format[0] == '}' {
        if format.len() == 1 {
            Seq::empty()
        } else if format[0] == '{' && format[1] == '}' {
            if args.len() > 0 {
                args[0] + filled(format.skip(2), args.skip(1))
            } else {
                filled(format.skip(2), args)
            }
        } else {
            seq![format[1]] + filled(format.skip(2), args)
        }
    } else {
        seq![format[0]] + filled(format.skip(1), args)
    }
}

/// `AsStrFormatExt::format` of the crate dyn-fmt, on a format string and a
/// list of strings. Trusted: the contract claims that the crate's formatter
/// writes what `filled` says, an argument being written as the string it is.
#[verifier::external_body]
fn fill(format: &str, args: &Vec<String>) -> (text: String)
    ensures
        text@ == filled(format@, args.deep_view()),
{
    dyn_fmt::AsStrFormatExt::format(&format, args)
}

/// The name that a font's file and its style rules go by: the font's name in
/// lower case, with a hyphen for each space.
pub open spec fn font_slug_of(postscript_name: Seq<char>) -> Seq<char> {
    lowercase(char_replaced(postscript_name, ' ', '-'))
}

/// The style rules that make a font available under its slug.
pub open spec fn font_face_text(slug: Seq<char>) -> Seq<char> {
    "@font-face { font-family: "@ + slug + "; src: url(fonts/"@ + slug + "); } .font-"@ + slug
        + " { font-family: "@ + slug + "; }"@
}

/// Each item of a list written between `before` and `after`.
pub open spec fn framed(items: Seq<Seq<char>>, before: Seq<char>, after: Seq<char>) -> Seq<
    Seq<char>,
> {
    Seq::new(items.len(), |i: int| before + items[i] + after)
}

/// The style rules of all fonts, one font per line.
pub open spec fn font_rules(fonts: Seq<FontModel>) -> Seq<char> {
    joined(
        Seq::new(fonts.len(), |i: int| font_face_text(font_slug_of(fonts[i].postscript_name))),
        "\n      "@,
    )
}

/// The links to all stylesheets, one per line, in the order declared.
pub open spec fn stylesheet_links(hrefs: Seq<Seq<char>>) -> Seq<char> {
    joined(framed(hrefs, "<link rel=\"stylesheet\" href=\""@, "\" />"@), "\n    "@)
}

/// The links to all scripts, one per line, in the order declared.
pub open spec fn script_links(srcs: Seq<Seq<char>>) -> Seq<char> {
    joined(framed(srcs, "<script src=\""@, "\"></script>"@), "\n  "@)
}

/// The whole document: the wrapper with the page's dimensions, the font
/// rules, the utility rules as they were supplied, the stylesheet links, the
/// body and the script links in its gaps.
pub open spec fn document_text(
    declarations: DeclarationsModel,
    body: Seq<char>,
    utility_css: Seq<char>,
) -> Seq<char> {
    filled(
        DOCUMENT_TEMPLATE@,
        seq![
            decimal(page_width_of(declarations) as nat),
            decimal(page_height_of(declarations) as nat),
            font_rules(declarations.fonts),
            utility_css,
            stylesheet_links(declarations.css),
            body,
            script_links(declarations.js),
        ],
    )
}

impl FontHandle {
    /// The name that the font's file and its style rules go by.
    pub fn slug(&self) -> (slug: String)
        ensures
            slug@ == font_slug_of(self.postscript_name@),
    {
        let hyphened = replace_char(self.postscript_name.as_str(), ' ', '-');
        to_lowercase(hyphened.as_str())
    }
}

fn font_rule_lines(fonts: &Vec<FontHandle>) -> (lines: Vec<String>)
    ensures
        lines.deep_view() == Seq::new(
            fonts.deep_view().len(),
            |i: int| font_face_text(font_slug_of(fonts.deep_view()[i].postscript_name)),
        ),
{
    let ghost all = Seq::new(
        fonts.deep_view().len(),
        |i: int| font_face_text(font_slug_of(fonts.deep_view()[i].postscript_name)),
    );
    let mut lines: Vec<String> = Vec::new();
    let mut i: usize = 0;
    assert(lines.deep_view() =~= all.take(0));
    while i < fonts.len()
        invariant
            i <= fonts.len(),
            all == Seq::new(
                fonts.deep_view().len(),
                |i: int| font_face_text(font_slug_of(fonts.deep_view()[i].postscript_name)),
            ),
            lines.deep_view() == all.take(i as int),
        decreases fonts.len() - i,
    {
        let slug = fonts[i].slug();
        let mut line = String::new();
        line.append("@font-face { font-family: ");
        line.append(slug.as_str());
        line.append("; src: url(fonts/");
        line.append(slug.as_str());
        line.append("); } .font-");
        line.append(slug.as_str());
        line.append(" { font-family: ");
        line.append(slug.as_str());
        line.append("; }");
        assert(line@ =~= font_face_text(slug@));
        let ghost before = lines;
        lines.push(line);
        proof {
            lemma_model_push(before, lines, line);
        }
        assert(all.take(i + 1) =~= all.take(i as int).push(line@));
        i = i + 1;
    }
    assert(all.take(i as int) =~= all);
    lines
}

/// Writes each item of a list between `before` and `after`.
fn frame(items: &Vec<String>, before: &str, after: &str) -> (lines: Vec<String>)
    ensures
        lines.deep_view() == framed(items.deep_view(), before@, after@),
{
    let ghost all = framed(items.deep_view(), before@, after@);
    let mut lines: Vec<String> = Vec::new();
    let mut i: usize = 0;
    assert(lines.deep_view() =~= all.take(0));
    while i < items.len()
        invariant
            i <= items.len(),
            all == framed(items.deep_view(), before@, after@),
            lines.deep_view() == all.take(i as int),
        decreases items.len() - i,
    {
        let mut line = String::new();
        line.append(before);
        line.append(items[i].as_str());
        line.append(after);
        assert(line@ =~= before@ + items[i as int]@ + after@);
        let ghost so_far = lines;
        lines.push(line);
        proof {
            lemma_model_push(so_far, lines, line);
        }
        assert(all.take(i + 1) =~= all.take(i as int).push(line@));
        i = i + 1;
    }
    assert(all.take(i as int) =~= all);
    lines
}

fn join_lines(lines: &Vec<String>, sep: &str) -> (text: String)
    ensures
        text@ == joined(lines.deep_view(), sep@),
{
    let mut text = String::new();
    push_joined(&mut text, lines, sep);
    assert(text@ =~= joined(lines.deep_view(), sep@));
    text
}

fn decimal_text(n: u64) -> (text: String)
    ensures
        text@ == decimal(n as nat),
{
    let mut text = String::new();
    push_decimal(&mut text, n);
    assert(text@ =~= decimal(n as nat));
    text
}

impl DocumentParser {
    /// Puts a body into the document wrapper, with the utility rules
    /// `utility_css` as they are.
    pub fn assemble_document(
        declarations: &Declarations,
        body: &str,
        utility_css: &str,
    ) -> (html: String)
        ensures
            html@ == document_text(declarations.deep_view(), body@, utility_css@),
    {
        let mut args: Vec<String> = Vec::new();
        args.push(decimal_text(declarations.page_width()));
        args.push(decimal_text(declarations.page_height()));
        args.push(join_lines(&font_rule_lines(&declarations.fonts), "\n      "));
        args.push(copy_text(utility_css));
        args.push(
            join_lines(
                &frame(&declarations.css, "<link rel=\"stylesheet\" href=\"", "\" />"),
                "\n    ",
            ),
        );
        args.push(copy_text(body));
        args.push(
            join_lines(&frame(&declarations.js, "<script src=\"", "\"></script>"), "\n  "),
        );
        let ghost d = declarations.deep_view();
        assert(args.deep_view() =~= seq![
            decimal(page_width_of(d) as nat),
            decimal(page_height_of(d) as nat),
            font_rules(d.fonts),
            utility_css@,
            stylesheet_links(d.css),
            body@,
            script_links(d.js),
        ]);
        fill(DOCUMENT_TEMPLATE, &args)
    }

    /// Compiles a document to HTML: lexes it, writes the body, asks
    /// `utility_css` for the utility rules of that body, and puts all of it
    /// into the wrapper.
    ///
    /// On success `lex_state` holds the state after the document. On failure
    /// it is as it was.
    pub fn generate_html<F: Fn(&str) -> String>(
        declarations: &Declarations,
        lex_state: &mut LexerState,
        root: &ParseNode,
        templates: &Vec<Template>,
        utility_css: F,
    ) -> (result: Result<String, CompileError>)
        requires
            forall|body: &str| call_requires(utility_css, (body,)),
        ensures
            match lexed_document(
                *root,
                old(lex_state).deep_view(),
                context(root_scope(), templates@, MAX_TEMPLATE_DEPTH as nat),
            ) {
                Err(e) => {
                    &&& result is Err
                    &&& result->Err_0.deep_view() == e
                    &&& final(lex_state).deep_view() == old(lex_state).deep_view()
                },
                Ok(lexed) => if BODY_INDENTATION + 2 * nesting(lexed.tokens) > usize::MAX {
                    &&& result is Err
                    &&& result->Err_0.deep_view() == failure(ErrorKind::LimitExceeded, Seq::empty())
                    &&& final(lex_state).deep_view() == old(lex_state).deep_view()
                } else {
                    &&& result is Ok
                    &&& final(lex_state).deep_view() == lexed.state
                    &&& exists|body: &str, css: String|
                        {
                            &&& body@ == body_text(lexed.tokens)
                            &&& call_ensures(utility_css, (body,), css)
                            &&& result->Ok_0@ == document_text(
                                declarations.deep_view(),
                                body@,
                                css@,
                            )
                        }
                },
            },
    {
        proof {
            reveal_strlit("");
        }
        assert(""@ =~= Seq::<char>::empty());
        let scope = Scope::root();
        let (tokens, after) = match Self::lex_html_document(
            root,
            lex_state.duplicate(),
            &scope,
            templates,
            MAX_TEMPLATE_DEPTH,
        ) {
            Ok(lexed) => lexed,
            Err(e) => {
                return Err(e);
            },
        };
        let body = match Self::generate_html_body(&tokens, BODY_INDENTATION, false, "") {
            Ok(body) => body,
            Err(e) => {
                return Err(e);
            },
        };
        let text = body.as_str();
        let css = utility_css(text);
        let html = Self::assemble_document(declarations, text, css.as_str());
        *lex_state = after;
        assert(call_ensures(utility_css, (text,), css));
        Ok(html)
    }
}

/// The text of a document's body: its tokens written at the body's
/// indentation, with the last element closed.
pub open spec fn body_text(tokens: Seq<TokenModel>) -> Seq<char> {
    rendered(tokens, BODY_INDENTATION as nat, Seq::empty())
}

} // verus!
