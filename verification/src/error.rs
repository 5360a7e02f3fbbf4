//! What can go wrong while compiling a document.

use vstd::prelude::*;
use crate::text::{joined, push_joined};

verus! {

/// Why a declaration was refused.
#[derive(Clone, Copy, Debug, PartialEq, Eq, Structural)]
pub enum DeclarationFault {
    /// The key is none of the known ones.
    UnknownKey,
    /// The value of a page dimension is no positive integer.
    InvalidInteger,
    /// No font goes by the declared name.
    FontNotFound,
}

/// The kinds of failure. Each one ends the compilation.
#[derive(Clone, Copy, Debug, PartialEq, Eq, Structural)]
pub enum ErrorKind {
    /// A template file is no document of the language.
    Syntax,
    /// A declaration cannot be used.
    MalformedDeclaration(DeclarationFault),
    /// No template goes by the referenced name.
    TemplateNotFound,
    /// A slot marker stands where the caller supplied nothing to fill it.
    UndefinedTemplateSlot,
    /// The parse tree has a shape that the grammar never produces.
    UnexpectedNode,
    /// The document needs more than this library can count: templates nested
    /// deeper than the fixed bound, an indentation or a page number beyond
    /// the machine's range.
    LimitExceeded,
}

/// A failure: its kind, the thing it is about (a declaration key, a template
/// path, the text of the offending node), and the templates inside which it
/// arose, outermost first.
#[derive(Clone, Debug)]
pub struct CompileError {
    pub kind: ErrorKind,
    pub subject: String,
    pub chain: Vec<String>,
}

/// A failure as a mathematical value.
pub struct ErrorModel {
    pub kind: ErrorKind,
    pub subject: Seq<char>,
    pub chain: Seq<Seq<char>>,
}

/// The failure of the given kind about `subject`, outside any template.
pub open spec fn failure(kind: ErrorKind, subject: Seq<char>) -> ErrorModel {
    ErrorModel { kind, subject, chain: Seq::empty() }
}

/// `e` as seen from outside the template `template`: the same failure with
/// the template's path put in front of its chain.
pub open spec fn inside(template: Seq<char>, e: ErrorModel) -> ErrorModel {
    ErrorModel { kind: e.kind, subject: e.subject, chain: seq![template] + e.chain }
}

/// What a kind of failure is called in a message.
pub open spec fn kind_label(kind: ErrorKind) -> Seq<char> {
    match kind {
        ErrorKind::Syntax => "syntax error"@,
        ErrorKind::MalformedDeclaration(DeclarationFault::UnknownKey) => "unknown declaration key"@,
        ErrorKind::MalformedDeclaration(DeclarationFault::InvalidInteger) =>
            "declaration is no positive integer"@,
        ErrorKind::MalformedDeclaration(DeclarationFault::FontNotFound) => "font not found"@,
        ErrorKind::TemplateNotFound => "template not found"@,
        ErrorKind::UndefinedTemplateSlot => "undefined template slot"@,
        ErrorKind::UnexpectedNode => "unexpected node"@,
        ErrorKind::LimitExceeded => "limit exceeded"@,
    }
}

/// A failure in words: what it is called, what it is about, and, where it
/// arose inside templates, their paths from the outermost to the innermost.
pub open spec fn message_text(e: ErrorModel) -> Seq<char> {
    kind_label(e.kind) + ": "@ + e.subject + (if e.chain.len() == 0 {
        Seq::empty()
    } else {
        " (in template "@ + joined(e.chain, " > "@) + ")"@
    })
}

impl DeepView for CompileError {
    type V = ErrorModel;

    open spec fn deep_view(&self) -> ErrorModel {
        ErrorModel {
            kind: self.kind,
            subject: self.subject@,
            chain: self.chain.deep_view(),
        }
    }
}

impl CompileError {
    /// A failure of the given kind about `subject`, outside any template.
    pub fn new(kind: ErrorKind, subject: &str) -> (error: CompileError)
        ensures
            error.deep_view() == failure(kind, subject@),
    {
        let mut owned = String::new();
        owned.append(subject);
        let error = CompileError { kind, subject: owned, chain: Vec::new() };
        assert(error.chain.deep_view() =~= Seq::<Seq<char>>::empty());
        error
    }

    /// The same failure, reported from outside the template `template`.
    pub fn within(self, template: &str) -> (error: CompileError)
        ensures
            error.deep_view() == inside(template@, self.deep_view()),
    {
        let mut owned = String::new();
        owned.append(template);
        let mut chain = self.chain;
        chain.insert(0, owned);
        let error = CompileError { kind: self.kind, subject: self.subject, chain };
        assert(error.chain.deep_view() =~= seq![template@] + self.chain.deep_view());
        error
    }

    /// The failure in words.
    pub fn message(&self) -> (text: String)
        ensures
            text@ == message_text(self.deep_view()),
    {
        let mut text = String::new();
        let label = match self.kind {
            ErrorKind::Syntax => "syntax error",
            ErrorKind::MalformedDeclaration(DeclarationFault::UnknownKey) =>
                "unknown declaration key",
            ErrorKind::MalformedDeclaration(DeclarationFault::InvalidInteger) =>
                "declaration is no positive integer",
            ErrorKind::MalformedDeclaration(DeclarationFault::FontNotFound) => "font not found",
            ErrorKind::TemplateNotFound => "template not found",
            ErrorKind::UndefinedTemplateSlot => "undefined template slot",
            ErrorKind::UnexpectedNode => "unexpected node",
            ErrorKind::LimitExceeded => "limit exceeded",
        };
        text.append(label);
        text.append(": ");
        text.append(self.subject.as_str());
        let ghost head = text@;
        assert(head =~= kind_label(self.kind) + ": "@ + self.subject@);
        if self.chain.len() > 0 {
            text.append(" (in template ");
            push_joined(&mut text, &self.chain, " > ");
            text.append(")");
            assert(text@ =~= head + (" (in template "@ + joined(
                self.chain.deep_view(),
                " > "@,
            ) + ")"@));
        } else {
            assert(text@ =~= head + Seq::<char>::empty());
        }
        text
    }

    /// Whether the failure is a refused declaration.
    pub fn is_malformed_declaration(&self) -> (yes: bool)
        ensures
            yes == (self.kind is MalformedDeclaration),
    {
        match self.kind {
            ErrorKind::MalformedDeclaration(_) => true,
            _ => false,
        }
    }
}

} // verus!
