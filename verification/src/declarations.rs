//! The declarations at the head of a document.

use vstd::prelude::*;
use crate::error::{failure, CompileError, DeclarationFault, ErrorKind, ErrorModel};
use crate::parser::DocumentParser;
use crate::text::{copy_text, parse_decimal, parsed_decimal, same_text};
use crate::token::lemma_model_push;
use crate::tree::{ParseNode, Rule};

verus! {

/// A font that was found: the name it goes by, and the bytes of its file.
#[derive(Debug)]
pub struct FontHandle {
    pub postscript_name: String,
    pub data: Vec<u8>,
}

/// A font as a mathematical value.
pub struct FontModel {
    pub postscript_name: Seq<char>,
    pub data: Seq<u8>,
}

impl DeepView for FontHandle {
    type V = FontModel;

    open spec fn deep_view(&self) -> FontModel {
        FontModel { postscript_name: self.postscript_name@, data: self.data@ }
    }
}

impl FontHandle {
    /// A copy of the font.
    pub fn duplicate(&self) -> (copy: FontHandle)
        ensures
            copy.deep_view() == self.deep_view(),
    {
        let mut data: Vec<u8> = Vec::new();
        let mut i: usize = 0;
        while i < self.data.len()
            invariant
                i <= self.data.len(),
                data@ == self.data@.take(i as int),
            decreases self.data.len() - i,
        {
            data.push(self.data[i]);
            assert(self.data@.take(i + 1) == self.data@.take(i as int).push(self.data@[i as int]));
            i = i + 1;
        }
        assert(self.data@.take(i as int) == self.data@);
        FontHandle { postscript_name: self.postscript_name.clone(), data }
    }
}

/// What the font resolver answered to one request: the font that goes by
/// the requested name.
#[derive(Debug)]
pub struct ResolvedFont {
    pub requested: String,
    pub font: FontHandle,
}

/// What a document declares: the files to include, the scripts and the
/// stylesheets to link, each list in the order of the declarations, the
/// fonts, and the page's width and height in millimetres where declared.
#[derive(Debug)]
pub struct Declarations {
    pub includes: Vec<String>,
    pub js: Vec<String>,
    pub css: Vec<String>,
    pub fonts: Vec<FontHandle>,
    pub page_width_mm: Option<u64>,
    pub page_height_mm: Option<u64>,
}

/// A document's declarations as a mathematical value.
pub struct DeclarationsModel {
    pub includes: Seq<Seq<char>>,
    pub js: Seq<Seq<char>>,
    pub css: Seq<Seq<char>>,
    pub fonts: Seq<FontModel>,
    pub page_width_mm: Option<u64>,
    pub page_height_mm: Option<u64>,
}

impl DeepView for Declarations {
    type V = DeclarationsModel;

    open spec fn deep_view(&self) -> DeclarationsModel {
        DeclarationsModel {
            includes: self.includes.deep_view(),
            js: self.js.deep_view(),
            css: self.css.deep_view(),
            fonts: self.fonts.deep_view(),
            page_width_mm: self.page_width_mm,
            page_height_mm: self.page_height_mm,
        }
    }
}

/// The declarations of a document that declares nothing.
pub open spec fn no_declarations() -> DeclarationsModel {
    DeclarationsModel {
        includes: Seq::empty(),
        js: Seq::empty(),
        css: Seq::empty(),
        fonts: Seq::empty(),
        page_width_mm: None,
        page_height_mm: None,
    }
}

/// The width of a page in millimetres where none is declared.
pub const DEFAULT_PAGE_WIDTH_MM: u64 = 210;

/// The height of a page in millimetres where none is declared.
pub const DEFAULT_PAGE_HEIGHT_MM: u64 = 297;

impl Declarations {
    /// The declarations of a document that declares nothing.
    pub fn new() -> (declarations: Declarations)
        ensures
            declarations.deep_view() == no_declarations(),
    {
        let declarations = Declarations {
            includes: Vec::new(),
            js: Vec::new(),
            css: Vec::new(),
            fonts: Vec::new(),
            page_width_mm: None,
            page_height_mm: None,
        };
        assert(declarations.includes.deep_view() =~= Seq::empty());
        assert(declarations.js.deep_view() =~= Seq::empty());
        assert(declarations.css.deep_view() =~= Seq::empty());
        assert(declarations.fonts.deep_view() =~= Seq::empty());
        declarations
    }

    /// The page's width in millimetres: as declared, or that of A4.
    pub fn page_width(&self) -> (width: u64)
        ensures
            width == page_width_of(self.deep_view()),
    {
        match self.page_width_mm {
            Some(width) => width,
            None => DEFAULT_PAGE_WIDTH_MM,
        }
    }

    /// The page's height in millimetres: as declared, or that of A4.
    pub fn page_height(&self) -> (height: u64)
        ensures
            height == page_height_of(self.deep_view()),
    {
        match self.page_height_mm {
            Some(height) => height,
            None => DEFAULT_PAGE_HEIGHT_MM,
        }
    }
}

/// The page's width in millimetres: as declared, or 210.
pub open spec fn page_width_of(declarations: DeclarationsModel) -> u64 {
    match declarations.page_width_mm {
        Some(width) => width,
        None => DEFAULT_PAGE_WIDTH_MM,
    }
}

/// The page's height in millimetres: as declared, or 297.
pub open spec fn page_height_of(declarations: DeclarationsModel) -> u64 {
    match declarations.page_height_mm {
        Some(height) => height,
        None => DEFAULT_PAGE_HEIGHT_MM,
    }
}

/// The key `include`.
pub open spec fn include_key() -> Seq<char> {
    seq!['i', 'n', 'c', 'l', 'u', 'd', 'e']
}

/// The key `page-width`.
pub open spec fn page_width_key() -> Seq<char> {
    seq!['p', 'a', 'g', 'e', '-', 'w', 'i', 'd', 't', 'h']
}

/// The key `page-height`.
pub open spec fn page_height_key() -> Seq<char> {
    seq!['p', 'a', 'g', 'e', '-', 'h', 'e', 'i', 'g', 'h', 't']
}

/// The key `font`.
pub open spec fn font_key() -> Seq<char> {
    seq!['f', 'o', 'n', 't']
}

/// The key `js`.
pub open spec fn js_key() -> Seq<char> {
    seq!['j', 's']
}

/// The key `css`.
pub open spec fn css_key() -> Seq<char> {
    seq!['c', 's', 's']
}

/// The page dimension that `value` denotes: a decimal numeral above zero.
pub open spec fn dimension(value: Seq<char>) -> Option<u64> {
    match parsed_decimal(value) {
        Some(n) => if n > 0 {
            Some(n)
        } else {
            None
        },
        None => None,
    }
}

/// Where the font `name` stands among the resolver's answers: the place of
/// the first answer to a request for exactly this name.
pub open spec fn font_index(fonts: Seq<ResolvedFont>, name: Seq<char>) -> Option<int>
    decreases fonts.len(),
{
    if fonts.len() == 0 {
        None
    } else {
        match font_index(fonts.drop_last(), name) {
            Some(i) => Some(i),
            None => if fonts.last().requested@ == name {
                Some(fonts.len() - 1)
            } else {
                None
            },
        }
    }
}

/// The key and the value of a declaration node: a key part, then a value
/// part. `None` for a node of any other shape.
pub open spec fn declaration_of(part: ParseNode) -> Option<(Seq<char>, Seq<char>)> {
    if part.children.len() >= 2 && part.children[0].rule == Rule::DeclarationKey
        && part.children[1].rule == Rule::DeclarationValue {
        Some((part.children[0].text@, part.children[1].text@))
    } else {
        None
    }
}

/// The declarations `so_far` with one more: `key` set to `value`.
///
/// `include`, `js` and `css` add the value to their list. `page-width` and
/// `page-height` take a positive number, the last one standing. `font` adds
/// the font that the resolver found under exactly this name. Any other key,
/// a dimension that is no positive number, and a font that was not found
/// are refused.
pub open spec fn declared(
    so_far: DeclarationsModel,
    key: Seq<char>,
    value: Seq<char>,
    fonts: Seq<ResolvedFont>,
) -> Result<DeclarationsModel, ErrorModel> {
    if key == include_key() {
        Ok(DeclarationsModel { includes: so_far.includes.push(value), ..so_far })
    } else if key == page_width_key() {
        match dimension(value) {
            Some(width) => Ok(DeclarationsModel { page_width_mm: Some(width), ..so_far }),
            None => Err(
                failure(ErrorKind::MalformedDeclaration(DeclarationFault::InvalidInteger), key),
            ),
        }
    } else if key == page_height_key() {
        match dimension(value) {
            Some(height) => Ok(DeclarationsModel { page_height_mm: Some(height), ..so_far }),
            None => Err(
                failure(ErrorKind::MalformedDeclaration(DeclarationFault::InvalidInteger), key),
            ),
        }
    } else if key == font_key() {
        match font_index(fonts, value) {
            Some(i) => Ok(
                DeclarationsModel { fonts: so_far.fonts.push(fonts[i].font.deep_view()), ..so_far },
            ),
            None => Err(
                failure(ErrorKind::MalformedDeclaration(DeclarationFault::FontNotFound), value),
            ),
        }
    } else if key == js_key() {
        Ok(DeclarationsModel { js: so_far.js.push(value), ..so_far })
    } else if key == css_key() {
        Ok(DeclarationsModel { css: so_far.css.push(value), ..so_far })
    } else {
        Err(failure(ErrorKind::MalformedDeclaration(DeclarationFault::UnknownKey), key))
    }
}

/// What the first `n` parts of a document declare. Blocks and the
/// end-of-input mark declare nothing.
pub open spec fn declarations_prefix(root: ParseNode, n: int, fonts: Seq<ResolvedFont>) -> Result<
    DeclarationsModel,
    ErrorModel,
>
    decreases n,
{
    if n <= 0 || n > root.children.len() {
        Ok(no_declarations())
    } else {
        match declarations_prefix(root, n - 1, fonts) {
            Err(e) => Err(e),
            Ok(so_far) => {
                let part = root.children[n - 1];
                match part.rule {
                    Rule::Declaration => match declaration_of(part) {
                        Some((key, value)) => declared(so_far, key, value, fonts),
                        None => Err(failure(ErrorKind::UnexpectedNode, part.text@)),
                    },
                    Rule::Block => Ok(so_far),
                    Rule::EndOfInput => Ok(so_far),
                    _ => Err(failure(ErrorKind::UnexpectedNode, part.text@)),
                }
            },
        }
    }
}

/// What a document declares.
pub open spec fn declarations_of(root: ParseNode, fonts: Seq<ResolvedFont>) -> Result<
    DeclarationsModel,
    ErrorModel,
> {
    declarations_prefix(root, root.children.len() as int, fonts)
}

/// Whether `result` is what reading the declarations of `root` yields, with
/// the resolver's answers `fonts`.
pub open spec fn is_extraction(
    root: ParseNode,
    fonts: Seq<ResolvedFont>,
    result: Result<Declarations, CompileError>,
) -> bool {
    match result {
        Ok(d) => declarations_of(root, fonts) == Ok::<_, ErrorModel>(d.deep_view()),
        Err(e) => declarations_of(root, fonts) == Err::<DeclarationsModel, _>(e.deep_view()),
    }
}

/// Reading the declarations of one tree twice, with the same answers from
/// the font resolver, yields the same declarations, or the same failure.
pub proof fn law_extraction_repeats(
    root: ParseNode,
    fonts: Seq<ResolvedFont>,
    first: Result<Declarations, CompileError>,
    second: Result<Declarations, CompileError>,
)
    requires
        is_extraction(root, fonts, first),
        is_extraction(root, fonts, second),
    ensures
        match (first, second) {
            (Ok(a), Ok(b)) => a.deep_view() == b.deep_view(),
            (Err(a), Err(b)) => a.deep_view() == b.deep_view(),
            _ => false,
        },
{
}

/// The names of the fonts that the first `n` parts of a document ask for,
/// in the order of the declarations.
pub open spec fn font_requests_prefix(root: ParseNode, n: int) -> Seq<Seq<char>>
    decreases n,
{
    if n <= 0 || n > root.children.len() {
        Seq::empty()
    } else {
        let before = font_requests_prefix(root, n - 1);
        let part = root.children[n - 1];
        match declaration_of(part) {
            Some((key, value)) => if part.rule == Rule::Declaration && key == font_key() {
                before.push(value)
            } else {
                before
            },
            None => before,
        }
    }
}

/// Once the declarations have failed, they have failed.
pub proof fn lemma_declarations_fail(root: ParseNode, n: int, m: int, fonts: Seq<ResolvedFont>)
    requires
        0 <= n <= m <= root.children.len(),
        declarations_prefix(root, n, fonts) is Err,
    ensures
        declarations_prefix(root, m, fonts) == declarations_prefix(root, n, fonts),
    decreases m - n,
{
    if n < m {
        lemma_declarations_fail(root, n, m - 1, fonts);
    }
}

/// Finds the resolver's answer to a request for `name`.
fn find_font<'a>(fonts: &'a Vec<ResolvedFont>, name: &str) -> (found: Option<&'a FontHandle>)
    ensures
        match found {
            Some(font) => {
                &&& font_index(fonts@, name@) is Some
                &&& *font == fonts@[font_index(fonts@, name@)->Some_0].font
            },
            None => font_index(fonts@, name@) is None,
        },
{
    let mut found: Option<&'a FontHandle> = None;
    let mut i: usize = 0;
    while i < fonts.len()
        invariant
            i <= fonts.len(),
            match found {
                Some(font) => {
                    &&& font_index(fonts@.take(i as int), name@) is Some
                    &&& 0 <= font_index(fonts@.take(i as int), name@)->Some_0 < i
                    &&& *font == fonts@[font_index(fonts@.take(i as int), name@)->Some_0].font
                },
                None => font_index(fonts@.take(i as int), name@) is None,
            },
        decreases fonts.len() - i,
    {
        assert(fonts@.take(i + 1).drop_last() == fonts@.take(i as int));
        if found.is_none() && same_text(fonts[i].requested.as_str(), name) {
            found = Some(&fonts[i].font);
        }
        i = i + 1;
    }
    assert(fonts@.take(i as int) == fonts@);
    found
}

/// Reads the key and the value of a declaration node.
fn key_and_value(part: &ParseNode) -> (pair: Option<(&String, &String)>)
    ensures
        match pair {
            Some((key, value)) => declaration_of(*part) == Some((key@, value@)),
            None => declaration_of(*part) is None,
        },
{
    if part.children.len() >= 2 && part.children[0].rule == Rule::DeclarationKey
        && part.children[1].rule == Rule::DeclarationValue {
        Some((&part.children[0].text, &part.children[1].text))
    } else {
        None
    }
}

/// Reads a page dimension.
fn parse_dimension(value: &str) -> (parsed: Option<u64>)
    ensures
        parsed == dimension(value@),
{
    match parse_decimal(value) {
        Some(n) => if n > 0 {
            Some(n)
        } else {
            None
        },
        None => None,
    }
}

/// Adds one declaration to `so_far`.
fn declare(
    so_far: Declarations,
    key: &str,
    value: &str,
    fonts: &Vec<ResolvedFont>,
) -> (result: Result<Declarations, CompileError>)
    ensures
        match result {
            Ok(d) => declared(so_far.deep_view(), key@, value@, fonts@) == Ok::<_, ErrorModel>(
                d.deep_view(),
            ),
            Err(e) => declared(so_far.deep_view(), key@, value@, fonts@) == Err::<
                DeclarationsModel,
                _,
            >(e.deep_view()),
        },
{
    proof {
        reveal_strlit("include");
        reveal_strlit("page-width");
        reveal_strlit("page-height");
        reveal_strlit("font");
        reveal_strlit("js");
        reveal_strlit("css");
    }
    assert("include"@ =~= include_key());
    assert("page-width"@ =~= page_width_key());
    assert("page-height"@ =~= page_height_key());
    assert("font"@ =~= font_key());
    assert("js"@ =~= js_key());
    assert("css"@ =~= css_key());
    let mut d = so_far;
    if same_text(key, "include") {
        let ghost before = d.includes;
        let item = copy_text(value);
        d.includes.push(item);
        proof {
            lemma_model_push(before, d.includes, item);
        }
        Ok(d)
    } else if same_text(key, "page-width") {
        match parse_dimension(value) {
            Some(width) => {
                d.page_width_mm = Some(width);
                Ok(d)
            },
            None => Err(
                CompileError::new(
                    ErrorKind::MalformedDeclaration(DeclarationFault::InvalidInteger),
                    key,
                ),
            ),
        }
    } else if same_text(key, "page-height") {
        match parse_dimension(value) {
            Some(height) => {
                d.page_height_mm = Some(height);
                Ok(d)
            },
            None => Err(
                CompileError::new(
                    ErrorKind::MalformedDeclaration(DeclarationFault::InvalidInteger),
                    key,
                ),
            ),
        }
    } else if same_text(key, "font") {
        match find_font(fonts, value) {
            Some(font) => {
                let ghost before = d.fonts;
                let item = font.duplicate();
                d.fonts.push(item);
                proof {
                    lemma_model_push(before, d.fonts, item);
                }
                Ok(d)
            },
            None => Err(
                CompileError::new(
                    ErrorKind::MalformedDeclaration(DeclarationFault::FontNotFound),
                    value,
                ),
            ),
        }
    } else if same_text(key, "js") {
        let ghost before = d.js;
        let item = copy_text(value);
        d.js.push(item);
        proof {
            lemma_model_push(before, d.js, item);
        }
        Ok(d)
    } else if same_text(key, "css") {
        let ghost before = d.css;
        let item = copy_text(value);
        d.css.push(item);
        proof {
            lemma_model_push(before, d.css, item);
        }
        Ok(d)
    } else {
        Err(CompileError::new(ErrorKind::MalformedDeclaration(DeclarationFault::UnknownKey), key))
    }
}

impl DocumentParser {
    /// The names of the fonts that a document asks for, in the order of its
    /// declarations: what to ask the font resolver before the declarations
    /// are read.
    pub fn font_requests(root: &ParseNode) -> (names: Vec<String>)
        ensures
            names.deep_view() == font_requests_prefix(*root, root.children.len() as int),
    {
        proof {
            reveal_strlit("font");
        }
        assert("font"@ =~= font_key());
        let mut names: Vec<String> = Vec::new();
        let mut i: usize = 0;
        assert(names.deep_view() =~= Seq::empty());
        while i < root.children.len()
            invariant
                i <= root.children.len(),
                "font"@ == font_key(),
                names.deep_view() == font_requests_prefix(*root, i as int),
            decreases root.children.len() - i,
        {
            let part = &root.children[i];
            if part.rule == Rule::Declaration {
                match key_and_value(part) {
                    Some((key, value)) => {
                        if same_text(key.as_str(), "font") {
                            let ghost before = names;
                            let item = value.clone();
                            names.push(item);
                            proof {
                                lemma_model_push(before, names, item);
                            }
                        }
                    },
                    None => {},
                }
            }
            i = i + 1;
        }
        names
    }

    /// Reads the declarations of a document. `fonts` holds the resolver's
    /// answers; a font that is not among them counts as not found.
    ///
    /// The result is a function of the tree and the answers: reading the
    /// same tree again yields the same declarations.
    pub fn get_declarations(
        root: &ParseNode,
        fonts: &Vec<ResolvedFont>,
    ) -> (result: Result<Declarations, CompileError>)
        ensures
            is_extraction(*root, fonts@, result),
    {
        let ghost len = root.children.len() as int;
        let mut declarations = Declarations::new();
        let mut i: usize = 0;
        while i < root.children.len()
            invariant
                i <= root.children.len(),
                len == root.children.len(),
                declarations_prefix(*root, i as int, fonts@) == Ok::<_, ErrorModel>(
                    declarations.deep_view(),
                ),
            decreases root.children.len() - i,
        {
            let part = &root.children[i];
            match part.rule {
                Rule::Declaration => {
                    let (key, value) = match key_and_value(part) {
                        Some(pair) => pair,
                        None => {
                            proof {
                                lemma_declarations_fail(*root, i + 1, len, fonts@);
                            }
                            return Err(
                                CompileError::new(ErrorKind::UnexpectedNode, part.text.as_str()),
                            );
                        },
                    };
                    let added = declare(declarations, key.as_str(), value.as_str(), fonts);
                    declarations = match added {
                        Ok(more) => more,
                        Err(e) => {
                            proof {
                                lemma_declarations_fail(*root, i + 1, len, fonts@);
                            }
                            return Err(e);
                        },
                    };
                },
                Rule::Block => {},
                Rule::EndOfInput => {},
                _ => {
                    proof {
                        lemma_declarations_fail(*root, i + 1, len, fonts@);
                    }
                    return Err(CompileError::new(ErrorKind::UnexpectedNode, part.text.as_str()));
                },
            }
            i = i + 1;
        }
        Ok(declarations)
    }
}

} // verus!
