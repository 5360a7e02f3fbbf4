use twml::declarations::{Declarations, FontHandle, ResolvedFont};
use twml::error::{DeclarationFault, ErrorKind};
use twml::parser::DocumentParser;
use twml::tree::{ParseNode, Rule};

fn declaration(key: &str, value: &str) -> ParseNode {
    ParseNode {
        rule: Rule::Declaration,
        text: format!("{}={}", key, value),
        children: vec![
            ParseNode::leaf(Rule::DeclarationKey, key),
            ParseNode::leaf(Rule::DeclarationValue, value),
        ],
    }
}

fn document(parts: Vec<ParseNode>) -> ParseNode {
    let mut children = parts;
    children.push(ParseNode::leaf(Rule::EndOfInput, ""));
    ParseNode::branch(Rule::Document, children)
}

fn font(requested: &str, postscript_name: &str, data: &[u8]) -> ResolvedFont {
    ResolvedFont {
        requested: requested.to_string(),
        font: FontHandle { postscript_name: postscript_name.to_string(), data: data.to_vec() },
    }
}

fn extract(parts: Vec<ParseNode>) -> Declarations {
    DocumentParser::get_declarations(&document(parts), &Vec::new()).unwrap()
}

#[test]
fn document_without_declarations_declares_nothing() {
    let declarations = extract(Vec::new());
    assert!(declarations.includes.is_empty());
    assert!(declarations.js.is_empty());
    assert!(declarations.css.is_empty());
    assert!(declarations.fonts.is_empty());
    assert_eq!(declarations.page_width_mm, None);
    assert_eq!(declarations.page_height_mm, None);
    assert_eq!(declarations.page_width(), 210);
    assert_eq!(declarations.page_height(), 297);
}

#[test]
fn unknown_key_is_malformed_and_named() {
    let error = DocumentParser::get_declarations(
        &document(vec![declaration("foo", "bar")]),
        &Vec::new(),
    ).unwrap_err();
    assert_eq!(error.kind, ErrorKind::MalformedDeclaration(DeclarationFault::UnknownKey));
    assert!(error.is_malformed_declaration());
    assert_eq!(error.subject, "foo");
    assert!(error.chain.is_empty());
    assert_eq!(error.message(), "unknown declaration key: foo");
}

#[test]
fn includes_keep_order_and_duplicates() {
    let declarations = extract(vec![
        declaration("include", "b.png"),
        declaration("include", "a.png"),
        declaration("include", "b.png"),
    ]);
    assert_eq!(declarations.includes, vec!["b.png", "a.png", "b.png"]);
}

#[test]
fn links_keep_declaration_order() {
    let declarations = extract(vec![
        declaration("css", "z.css"),
        declaration("js", "one.js"),
        declaration("css", "a.css"),
        declaration("js", "two.js"),
    ]);
    assert_eq!(declarations.css, vec!["z.css", "a.css"]);
    assert_eq!(declarations.js, vec!["one.js", "two.js"]);
}

#[test]
fn page_dimensions_are_read() {
    let declarations =
        extract(vec![declaration("page-width", "100"), declaration("page-height", "50")]);
    assert_eq!(declarations.page_width_mm, Some(100));
    assert_eq!(declarations.page_height_mm, Some(50));
    assert_eq!(declarations.page_width(), 100);
    assert_eq!(declarations.page_height(), 50);
}

#[test]
fn last_page_dimension_stands() {
    let declarations = extract(vec![
        declaration("page-width", "100"),
        declaration("page-width", "148"),
        declaration("page-height", "1"),
        declaration("page-height", "210"),
    ]);
    assert_eq!(declarations.page_width_mm, Some(148));
    assert_eq!(declarations.page_height_mm, Some(210));
}

#[test]
fn page_width_that_is_no_number_names_the_key() {
    let error = DocumentParser::get_declarations(
        &document(vec![declaration("page-width", "wide")]),
        &Vec::new(),
    ).unwrap_err();
    assert_eq!(error.kind, ErrorKind::MalformedDeclaration(DeclarationFault::InvalidInteger));
    assert_eq!(error.subject, "page-width");
    assert_eq!(error.message(), "declaration is no positive integer: page-width");
}

#[test]
fn page_height_that_is_no_number_names_the_key() {
    for value in ["", "-5", "2.5", "10mm", "18446744073709551616"] {
        let error = DocumentParser::get_declarations(
            &document(vec![declaration("page-height", value)]),
            &Vec::new(),
        ).unwrap_err();
        assert_eq!(error.kind, ErrorKind::MalformedDeclaration(DeclarationFault::InvalidInteger));
        assert_eq!(error.subject, "page-height");
    }
}

#[test]
fn page_dimension_of_zero_is_refused() {
    let error = DocumentParser::get_declarations(
        &document(vec![declaration("page-width", "0")]),
        &Vec::new(),
    ).unwrap_err();
    assert_eq!(error.kind, ErrorKind::MalformedDeclaration(DeclarationFault::InvalidInteger));
    assert_eq!(error.subject, "page-width");
}

#[test]
fn font_is_found_by_its_exact_name() {
    let fonts = vec![font("Fira Sans", "FiraSans-Regular", &[1, 2, 3]), font("Inter", "Inter", &[9])];
    let declarations = DocumentParser::get_declarations(
        &document(vec![declaration("font", "Inter"), declaration("font", "Fira Sans")]),
        &fonts,
    ).unwrap();
    assert_eq!(declarations.fonts.len(), 2);
    assert_eq!(declarations.fonts[0].postscript_name, "Inter");
    assert_eq!(declarations.fonts[0].data, vec![9]);
    assert_eq!(declarations.fonts[1].postscript_name, "FiraSans-Regular");
    assert_eq!(declarations.fonts[1].data, vec![1, 2, 3]);
}

#[test]
fn first_answer_for_a_name_counts() {
    let fonts = vec![font("Inter", "Inter-A", &[1]), font("Inter", "Inter-B", &[2])];
    let declarations =
        DocumentParser::get_declarations(&document(vec![declaration("font", "Inter")]), &fonts)
            .unwrap();
    assert_eq!(declarations.fonts[0].postscript_name, "Inter-A");
}

#[test]
fn font_that_was_not_found_is_refused() {
    let fonts = vec![font("Inter", "Inter", &[9])];
    let error = DocumentParser::get_declarations(
        &document(vec![declaration("font", "inter")]),
        &fonts,
    ).unwrap_err();
    assert_eq!(error.kind, ErrorKind::MalformedDeclaration(DeclarationFault::FontNotFound));
    assert_eq!(error.subject, "inter");
    assert_eq!(error.message(), "font not found: inter");
}

#[test]
fn blocks_are_skipped() {
    let block = ParseNode::branch(
        Rule::Block,
        vec![ParseNode::branch(
            Rule::BlockElement,
            vec![ParseNode::leaf(Rule::BlockElementName, "div")],
        )],
    );
    let declarations =
        extract(vec![declaration("css", "a.css"), block, declaration("js", "a.js")]);
    assert_eq!(declarations.css, vec!["a.css"]);
    assert_eq!(declarations.js, vec!["a.js"]);
}

#[test]
fn first_failure_wins() {
    let error = DocumentParser::get_declarations(
        &document(vec![
            declaration("css", "a.css"),
            declaration("page-width", "x"),
            declaration("foo", "bar"),
        ]),
        &Vec::new(),
    ).unwrap_err();
    assert_eq!(error.subject, "page-width");
}

#[test]
fn foreign_node_at_the_top_is_unexpected() {
    let error = DocumentParser::get_declarations(
        &document(vec![ParseNode::leaf(Rule::BlockElement, "div")]),
        &Vec::new(),
    ).unwrap_err();
    assert_eq!(error.kind, ErrorKind::UnexpectedNode);
    assert_eq!(error.subject, "div");
}

#[test]
fn declaration_without_its_parts_is_unexpected() {
    let broken = ParseNode {
        rule: Rule::Declaration,
        text: "css".to_string(),
        children: vec![ParseNode::leaf(Rule::DeclarationKey, "css")],
    };
    let error = DocumentParser::get_declarations(&document(vec![broken]), &Vec::new()).unwrap_err();
    assert_eq!(error.kind, ErrorKind::UnexpectedNode);
    assert_eq!(error.subject, "css");
    let swapped = ParseNode {
        rule: Rule::Declaration,
        text: "a.css=css".to_string(),
        children: vec![
            ParseNode::leaf(Rule::DeclarationValue, "a.css"),
            ParseNode::leaf(Rule::DeclarationKey, "css"),
        ],
    };
    let error = DocumentParser::get_declarations(&document(vec![swapped]), &Vec::new()).unwrap_err();
    assert_eq!(error.kind, ErrorKind::UnexpectedNode);
}

#[test]
fn extracting_twice_yields_the_same_declarations() {
    let root = document(vec![
        declaration("include", "a.png"),
        declaration("css", "a.css"),
        declaration("page-width", "100"),
        declaration("font", "Inter"),
        declaration("js", "a.js"),
    ]);
    let fonts = vec![font("Inter", "Inter", &[1, 2])];
    let first = DocumentParser::get_declarations(&root, &fonts).unwrap();
    let second = DocumentParser::get_declarations(&root, &fonts).unwrap();
    assert_eq!(first.includes, second.includes);
    assert_eq!(first.js, second.js);
    assert_eq!(first.css, second.css);
    assert_eq!(first.page_width_mm, second.page_width_mm);
    assert_eq!(first.page_height_mm, second.page_height_mm);
    assert_eq!(first.fonts.len(), second.fonts.len());
    assert_eq!(first.fonts[0].postscript_name, second.fonts[0].postscript_name);
    assert_eq!(first.fonts[0].data, second.fonts[0].data);
}

#[test]
fn failing_twice_yields_the_same_failure() {
    let root = document(vec![declaration("foo", "bar")]);
    let first = DocumentParser::get_declarations(&root, &Vec::new()).unwrap_err();
    let second = DocumentParser::get_declarations(&root, &Vec::new()).unwrap_err();
    assert_eq!(first.kind, second.kind);
    assert_eq!(first.subject, second.subject);
    assert_eq!(first.chain, second.chain);
}

#[test]
fn font_requests_list_the_declared_fonts_in_order() {
    let root = document(vec![
        declaration("font", "Inter"),
        declaration("css", "font"),
        declaration("font", "Fira Sans"),
        declaration("font", "Inter"),
    ]);
    assert_eq!(DocumentParser::font_requests(&root), vec!["Inter", "Fira Sans", "Inter"]);
    assert!(DocumentParser::font_requests(&document(Vec::new())).is_empty());
}

#[test]
fn font_slug_is_lower_case_with_hyphens() {
    let handle = FontHandle { postscript_name: "Fira Sans Bold".to_string(), data: Vec::new() };
    assert_eq!(handle.slug(), "fira-sans-bold");
    let copy = handle.duplicate();
    assert_eq!(copy.postscript_name, "Fira Sans Bold");
}
