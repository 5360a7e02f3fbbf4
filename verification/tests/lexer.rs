use twml::error::{CompileError, ErrorKind};
use twml::parser::DocumentParser;
use twml::state::{LexerState, Scope};
use twml::template::{Template, TemplateSource};
use twml::token::Token;
use twml::tree::{ParseNode, Rule};

fn leaf(rule: Rule, text: &str) -> ParseNode {
    ParseNode::leaf(rule, text)
}

fn node(rule: Rule, children: Vec<ParseNode>) -> ParseNode {
    ParseNode::branch(rule, children)
}

fn with_name(rule: Rule, name_rule: Rule, name: &str, parts: Vec<ParseNode>) -> ParseNode {
    let mut children = vec![leaf(name_rule, name)];
    children.extend(parts);
    ParseNode { rule, text: name.to_string(), children }
}

fn element(name: &str, parts: Vec<ParseNode>) -> ParseNode {
    with_name(Rule::BlockElement, Rule::BlockElementName, name, parts)
}

fn reference(name: &str, parts: Vec<ParseNode>) -> ParseNode {
    with_name(Rule::BlockTemplate, Rule::BlockTemplateName, name, parts)
}

fn class_parts(own: Rule, names: &[&str]) -> Vec<ParseNode> {
    names
        .iter()
        .map(|name| if *name == "&" { leaf(Rule::ExtendClasses, "&") } else { leaf(own, name) })
        .collect()
}

fn classes(names: &[&str]) -> ParseNode {
    node(Rule::BlockElementClasses, class_parts(Rule::BlockElementClass, names))
}

fn reference_classes(names: &[&str]) -> ParseNode {
    node(Rule::BlockTemplateClasses, class_parts(Rule::BlockTemplateClass, names))
}

fn attribute(key: &str, value: &str) -> ParseNode {
    ParseNode {
        rule: Rule::Attribute,
        text: format!("{}=\"{}\"", key, value),
        children: vec![leaf(Rule::AttributeKey, key), leaf(Rule::AttributeValue, value)],
    }
}

fn attributes(pairs: &[(&str, &str)]) -> ParseNode {
    node(
        Rule::BlockElementAttributes,
        pairs.iter().map(|(key, value)| attribute(key, value)).collect(),
    )
}

fn reference_attributes(pairs: &[(&str, &str)]) -> ParseNode {
    node(
        Rule::BlockTemplateAttributes,
        pairs.iter().map(|(key, value)| attribute(key, value)).collect(),
    )
}

fn content(text: &str) -> ParseNode {
    leaf(Rule::BlockElementContent, text)
}

fn block(parts: Vec<ParseNode>) -> ParseNode {
    node(Rule::Block, parts)
}

fn child_block(parts: Vec<ParseNode>) -> ParseNode {
    node(Rule::BlockChildren, vec![block(parts)])
}

fn slot() -> ParseNode {
    node(Rule::BlockChildren, vec![leaf(Rule::Ellipsis, "...")])
}

fn text_line(text: &str) -> ParseNode {
    leaf(Rule::BlockContentLine, text)
}

fn document(parts: Vec<ParseNode>) -> ParseNode {
    node(Rule::Document, vec![block(parts), leaf(Rule::EndOfInput, "")])
}

fn stored(path: &str, parts: Vec<ParseNode>) -> Template {
    Template { path: path.to_string(), source: TemplateSource::Parsed(document(parts)) }
}

fn lex_with(
    root: &ParseNode,
    store: &Vec<Template>,
) -> Result<(Vec<Token>, LexerState), CompileError> {
    DocumentParser::lex_html_document(root, LexerState::default(), &Scope::root(), store, 64)
}

fn lex(parts: Vec<ParseNode>, store: &Vec<Template>) -> (Vec<Token>, LexerState) {
    lex_with(&document(parts), store).unwrap()
}

fn fail(parts: Vec<ParseNode>, store: &Vec<Template>) -> CompileError {
    lex_with(&document(parts), store).unwrap_err()
}

fn shown(tokens: &Vec<Token>) -> String {
    format!("{:?}", tokens)
}

fn open(name: &str) -> Token {
    Token::ElementOpen { name: name.to_string() }
}

fn class_token(names: &[&str]) -> Token {
    Token::ElementClasses { classes: names.iter().map(|name| name.to_string()).collect() }
}

fn attribute_token(pairs: &[(&str, &str)]) -> Token {
    Token::ElementAttributes {
        attributes: pairs.iter().map(|(key, value)| (key.to_string(), value.to_string())).collect(),
    }
}

fn inline(text: &str) -> Token {
    Token::InlineContent { content: text.to_string() }
}

fn line(text: &str) -> Token {
    Token::TextLine { content: text.to_string() }
}

fn below(tokens: Vec<Token>) -> Token {
    Token::ChildTokens { children: tokens }
}

fn entry(heading: &str, page: usize) -> (String, usize) {
    (heading.to_string(), page)
}

#[test]
fn element_parts_become_tokens_in_source_order() {
    let (tokens, state) = lex(
        vec![element(
            "a",
            vec![classes(&["link", "big"]), attributes(&[("href", "x.html")]), content("go")],
        )],
        &Vec::new(),
    );
    let expected = vec![
        open("a"),
        class_token(&["link", "big"]),
        attribute_token(&[("href", "x.html")]),
        inline("go"),
    ];
    assert_eq!(shown(&tokens), shown(&expected));
    assert_eq!(state.page_number, 0);
    assert!(state.toc.is_empty());
}

#[test]
fn page_class_counts_a_page() {
    let (tokens, state) =
        lex(vec![element("div", vec![classes(&["page"]), content("hello")])], &Vec::new());
    assert_eq!(shown(&tokens), shown(&vec![open("div"), class_token(&["page"]), inline("hello")]));
    assert_eq!(state.page_number, 1);
    assert!(state.toc.is_empty());
}

#[test]
fn heading_is_listed_with_the_page_it_stands_on() {
    let (_, state) = lex(
        vec![
            element("h1", vec![classes(&["toc"]), content("Before")]),
            element(
                "div",
                vec![
                    classes(&["page"]),
                    child_block(vec![element("h1", vec![classes(&["toc"]), content("First")])]),
                ],
            ),
            element(
                "div",
                vec![
                    classes(&["page"]),
                    child_block(vec![
                        element("h1", vec![classes(&["big", "toc"]), content("Second")]),
                        element("h2", vec![classes(&["toc"]), content("Third")]),
                    ]),
                ],
            ),
        ],
        &Vec::new(),
    );
    assert_eq!(state.page_number, 2);
    assert_eq!(
        state.toc,
        vec![entry("Before", 0), entry("First", 1), entry("Second", 2), entry("Third", 2)]
    );
}

#[test]
fn heading_that_begins_a_page_stands_on_the_new_page() {
    let (_, state) = lex(
        vec![
            element("h1", vec![classes(&["page", "toc"]), content("One")]),
            element("h1", vec![classes(&["toc", "page"]), content("Two")]),
        ],
        &Vec::new(),
    );
    assert_eq!(state.page_number, 2);
    assert_eq!(state.toc, vec![entry("One", 1), entry("Two", 2)]);
}

#[test]
fn heading_without_inline_content_is_not_listed() {
    let (_, state) = lex(
        vec![element("h1", vec![classes(&["toc"]), child_block(vec![text_line("Long")])])],
        &Vec::new(),
    );
    assert!(state.toc.is_empty());
}

#[test]
fn state_is_carried_on_from_what_it_was() {
    let start = LexerState { page_number: 7, toc: vec![entry("Old", 3)] };
    let root = document(vec![element("h1", vec![classes(&["page", "toc"]), content("New")])]);
    let (_, state) =
        DocumentParser::lex_html_document(&root, start, &Scope::root(), &Vec::new(), 64).unwrap();
    assert_eq!(state.page_number, 8);
    assert_eq!(state.toc, vec![entry("Old", 3), entry("New", 8)]);
}

#[test]
fn page_number_beyond_the_machine_is_refused() {
    let start = LexerState { page_number: usize::MAX, toc: Vec::new() };
    let root = document(vec![element("div", vec![classes(&["page"])])]);
    let error = DocumentParser::lex_html_document(&root, start, &Scope::root(), &Vec::new(), 64)
        .unwrap_err();
    assert_eq!(error.kind, ErrorKind::LimitExceeded);
}

#[test]
fn nested_children_become_child_tokens() {
    let (tokens, _) = lex(
        vec![element(
            "div",
            vec![child_block(vec![
                element("p", vec![child_block(vec![text_line("a"), text_line("b")])]),
                leaf(Rule::BlockContentEmptyLine, ""),
                text_line("c"),
            ])],
        )],
        &Vec::new(),
    );
    let expected = vec![
        open("div"),
        below(vec![open("p"), below(vec![line("a"), line("b")]), Token::BlankLine, line("c")]),
    ];
    assert_eq!(shown(&tokens), shown(&expected));
}

#[test]
fn declarations_yield_no_tokens() {
    let root = node(
        Rule::Document,
        vec![
            node(
                Rule::Declaration,
                vec![leaf(Rule::DeclarationKey, "css"), leaf(Rule::DeclarationValue, "a.css")],
            ),
            block(vec![text_line("x")]),
            leaf(Rule::EndOfInput, ""),
        ],
    );
    let (tokens, _) = lex_with(&root, &Vec::new()).unwrap();
    assert_eq!(shown(&tokens), shown(&vec![line("x")]));
}

#[test]
fn attribute_values_escape_quotes() {
    let (tokens, _) = lex(
        vec![element("a", vec![attributes(&[("title", "say \\\"hi\\\"")])])],
        &Vec::new(),
    );
    assert_eq!(
        shown(&tokens),
        shown(&vec![open("a"), attribute_token(&[("title", "say &quot;hi&quot;")])])
    );
}

#[test]
fn repeated_attribute_keeps_its_place_and_takes_the_last_value() {
    let (tokens, _) = lex(
        vec![element("a", vec![attributes(&[("id", "1"), ("href", "x"), ("id", "2")])])],
        &Vec::new(),
    );
    assert_eq!(
        shown(&tokens),
        shown(&vec![open("a"), attribute_token(&[("id", "2"), ("href", "x")])])
    );
}

#[test]
fn escaped_placeholder_is_written_with_single_braces_everywhere() {
    let (tokens, _) = lex(
        vec![element("p", vec![content("{{x}} and {x}")]), text_line("{{y}}")],
        &Vec::new(),
    );
    assert_eq!(shown(&tokens), shown(&vec![open("p"), inline("{x} and {x}"), line("{y}")]));
}

#[test]
fn template_with_a_placeholder_expands_to_the_filled_text() {
    let store = vec![stored("greet", vec![text_line("Hello {name}!")])];
    let (tokens, _) = lex(
        vec![reference("greet", vec![reference_attributes(&[("name", "Ada")])])],
        &store,
    );
    assert_eq!(shown(&tokens), shown(&vec![line("Hello Ada!")]));
}

#[test]
fn template_inline_content_is_filled() {
    let store = vec![stored("greet", vec![element("p", vec![content("Hello {name}!")])])];
    let (tokens, _) = lex(
        vec![reference("greet", vec![reference_attributes(&[("name", "Ada")])])],
        &store,
    );
    assert_eq!(shown(&tokens), shown(&vec![open("p"), inline("Hello Ada!")]));
}

#[test]
fn template_attribute_values_are_filled() {
    let store =
        vec![stored("link", vec![element("a", vec![attributes(&[("href", "{to}.html")])])])];
    let (tokens, _) =
        lex(vec![reference("link", vec![reference_attributes(&[("to", "index")])])], &store);
    assert_eq!(
        shown(&tokens),
        shown(&vec![open("a"), attribute_token(&[("href", "index.html")])])
    );
}

#[test]
fn expansion_stands_between_its_neighbours() {
    let store = vec![stored("rule", vec![element("hr", Vec::new())])];
    let (tokens, _) = lex(
        vec![text_line("before"), reference("rule", Vec::new()), text_line("after")],
        &store,
    );
    assert_eq!(shown(&tokens), shown(&vec![line("before"), open("hr"), line("after")]));
}

#[test]
fn template_name_is_read_as_a_path() {
    let store = vec![stored("cards/big", vec![text_line("card")])];
    let (tokens, _) = lex(vec![reference("cards-big", Vec::new())], &store);
    assert_eq!(shown(&tokens), shown(&vec![line("card")]));
}

#[test]
fn first_template_of_a_path_is_used() {
    let store = vec![stored("t", vec![text_line("first")]), stored("t", vec![text_line("second")])];
    let (tokens, _) = lex(vec![reference("t", Vec::new())], &store);
    assert_eq!(shown(&tokens), shown(&vec![line("first")]));
}

#[test]
fn children_marker_is_replaced_by_the_callers_children() {
    let store = vec![stored(
        "card",
        vec![element("div", vec![classes(&["card"]), slot()])],
    )];
    let (tokens, _) = lex(
        vec![reference(
            "card",
            vec![child_block(vec![
                element("h1", vec![content("Title")]),
                element("ul", vec![child_block(vec![element("li", vec![content("deep")])])]),
            ])],
        )],
        &store,
    );
    let expected = vec![
        open("div"),
        class_token(&["card"]),
        below(vec![
            open("h1"),
            inline("Title"),
            open("ul"),
            below(vec![open("li"), inline("deep")]),
        ]),
    ];
    assert_eq!(shown(&tokens), shown(&expected));
}

#[test]
fn children_marker_stands_between_the_templates_own_children() {
    let body = element(
        "div",
        vec![node(
            Rule::BlockChildren,
            vec![
                block(vec![text_line("head")]),
                leaf(Rule::Ellipsis, "..."),
                block(vec![text_line("foot")]),
            ],
        )],
    );
    let store = vec![stored("frame", vec![body])];
    let (tokens, _) = lex(
        vec![reference("frame", vec![child_block(vec![text_line("one"), text_line("two")])])],
        &store,
    );
    let expected =
        vec![open("div"), below(vec![line("head"), line("one"), line("two"), line("foot")])];
    assert_eq!(shown(&tokens), shown(&expected));
}

#[test]
fn reference_content_is_one_line_of_children() {
    let store = vec![stored("b", vec![element("b", vec![slot()])])];
    let (tokens, _) =
        lex(vec![reference("b", vec![leaf(Rule::BlockTemplateContent, "bold")])], &store);
    assert_eq!(shown(&tokens), shown(&vec![open("b"), below(vec![line("bold")])]));
}

#[test]
fn class_marker_is_replaced_by_the_callers_classes() {
    let store = vec![stored("box", vec![element("div", vec![classes(&["box", "&", "end"])])])];
    let (tokens, _) =
        lex(vec![reference("box", vec![reference_classes(&["red", "big"])])], &store);
    assert_eq!(
        shown(&tokens),
        shown(&vec![open("div"), class_token(&["box", "red", "big", "end"])])
    );
}

#[test]
fn callers_page_class_counts_inside_the_template() {
    let store = vec![stored("sheet", vec![element("div", vec![classes(&["&"]), content("x")])])];
    let (_, state) = lex(vec![reference("sheet", vec![reference_classes(&["page"])])], &store);
    assert_eq!(state.page_number, 1);
}

#[test]
fn children_marker_without_children_is_an_undefined_slot() {
    let store = vec![stored("card", vec![element("div", vec![slot()])])];
    let error = fail(vec![reference("card", Vec::new())], &store);
    assert_eq!(error.kind, ErrorKind::UndefinedTemplateSlot);
    assert_eq!(error.subject, "...");
    assert_eq!(error.chain, vec!["card"]);
    assert_eq!(error.message(), "undefined template slot: ... (in template card)");
}

#[test]
fn class_marker_without_classes_is_an_undefined_slot() {
    let store = vec![stored("box", vec![element("div", vec![classes(&["&"])])])];
    let error = fail(vec![reference("box", Vec::new())], &store);
    assert_eq!(error.kind, ErrorKind::UndefinedTemplateSlot);
    assert_eq!(error.subject, "&");
    assert_eq!(error.chain, vec!["box"]);
}

#[test]
fn markers_outside_any_template_are_undefined_slots() {
    let error = fail(vec![element("div", vec![slot()])], &Vec::new());
    assert_eq!(error.kind, ErrorKind::UndefinedTemplateSlot);
    assert!(error.chain.is_empty());
    let error = fail(vec![element("div", vec![classes(&["&"])])], &Vec::new());
    assert_eq!(error.kind, ErrorKind::UndefinedTemplateSlot);
    let error = fail(vec![reference("t", vec![reference_classes(&["&"])])], &vec![stored("t", Vec::new())]);
    assert_eq!(error.kind, ErrorKind::UndefinedTemplateSlot);
    assert!(error.chain.is_empty());
}

#[test]
fn empty_children_fill_the_slot_with_nothing() {
    let store = vec![stored("card", vec![element("div", vec![slot()])])];
    let (tokens, _) =
        lex(vec![reference("card", vec![node(Rule::BlockChildren, Vec::new())])], &store);
    assert_eq!(shown(&tokens), shown(&vec![open("div"), below(Vec::new())]));
}

#[test]
fn template_that_is_not_in_the_store_is_not_found() {
    let error = fail(vec![reference("cards-big", Vec::new())], &vec![stored("cards", Vec::new())]);
    assert_eq!(error.kind, ErrorKind::TemplateNotFound);
    assert_eq!(error.subject, "cards/big");
    assert!(error.chain.is_empty());
    assert_eq!(error.message(), "template not found: cards/big");
}

#[test]
fn template_that_is_no_document_is_a_syntax_error_inside_it() {
    let store = vec![Template {
        path: "bad".to_string(),
        source: TemplateSource::Unparsable("1:1 expected block".to_string()),
    }];
    let error = fail(vec![reference("bad", Vec::new())], &store);
    assert_eq!(error.kind, ErrorKind::Syntax);
    assert_eq!(error.subject, "1:1 expected block");
    assert_eq!(error.chain, vec!["bad"]);
    assert_eq!(error.message(), "syntax error: 1:1 expected block (in template bad)");
}

#[test]
fn failure_chain_reads_from_the_outermost_template_inwards() {
    let store = vec![
        stored("outer", vec![reference("middle", Vec::new())]),
        stored("middle", vec![reference("inner", Vec::new())]),
        stored("inner", vec![reference("gone", Vec::new())]),
    ];
    let error = fail(vec![reference("outer", Vec::new())], &store);
    assert_eq!(error.kind, ErrorKind::TemplateNotFound);
    assert_eq!(error.subject, "gone");
    assert_eq!(error.chain, vec!["outer", "middle", "inner"]);
    assert_eq!(
        error.message(),
        "template not found: gone (in template outer > middle > inner)"
    );
}

#[test]
fn template_that_references_itself_exceeds_the_limit() {
    let store = vec![stored("loop", vec![reference("loop", Vec::new())])];
    let error = fail(vec![reference("loop", Vec::new())], &store);
    assert_eq!(error.kind, ErrorKind::LimitExceeded);
    assert_eq!(error.subject, "loop");
    assert_eq!(error.chain.len(), 64);
    assert!(error.chain.iter().all(|path| path == "loop"));
}

#[test]
fn depth_counts_the_levels_of_expansion() {
    let store = vec![
        stored("a", vec![reference("b", Vec::new())]),
        stored("b", vec![text_line("leaf")]),
    ];
    let root = document(vec![reference("a", Vec::new())]);
    let lex_at = |depth: usize| {
        DocumentParser::lex_html_document(&root, LexerState::default(), &Scope::root(), &store, depth)
    };
    assert!(lex_at(2).is_ok());
    let error = lex_at(1).unwrap_err();
    assert_eq!(error.kind, ErrorKind::LimitExceeded);
    assert_eq!(error.subject, "b");
    assert_eq!(error.chain, vec!["a"]);
    let error = lex_at(0).unwrap_err();
    assert_eq!(error.subject, "a");
    assert!(error.chain.is_empty());
}

#[test]
fn template_sees_only_what_its_own_reference_supplies() {
    let store = vec![
        stored("outer", vec![reference("inner", vec![reference_attributes(&[("y", "2")])])]),
        stored("inner", vec![text_line("x={x} y={y}")]),
    ];
    let (tokens, _) =
        lex(vec![reference("outer", vec![reference_attributes(&[("x", "1")])])], &store);
    assert_eq!(shown(&tokens), shown(&vec![line("x={x} y=2")]));
}

#[test]
fn reference_attributes_are_handed_on_as_written() {
    let store = vec![
        stored("outer", vec![reference("inner", vec![reference_attributes(&[("y", "{x}")])])]),
        stored("inner", vec![text_line("y={y}")]),
    ];
    let (tokens, _) =
        lex(vec![reference("outer", vec![reference_attributes(&[("x", "1")])])], &store);
    assert_eq!(shown(&tokens), shown(&vec![line("y={x}")]));
}

#[test]
fn callers_children_are_read_in_the_callers_scope() {
    let store = vec![
        stored(
            "outer",
            vec![reference(
                "inner",
                vec![reference_attributes(&[("x", "inner")]), child_block(vec![text_line("{x}")])],
            )],
        ),
        stored("inner", vec![element("div", vec![slot()]), text_line("{x}")]),
    ];
    let (tokens, _) =
        lex(vec![reference("outer", vec![reference_attributes(&[("x", "outer")])])], &store);
    assert_eq!(
        shown(&tokens),
        shown(&vec![open("div"), below(vec![line("outer")]), line("inner")])
    );
}

#[test]
fn template_pages_and_headings_join_the_callers() {
    let store = vec![stored(
        "chapter",
        vec![
            element("h1", vec![classes(&["page", "toc"]), content("{title}")]),
            element("div", vec![classes(&["page"])]),
        ],
    )];
    let (_, state) = lex(
        vec![
            element("h1", vec![classes(&["page", "toc"]), content("Intro")]),
            reference("chapter", vec![reference_attributes(&[("title", "One")])]),
            reference("chapter", vec![reference_attributes(&[("title", "Two")])]),
            element("h1", vec![classes(&["toc"]), content("End")]),
        ],
        &store,
    );
    assert_eq!(state.page_number, 5);
    assert_eq!(
        state.toc,
        vec![entry("Intro", 1), entry("One", 2), entry("Two", 4), entry("End", 5)]
    );
}

#[test]
fn callers_children_are_counted_before_the_templates_body() {
    let store = vec![stored(
        "wrap",
        vec![element("h1", vec![classes(&["page", "toc"]), content("Body")]), element("div", vec![slot()])],
    )];
    let (_, state) = lex(
        vec![reference(
            "wrap",
            vec![child_block(vec![element("h2", vec![classes(&["page", "toc"]), content("Child")])])],
        )],
        &store,
    );
    assert_eq!(state.page_number, 2);
    assert_eq!(state.toc, vec![entry("Child", 1), entry("Body", 2)]);
}

#[test]
fn declarations_of_a_template_are_dropped() {
    let template = Template {
        path: "t".to_string(),
        source: TemplateSource::Parsed(node(
            Rule::Document,
            vec![
                node(
                    Rule::Declaration,
                    vec![leaf(Rule::DeclarationKey, "foo"), leaf(Rule::DeclarationValue, "bar")],
                ),
                block(vec![text_line("body")]),
                leaf(Rule::EndOfInput, ""),
            ],
        )),
    };
    let (tokens, _) = lex(vec![reference("t", Vec::new())], &vec![template]);
    assert_eq!(shown(&tokens), shown(&vec![line("body")]));
}

#[test]
fn foreign_nodes_are_unexpected() {
    let error = fail(vec![leaf(Rule::Attribute, "stray")], &Vec::new());
    assert_eq!(error.kind, ErrorKind::UnexpectedNode);
    assert_eq!(error.subject, "stray");
    assert_eq!(error.message(), "unexpected node: stray");
    let error = fail(vec![element("div", vec![leaf(Rule::Block, "inner")])], &Vec::new());
    assert_eq!(error.kind, ErrorKind::UnexpectedNode);
    assert_eq!(error.subject, "inner");
    let root = node(Rule::Document, vec![leaf(Rule::Other, "odd")]);
    assert_eq!(lex_with(&root, &Vec::new()).unwrap_err().kind, ErrorKind::UnexpectedNode);
    let broken = node(
        Rule::BlockElementAttributes,
        vec![ParseNode {
            rule: Rule::Attribute,
            text: "k".to_string(),
            children: vec![leaf(Rule::AttributeKey, "k")],
        }],
    );
    let error = fail(vec![element("div", vec![broken])], &Vec::new());
    assert_eq!(error.kind, ErrorKind::UnexpectedNode);
    assert_eq!(error.subject, "k");
}

#[test]
fn reference_without_a_name_is_unexpected() {
    let nameless = ParseNode { rule: Rule::BlockTemplate, text: "@".to_string(), children: Vec::new() };
    let error = fail(vec![nameless], &Vec::new());
    assert_eq!(error.kind, ErrorKind::UnexpectedNode);
    assert_eq!(error.subject, "@");
}

#[test]
fn first_failure_in_source_order_wins() {
    let error = fail(
        vec![
            reference("gone", vec![reference_classes(&["&"])]),
            leaf(Rule::Other, "later"),
        ],
        &Vec::new(),
    );
    assert_eq!(error.kind, ErrorKind::TemplateNotFound);
}

#[test]
fn body_nests_as_deep_as_the_source() {
    let (tokens, _) = lex(
        vec![
            element("a", vec![child_block(vec![element("b", vec![child_block(vec![text_line("x")])])])]),
            element("c", vec![content("flat")]),
        ],
        &Vec::new(),
    );
    let html = DocumentParser::generate_html_body(&tokens, 0, false, "").unwrap();
    assert_eq!(html, "\n<a>\n  <b>\n    x\n  </b>\n</a>\n<c>flat</c>");
    let deepest = html.lines().map(|l| l.len() - l.trim_start().len()).max().unwrap();
    assert_eq!(deepest, 4);
}

#[test]
fn stages_of_one_block_can_be_called_on_their_own() {
    let part = element("p", vec![classes(&["page"]), content("x")]);
    let (tokens, state) = DocumentParser::lex_html_block_element(
        &part,
        LexerState::default(),
        &Scope::root(),
        &Vec::new(),
        0,
    ).unwrap();
    assert_eq!(shown(&tokens), shown(&vec![open("p"), class_token(&["page"]), inline("x")]));
    assert_eq!(state.page_number, 1);
    let scope = Scope {
        children: Some(vec![line("given")]),
        classes: None,
        attributes: vec![("who".to_string(), "you".to_string())],
    };
    let (tokens, _) = DocumentParser::lex_html_block_children(
        &node(Rule::BlockChildren, vec![leaf(Rule::Ellipsis, "..."), block(vec![text_line("{who}")])]),
        LexerState::default(),
        &scope,
        &Vec::new(),
        0,
    ).unwrap();
    assert_eq!(shown(&tokens), shown(&vec![line("given"), line("you")]));
    let (tokens, _) = DocumentParser::lex_html_block(
        &block(vec![text_line("hi {who}")]),
        LexerState::default(),
        &scope,
        &Vec::new(),
        0,
    ).unwrap();
    assert_eq!(shown(&tokens), shown(&vec![line("hi you")]));
    let store = vec![stored("greet", vec![text_line("Hello {name}!")])];
    let (tokens, _) = DocumentParser::lex_html_block_template(
        &reference("greet", vec![reference_attributes(&[("name", "Ada")])]),
        LexerState::default(),
        &Scope::root(),
        &store,
        1,
    ).unwrap();
    assert_eq!(shown(&tokens), shown(&vec![line("Hello Ada!")]));
}
