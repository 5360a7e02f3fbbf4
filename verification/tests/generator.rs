use twml::error::ErrorKind;
use twml::parser::DocumentParser;
use twml::token::Token;

fn open(name: &str) -> Token {
    Token::ElementOpen { name: name.to_string() }
}

fn classes(names: &[&str]) -> Token {
    Token::ElementClasses { classes: names.iter().map(|name| name.to_string()).collect() }
}

fn attributes(pairs: &[(&str, &str)]) -> Token {
    Token::ElementAttributes {
        attributes: pairs.iter().map(|(key, value)| (key.to_string(), value.to_string())).collect(),
    }
}

fn inline(content: &str) -> Token {
    Token::InlineContent { content: content.to_string() }
}

fn children(tokens: Vec<Token>) -> Token {
    Token::ChildTokens { children: tokens }
}

fn line(content: &str) -> Token {
    Token::TextLine { content: content.to_string() }
}

fn body(tokens: &Vec<Token>, indentation: usize) -> String {
    DocumentParser::generate_html_body(tokens, indentation, false, "").unwrap()
}

#[test]
fn span_with_inline_content_closes_with_its_own_name() {
    let tokens = vec![open("span"), inline("hi")];
    assert_eq!(body(&tokens, 0), "\n<span>hi</span>");
}

#[test]
fn no_tokens_give_no_text() {
    assert_eq!(body(&Vec::new(), 4), "");
}

#[test]
fn element_without_content_self_closes() {
    let tokens = vec![open("img"), classes(&["w-4", "h-4"]), attributes(&[("src", "a.png")])];
    assert_eq!(body(&tokens, 2), "\n  <img class=\"w-4 h-4\" src=\"a.png\" />");
}

#[test]
fn bare_element_self_closes() {
    assert_eq!(body(&vec![open("hr")], 0), "\n<hr />");
}

#[test]
fn open_element_is_closed_when_its_sibling_opens() {
    let tokens = vec![open("br"), open("span"), inline("x")];
    assert_eq!(body(&tokens, 0), "\n<br />\n<span>x</span>");
}

#[test]
fn attributes_come_after_classes_in_list_order() {
    let tokens = vec![
        open("a"),
        classes(&["link"]),
        attributes(&[("href", "x.html"), ("title", "say &quot;hi&quot;"), ("id", "z")]),
        inline("go"),
    ];
    assert_eq!(
        body(&tokens, 0),
        "\n<a class=\"link\" href=\"x.html\" title=\"say &quot;hi&quot;\" id=\"z\">go</a>"
    );
}

#[test]
fn empty_class_list_is_still_an_attribute() {
    let tokens = vec![open("p"), classes(&[])];
    assert_eq!(body(&tokens, 0), "\n<p class=\"\" />");
}

#[test]
fn nested_block_is_indented_two_more_and_closed_at_its_parents_indentation() {
    let tokens = vec![
        open("div"),
        classes(&["page"]),
        children(vec![open("h1"), inline("Title"), open("p"), inline("Text")]),
    ];
    assert_eq!(
        body(&tokens, 4),
        "\n    <div class=\"page\">\n      <h1>Title</h1>\n      <p>Text</p>\n    </div>"
    );
}

#[test]
fn three_levels_nest_by_two_spaces_each() {
    let tokens =
        vec![open("a"), children(vec![open("b"), children(vec![open("c"), inline("x")])])];
    assert_eq!(body(&tokens, 0), "\n<a>\n  <b>\n    <c>x</c>\n  </b>\n</a>");
}

#[test]
fn last_open_element_of_a_nested_block_self_closes() {
    let nested = DocumentParser::generate_html_body(&vec![open("img")], 0, true, "div").unwrap();
    assert_eq!(nested, "\n<img />");
    let top = DocumentParser::generate_html_body(&vec![open("img")], 0, false, "div").unwrap();
    assert_eq!(top, "\n<img />");
    let tokens = vec![open("div"), children(vec![open("img")])];
    assert_eq!(body(&tokens, 0), "\n<div>\n  <img />\n</div>");
}

#[test]
fn every_element_is_one_tag_closed_or_self_closed() {
    let tokens = vec![
        open("ul"),
        children(vec![
            open("li"),
            children(vec![open("br"), open("hr"), classes(&["thin"])]),
            open("li"),
        ]),
        open("img"),
    ];
    assert_eq!(
        body(&tokens, 0),
        "\n<ul>\n  <li>\n    <br />\n    <hr class=\"thin\" />\n  </li>\n  <li />\n</ul>\n<img />"
    );
}

#[test]
fn lines_after_a_closed_verbatim_sibling_follow_the_enclosing_element() {
    let tokens = vec![open("pre"), inline("x"), line("a"), line("b")];
    let html = DocumentParser::generate_html_body(&tokens, 0, true, "div").unwrap();
    assert_eq!(html, "\n<pre>x</pre>\na<br />\nb");
    let tokens = vec![open("pre"), inline("x"), Token::BlankLine, line("a")];
    let html = DocumentParser::generate_html_body(&tokens, 2, true, "div").unwrap();
    assert_eq!(html, "\n  <pre>x</pre><br />\n\n  a");
}

#[test]
fn lines_in_a_verbatim_element_stay_verbatim_after_a_sibling() {
    let tokens = vec![line("a"), open("b"), inline("x"), line("c"), line("d")];
    let html = DocumentParser::generate_html_body(&tokens, 4, true, "pre").unwrap();
    assert_eq!(html, "\na\n    <b>x</b>\nc\nd");
}

#[test]
fn text_lines_are_indented_and_joined_by_line_breaks() {
    let tokens = vec![open("p"), children(vec![line("one"), line("two"), line("three")])];
    assert_eq!(body(&tokens, 0), "\n<p>\n  one<br />\n  two<br />\n  three\n</p>");
}

#[test]
fn first_text_line_has_no_line_break_before_it() {
    let nested = DocumentParser::generate_html_body(&vec![line("only")], 4, true, "p").unwrap();
    assert_eq!(nested, "\n    only");
}

#[test]
fn blank_line_is_a_line_break() {
    let tokens = vec![open("p"), children(vec![line("one"), Token::BlankLine, line("two")])];
    assert_eq!(body(&tokens, 0), "\n<p>\n  one<br />\n<br />\n  two\n</p>");
}

#[test]
fn verbatim_element_keeps_its_lines_as_written() {
    let tokens =
        vec![open("pre"), children(vec![line("fn main() {"), Token::BlankLine, line("}")])];
    assert_eq!(body(&tokens, 6), "\n      <pre>\nfn main() {\n\n}\n      </pre>");
}

#[test]
fn verbatim_holds_for_the_nearest_element_only() {
    let tokens = vec![
        open("pre"),
        children(vec![open("div"), children(vec![line("a"), line("b")])]),
    ];
    assert_eq!(body(&tokens, 0), "\n<pre>\n  <div>\n    a<br />\n    b\n  </div>\n</pre>");
}

#[test]
fn enclosing_name_closes_content_that_comes_before_any_element() {
    let html = DocumentParser::generate_html_body(&vec![inline("x")], 0, true, "em").unwrap();
    assert_eq!(html, ">x</em>");
}

#[test]
fn line_after_a_new_element_starts_a_new_run() {
    let tokens = vec![line("a"), line("b"), open("i"), inline("x"), line("c")];
    let html = DocumentParser::generate_html_body(&tokens, 1, true, "p").unwrap();
    assert_eq!(html, "\n a<br />\n b\n <i>x</i>\n c");
}

#[test]
fn indentation_beyond_the_machine_is_refused() {
    let tokens = vec![children(vec![children(Vec::new())])];
    assert_eq!(
        DocumentParser::generate_html_body(&tokens, usize::MAX - 3, true, "a").unwrap_err().kind,
        ErrorKind::LimitExceeded
    );
    let tokens = vec![children(Vec::new())];
    let error =
        DocumentParser::generate_html_body(&tokens, usize::MAX - 1, true, "a").unwrap_err();
    assert_eq!(error.kind, ErrorKind::LimitExceeded);
    assert_eq!(error.subject, "");
    assert!(error.chain.is_empty());
}

#[test]
fn duplicate_keeps_all_that_is_nested() {
    let token = children(vec![open("b"), classes(&["x"]), children(vec![line("deep")])]);
    let copy = token.duplicate();
    let first = DocumentParser::generate_html_body(&vec![open("a"), token], 0, false, "").unwrap();
    let second = DocumentParser::generate_html_body(&vec![open("a"), copy], 0, false, "").unwrap();
    assert_eq!(first, second);
    assert_eq!(first, "\n<a>\n  <b class=\"x\">\n    deep\n  </b>\n</a>");
}
