use twml::template::{
    collect_references, find_template, first_found, has_path, template_candidates, template_path,
    Template, TemplateLoader, TemplateSource,
};
use twml::tree::{ParseNode, Rule};

fn reference(name: &str) -> ParseNode {
    ParseNode::branch(Rule::BlockTemplate, vec![ParseNode::leaf(Rule::BlockTemplateName, name)])
}

fn document(parts: Vec<ParseNode>) -> ParseNode {
    ParseNode::branch(Rule::Document, vec![ParseNode::branch(Rule::Block, parts)])
}

fn parsed(parts: Vec<ParseNode>) -> Option<TemplateSource> {
    Some(TemplateSource::Parsed(document(parts)))
}

#[test]
fn hyphens_in_a_name_are_path_separators() {
    assert_eq!(template_path("card"), "card");
    assert_eq!(template_path("cards-big-red"), "cards/big/red");
    assert_eq!(template_path(""), "");
}

#[test]
fn candidates_are_tried_from_the_working_directory_outwards() {
    assert_eq!(
        template_candidates("cards/big"),
        vec![
            "./cards/big.twml",
            "/usr/share/twml/templates/cards/big.twml",
            "~/.config/twml/templates/cards/big.twml",
        ]
    );
}

#[test]
fn references_are_collected_in_source_order() {
    let root = document(vec![
        reference("b"),
        ParseNode::branch(
            Rule::BlockElement,
            vec![
                ParseNode::leaf(Rule::BlockElementName, "div"),
                ParseNode::branch(
                    Rule::BlockChildren,
                    vec![ParseNode::branch(Rule::Block, vec![reference("a-x"), reference("b")])],
                ),
            ],
        ),
        reference("c"),
    ]);
    let mut paths = vec!["first".to_string()];
    collect_references(&root, &mut paths);
    assert_eq!(paths, vec!["first", "b", "a/x", "b", "c"]);
}

#[test]
fn paths_are_found_by_their_exact_text() {
    let paths = vec!["a".to_string(), "b/c".to_string()];
    assert!(has_path(&paths, "b/c"));
    assert!(!has_path(&paths, "b"));
    assert!(!has_path(&Vec::new(), ""));
}

#[test]
fn templates_are_found_by_their_exact_path() {
    let store = vec![
        Template { path: "a".to_string(), source: TemplateSource::Unparsable("x".to_string()) },
        Template { path: "b".to_string(), source: TemplateSource::Unparsable("y".to_string()) },
        Template { path: "a".to_string(), source: TemplateSource::Unparsable("z".to_string()) },
    ];
    assert_eq!(find_template(&store, "a"), Some(0));
    assert_eq!(find_template(&store, "b"), Some(1));
    assert_eq!(find_template(&store, "c"), None);
    assert_eq!(find_template(&Vec::new(), "a"), None);
}

#[test]
fn loader_asks_for_every_template_once() {
    let root = document(vec![reference("a"), reference("b"), reference("a")]);
    let mut loader = TemplateLoader::new(&root);
    assert_eq!(loader.pending, vec!["a", "b", "a"]);
    let mut asked: Vec<String> = Vec::new();
    loop {
        let path = match loader.next_request() {
            Some(path) => path,
            None => break,
        };
        asked.push(path.clone());
        let source = match path.as_str() {
            "a" => parsed(vec![reference("c"), reference("b")]),
            "b" => Some(TemplateSource::Unparsable("broken".to_string())),
            "c" => parsed(vec![reference("a"), reference("gone")]),
            _ => None,
        };
        loader.supply(path, source);
    }
    assert_eq!(asked, vec!["a", "b", "c", "gone"]);
    assert!(loader.pending.is_empty());
    assert_eq!(loader.missing, vec!["gone"]);
    let stored: Vec<&str> = loader.store.iter().map(|template| template.path.as_str()).collect();
    assert_eq!(stored, vec!["a", "b", "c"]);
}

#[test]
fn loader_of_a_document_without_references_asks_for_nothing() {
    let mut loader = TemplateLoader::new(&document(Vec::new()));
    assert_eq!(loader.next_request(), None);
    assert!(loader.store.is_empty());
    assert!(loader.missing.is_empty());
}

#[test]
fn first_candidate_that_exists_wins() {
    let here = Some("here".to_string());
    let shared = Some("shared".to_string());
    let own = Some("own".to_string());
    assert_eq!(first_found(vec![here.clone(), shared.clone(), own.clone()]), here);
    assert_eq!(first_found(vec![None, shared.clone(), own.clone()]), shared);
    assert_eq!(first_found(vec![None, None, own.clone()]), own);
    assert_eq!(first_found(vec![here.clone(), None, own.clone()]), here);
    assert_eq!(first_found(vec![None, None, None]), None);
    assert_eq!(first_found(Vec::new()), None);
}
