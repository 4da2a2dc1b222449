use wtfis::dom::Node;
use wtfis::dom::NodeData;
use wtfis::sanitize::beautify;
use wtfis::walker::get_info;

fn text(s: &str) -> Node {
    Node { data: NodeData::Text { content: s.to_string() }, children: vec![] }
}

fn elem(tag: &str, attrs: Vec<(&str, &str)>, children: Vec<Node>) -> Node {
    Node {
        data: NodeData::Element {
            tag_name: tag.to_string(),
            attrs: attrs.iter().map(|(n, v)| (n.to_string(), v.to_string())).collect(),
        },
        children,
    }
}

fn root(children: Vec<Node>) -> Node {
    Node { data: NodeData::Other, children }
}

#[test]
fn no_table_yields_empty() {
    let tree = root(vec![
        elem("div", vec![], vec![text("before")]),
        elem("p", vec![], vec![text("a paragraph")]),
    ]);
    assert_eq!(get_info(&tree), "");
}

#[test]
fn table_then_bare_paragraph_captures_its_subtree() {
    let tree = root(vec![
        elem("div", vec![], vec![text("intro, not captured")]),
        elem("table", vec![], vec![text("cell text, not captured")]),
        elem("p", vec![], vec![text("the "), elem("b", vec![], vec![text("definition")])]),
    ]);
    assert_eq!(get_info(&tree), "the definition");
}

#[test]
fn capture_does_not_resume_after_paragraph_closes() {
    let tree = root(vec![
        elem("table", vec![], vec![]),
        elem("p", vec![], vec![text("inside")]),
        elem("p", vec![], vec![text("a later paragraph")]),
        text("trailing text"),
    ]);
    assert_eq!(get_info(&tree), "inside");
}

#[test]
fn attributed_paragraph_never_triggers() {
    let tree = root(vec![
        elem("table", vec![], vec![]),
        elem("p", vec![("class", "notice")], vec![text("styled")]),
    ]);
    assert_eq!(get_info(&tree), "");
}

#[test]
fn attributed_paragraph_is_skipped_then_bare_one_triggers() {
    let tree = root(vec![
        elem("table", vec![], vec![]),
        elem("p", vec![("class", "notice")], vec![text("styled, skipped")]),
        elem("div", vec![], vec![text("also skipped")]),
        elem("p", vec![], vec![text("finally captured")]),
    ]);
    assert_eq!(get_info(&tree), "finally captured");
}

#[test]
fn paragraph_before_table_does_not_trigger() {
    let tree = root(vec![
        elem("p", vec![], vec![text("too early")]),
        elem("table", vec![], vec![]),
        elem("p", vec![], vec![text("captured")]),
    ]);
    assert_eq!(get_info(&tree), "captured");
}

#[test]
fn several_tables_still_arm_the_walker() {
    let tree = root(vec![
        elem("table", vec![], vec![]),
        elem("div", vec![], vec![]),
        elem("table", vec![], vec![]),
        elem("p", vec![], vec![text("after two tables")]),
    ]);
    assert_eq!(get_info(&tree), "after two tables");
}

#[test]
fn tag_names_match_case_insensitively() {
    let tree = root(vec![
        elem("TABLE", vec![], vec![]),
        elem("P", vec![], vec![text("upper-case tags")]),
    ]);
    assert_eq!(get_info(&tree), "upper-case tags");
}

#[test]
fn trigger_works_across_nesting() {
    let tree = root(vec![
        elem("div", vec![], vec![elem("table", vec![], vec![])]),
        elem("section", vec![], vec![elem("p", vec![], vec![text("nested capture")])]),
    ]);
    assert_eq!(get_info(&tree), "nested capture");
}

#[test]
fn comments_and_other_nodes_are_traversed() {
    let tree = root(vec![root(vec![
        elem("table", vec![], vec![]),
        root(vec![elem("p", vec![], vec![text("under an opaque node")])]),
    ])]);
    assert_eq!(get_info(&tree), "under an opaque node");
}

#[test]
fn parse_threads_the_shared_flags() {
    let mut searching = true;
    let mut armed = false;
    let mut collector = String::new();
    let tree = root(vec![elem("table", vec![], vec![]), text("not yet captured")]);
    wtfis::walker::parse(false, &mut searching, &mut armed, &tree, &mut collector);
    assert!(searching);
    assert!(armed);
    assert_eq!(collector, "");
}

#[test]
fn parse_appends_when_emitting() {
    let mut searching = false;
    let mut armed = false;
    let mut collector = String::from("so far ");
    wtfis::walker::parse(true, &mut searching, &mut armed, &text("and more"), &mut collector);
    assert_eq!(collector, "so far and more");
}

#[test]
fn extraction_then_sanitizing() {
    let tree = root(vec![
        elem("table", vec![], vec![]),
        elem("p", vec![], vec![text("Tea (drink) is  nice")]),
    ]);
    assert_eq!(beautify(&get_info(&tree)), "Tea is nice");
}

#[test]
fn empty_extraction_gives_sentinel_only_for_colon() {
    let tree = root(vec![
        elem("table", vec![], vec![]),
        elem("p", vec![], vec![text("Usage:")]),
    ]);
    assert_eq!(
        beautify(&get_info(&tree)),
        "Your message was not recognised by database. \nPlease, correct it or enter another one."
    );
}
