use hyperlines::dom::{Element, Node};
use hyperlines::flatten::{flatten, LineRecord};
use hyperlines::resolve::resolve_href;

fn elem(tag: &str, href: Option<&str>, children: Vec<Node>) -> Node {
    Node::Elem(Element {
        tag: tag.to_string(),
        href: href.map(|h| h.to_string()),
        children,
    })
}

fn text(t: &str) -> Node {
    Node::Text(t.to_string())
}

#[test]
fn paragraph_with_link_flattens_to_three_records() {
    let tree = elem(
        "body",
        None,
        vec![elem(
            "p",
            None,
            vec![text("Hello "), elem("a", Some("/x"), vec![text("world")])],
        )],
    );
    let (links, lines) = flatten(&tree, "http://e.com/");
    assert_eq!(links.len(), 1);
    assert_eq!(links[0].target, "http://e.com/x");
    assert_eq!(links[0].label, "world");
    assert_eq!(
        lines,
        vec![
            LineRecord::Plain("Hello".to_string()),
            LineRecord::Linked("world".to_string(), 0),
            LineRecord::Plain(String::new()),
        ]
    );
}

#[test]
fn anchor_without_href_produces_nothing() {
    let tree = elem("body", None, vec![elem("a", None, vec![text("orphan")])]);
    let (links, lines) = flatten(&tree, "http://e.com/");
    assert_eq!(links.len(), 0);
    assert_eq!(lines.len(), 0);
}

#[test]
fn anchor_with_whitespace_label_produces_nothing() {
    let tree = elem(
        "body",
        None,
        vec![elem("a", Some("/x"), vec![text("  \t\n  ")])],
    );
    let (links, lines) = flatten(&tree, "http://e.com/");
    assert_eq!(links.len(), 0);
    assert_eq!(lines.len(), 0);
}

#[test]
fn relative_href_resolves_against_base_directory() {
    assert_eq!(
        resolve_href("http://e.com/dir/index.html", "page2"),
        "http://e.com/dir/page2"
    );
    let tree = elem("a", Some("page2"), vec![text("next")]);
    let (links, _) = flatten(&tree, "http://e.com/dir/index.html");
    assert_eq!(links[0].target, "http://e.com/dir/page2");
    assert_eq!(links[0].label, "next");
}

#[test]
fn absolute_href_passes_through_unchanged() {
    assert_eq!(
        resolve_href("http://e.com/", "https://other.org/z"),
        "https://other.org/z"
    );
}

#[test]
fn unresolvable_href_falls_back_to_raw_attribute() {
    // A cannot-be-a-base address parses, but joining against it fails.
    assert_eq!(resolve_href("mailto:user@e.com", "page2"), "page2");
}

#[test]
fn anchor_label_joins_descendant_texts_with_single_spaces() {
    let tree = elem(
        "a",
        Some("/x"),
        vec![text("Hello "), elem("b", None, vec![text("world")])],
    );
    let (links, lines) = flatten(&tree, "http://e.com/");
    assert_eq!(links[0].label, "Hello  world");
    assert_eq!(
        lines,
        vec![LineRecord::Linked("Hello  world".to_string(), 0)]
    );
}

#[test]
fn whitespace_only_text_produces_no_record() {
    let tree = elem("body", None, vec![text("   \n\t ")]);
    let (links, lines) = flatten(&tree, "http://e.com/");
    assert_eq!(links.len(), 0);
    assert_eq!(lines.len(), 0);
}

#[test]
fn block_elements_append_a_break_and_inline_elements_do_not() {
    let tree = elem(
        "body",
        None,
        vec![
            elem("div", None, vec![text("one")]),
            elem("span", None, vec![text("two")]),
            elem("br", None, vec![]),
        ],
    );
    let (_, lines) = flatten(&tree, "http://e.com/");
    assert_eq!(
        lines,
        vec![
            LineRecord::Plain("one".to_string()),
            LineRecord::Plain(String::new()),
            LineRecord::Plain("two".to_string()),
            LineRecord::Plain(String::new()),
        ]
    );
}

#[test]
fn anchors_are_indexed_in_document_order() {
    let tree = elem(
        "body",
        None,
        vec![
            elem("a", Some("/one"), vec![text("first")]),
            elem("ul", None, vec![elem(
                "li",
                None,
                vec![elem("a", Some("/two"), vec![text("second")])],
            )]),
        ],
    );
    let (links, lines) = flatten(&tree, "http://e.com/");
    assert_eq!(links.len(), 2);
    assert_eq!(links[0].target, "http://e.com/one");
    assert_eq!(links[1].target, "http://e.com/two");
    assert_eq!(
        lines,
        vec![
            LineRecord::Linked("first".to_string(), 0),
            LineRecord::Linked("second".to_string(), 1),
            LineRecord::Plain(String::new()),
            LineRecord::Plain(String::new()),
        ]
    );
}

#[test]
fn flattening_twice_yields_identical_results() {
    let tree = elem(
        "body",
        None,
        vec![elem(
            "p",
            None,
            vec![text("Hello "), elem("a", Some("/x"), vec![text("world")])],
        )],
    );
    let first = flatten(&tree, "http://e.com/");
    let second = flatten(&tree, "http://e.com/");
    assert_eq!(first.0, second.0);
    assert_eq!(first.1, second.1);
}
