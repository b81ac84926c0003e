use hyperlines::dom::{Element, Node};
use hyperlines::flatten::LineRecord;
use hyperlines::nav::{Action, Browser, Key};

fn elem(tag: &str, href: Option<&str>, children: Vec<Node>) -> Node {
    Node::Elem(Element {
        tag: tag.to_string(),
        href: href.map(|h| h.to_string()),
        children,
    })
}

fn text(t: &str) -> Node {
    Node::Text(t.to_string())
}

fn browser_with_three_links() -> Browser {
    let tree = elem(
        "body",
        None,
        vec![
            elem("a", Some("/one"), vec![text("first")]),
            elem("a", Some("/two"), vec![text("second")]),
            elem("a", Some("/three"), vec![text("third")]),
        ],
    );
    let mut b = Browser::new();
    b.load_document("http://e.com/".to_string(), &tree);
    assert_eq!(b.page.links.len(), 3);
    b
}

#[test]
fn fetch_failure_yields_single_plain_error_line() {
    let mut b = Browser::new();
    b.load_error("http://e.com/".to_string(), "connection refused");
    assert_eq!(b.page.links.len(), 0);
    assert_eq!(
        b.page.lines,
        vec![LineRecord::Plain(
            "Error fetching URL: connection refused".to_string()
        )]
    );
    assert!(b.selected.is_none());
    assert_eq!(b.scroll, 0);
    assert_eq!(b.page.url, "http://e.com/");
}

#[test]
fn unparseable_base_address_yields_error_page() {
    let mut b = Browser::new();
    let tree = elem("body", None, vec![text("hi")]);
    b.load_document("not a url".to_string(), &tree);
    assert_eq!(b.page.links.len(), 0);
    assert_eq!(
        b.page.lines,
        vec![LineRecord::Plain(
            "Error parsing base address: not a url".to_string()
        )]
    );
    assert!(b.selected.is_none());
}

#[test]
fn loading_a_document_resets_selection_and_scroll() {
    let mut b = browser_with_three_links();
    b.on_key(Key::CycleForward);
    b.on_key(Key::ScrollDown(5));
    assert!(b.selected.is_some());
    let tree = elem("body", None, vec![text("fresh")]);
    b.load_document("http://e.com/next".to_string(), &tree);
    assert!(b.selected.is_none());
    assert_eq!(b.scroll, 0);
    assert_eq!(b.page.url, "http://e.com/next");
}

#[test]
fn cycling_forward_enters_at_first_link_and_wraps_with_period_three() {
    let mut b = browser_with_three_links();
    assert!(b.selected.is_none());
    b.cycle_forward();
    assert_eq!(b.selected, Some(0));
    b.cycle_forward();
    assert_eq!(b.selected, Some(1));
    b.cycle_forward();
    assert_eq!(b.selected, Some(2));
    b.cycle_forward();
    assert_eq!(b.selected, Some(0));
}

#[test]
fn cycling_backward_enters_at_last_link_and_wraps() {
    let mut b = browser_with_three_links();
    b.cycle_backward();
    assert_eq!(b.selected, Some(2));
    b.cycle_backward();
    assert_eq!(b.selected, Some(1));
    b.cycle_backward();
    assert_eq!(b.selected, Some(0));
    b.cycle_backward();
    assert_eq!(b.selected, Some(2));
}

#[test]
fn backward_inverts_forward_on_a_selected_link() {
    let mut b = browser_with_three_links();
    b.cycle_forward();
    b.cycle_forward();
    assert_eq!(b.selected, Some(1));
    b.cycle_forward();
    b.cycle_backward();
    assert_eq!(b.selected, Some(1));
    b.cycle_backward();
    b.cycle_forward();
    assert_eq!(b.selected, Some(1));
}

#[test]
fn cycling_on_an_empty_table_selects_nothing() {
    let mut b = Browser::new();
    b.cycle_forward();
    assert!(b.selected.is_none());
    b.cycle_backward();
    assert!(b.selected.is_none());
}

#[test]
fn activating_a_selection_requests_a_fetch_of_its_target() {
    let mut b = browser_with_three_links();
    b.cycle_forward();
    b.cycle_forward();
    match b.on_key(Key::Activate) {
        Action::Fetch(url) => assert_eq!(url, "http://e.com/two"),
        other => panic!("expected a fetch, got {:?}", other),
    }
}

#[test]
fn activating_without_a_selection_does_nothing() {
    let mut b = browser_with_three_links();
    assert!(matches!(b.on_key(Key::Activate), Action::Continue));
}

#[test]
fn activating_a_link_to_the_current_page_requests_no_fetch() {
    let tree = elem(
        "body",
        None,
        vec![elem("a", Some("http://e.com/"), vec![text("here")])],
    );
    let mut b = Browser::new();
    b.load_document("http://e.com/".to_string(), &tree);
    b.cycle_forward();
    assert!(matches!(b.on_key(Key::Activate), Action::Continue));
}

#[test]
fn quit_exits_and_other_keys_do_nothing() {
    let mut b = browser_with_three_links();
    assert!(matches!(b.on_key(Key::Quit), Action::Exit));
    assert!(matches!(b.on_key(Key::Other), Action::Continue));
    assert!(b.selected.is_none());
    assert_eq!(b.scroll, 0);
}

#[test]
fn scrolling_saturates_at_both_ends() {
    let mut b = browser_with_three_links();
    b.scroll_up(7);
    assert_eq!(b.scroll, 0);
    b.scroll_down(10);
    assert_eq!(b.scroll, 10);
    b.scroll_down(usize::MAX);
    assert_eq!(b.scroll, usize::MAX);
    b.scroll_up(1);
    assert_eq!(b.scroll, usize::MAX - 1);
}

#[test]
fn needs_fetch_exactly_when_the_address_differs() {
    let mut b = Browser::new();
    let tree = elem("body", None, vec![text("hi")]);
    b.load_document("http://e.com/".to_string(), &tree);
    assert!(!b.needs_fetch("http://e.com/"));
    assert!(b.needs_fetch("http://e.com/other"));
}
