use hyperlines::dom::{Element, Node};
use hyperlines::flatten::LineRecord;
use hyperlines::nav::Browser;
use hyperlines::project::{project, LineStyle, StyledLine};

fn five_plain_lines() -> Vec<LineRecord> {
    vec![
        LineRecord::Plain("a".to_string()),
        LineRecord::Plain("b".to_string()),
        LineRecord::Plain("c".to_string()),
        LineRecord::Plain("d".to_string()),
        LineRecord::Plain("e".to_string()),
    ]
}

#[test]
fn window_is_viewport_high_and_offset_clamps_to_content() {
    let lines = five_plain_lines();
    let (window, eff) = project(&lines, None, 2, 100);
    assert_eq!(eff, 3);
    assert_eq!(window.len(), 2);
    assert_eq!(window[0].text, "d");
    assert_eq!(window[1].text, "e");
}

#[test]
fn short_document_shows_whole_content_from_the_top() {
    let lines = five_plain_lines();
    let (window, eff) = project(&lines, None, 10, 4);
    assert_eq!(eff, 0);
    assert_eq!(window.len(), 5);
    assert_eq!(window[0].text, "a");
}

#[test]
fn in_range_offset_is_kept() {
    let lines = five_plain_lines();
    let (window, eff) = project(&lines, None, 2, 1);
    assert_eq!(eff, 1);
    assert_eq!(window.len(), 2);
    assert_eq!(window[0].text, "b");
}

#[test]
fn empty_document_projects_an_empty_window() {
    let lines: Vec<LineRecord> = Vec::new();
    let (window, eff) = project(&lines, None, 3, 9);
    assert_eq!(eff, 0);
    assert_eq!(window.len(), 0);
}

#[test]
fn selected_link_is_styled_apart_from_other_links() {
    let lines = vec![
        LineRecord::Plain("intro".to_string()),
        LineRecord::Linked("first".to_string(), 0),
        LineRecord::Linked("second".to_string(), 1),
    ];
    let (window, _) = project(&lines, Some(1), 3, 0);
    assert_eq!(
        window,
        vec![
            StyledLine { text: "intro".to_string(), style: LineStyle::Plain },
            StyledLine { text: "first".to_string(), style: LineStyle::Link },
            StyledLine { text: "second".to_string(), style: LineStyle::Selected },
        ]
    );
}

#[test]
fn no_selection_styles_every_link_alike() {
    let lines = vec![
        LineRecord::Linked("first".to_string(), 0),
        LineRecord::Linked("second".to_string(), 1),
    ];
    let (window, _) = project(&lines, None, 2, 0);
    assert_eq!(window[0].style, LineStyle::Link);
    assert_eq!(window[1].style, LineStyle::Link);
}

#[test]
fn render_window_stores_the_clamped_offset() {
    let tree = Node::Elem(Element {
        tag: "body".to_string(),
        href: None,
        children: vec![
            Node::Elem(Element {
                tag: "p".to_string(),
                href: None,
                children: vec![Node::Text("one".to_string())],
            }),
            Node::Elem(Element {
                tag: "p".to_string(),
                href: None,
                children: vec![Node::Text("two".to_string())],
            }),
        ],
    });
    let mut b = Browser::new();
    b.load_document("http://e.com/".to_string(), &tree);
    assert_eq!(b.page.lines.len(), 4);
    b.scroll_down(50);
    let window = b.render_window(2);
    assert_eq!(b.scroll, 2);
    assert_eq!(window.len(), 2);
    assert_eq!(window[0].text, "two");
    assert_eq!(window[1].text, "");
}
