//! The markup flattener: a depth-first walk of the document tree that
//! produces the link table and the ordered line records.

use vstd::prelude::*;
use crate::dom::{Element, Node, texts_of, texts_of_children};
use crate::resolve::{resolve_href, resolve_spec};
use crate::text::{join_space, join_with_spaces, str_eq, strs_view, trim_spec, trim_str};

verus! {

/// One resolved hyperlink: its destination and its trimmed visible label.
#[derive(Debug, PartialEq, Eq)]
pub struct Link {
    pub target: String,
    pub label: String,
}

/// The mathematical value of a `Link`.
pub struct LinkView {
    pub target: Seq<char>,
    pub label: Seq<char>,
}

impl View for Link {
    type V = LinkView;

    open spec fn view(&self) -> LinkView {
        LinkView { target: self.target@, label: self.label@ }
    }
}

/// One unit of the flattened document: free text, or a link label carrying
/// the index of its entry in the link table.
#[derive(Debug, PartialEq, Eq)]
pub enum LineRecord {
    Plain(String),
    Linked(String, usize),
}

/// The mathematical value of a `LineRecord`.
pub enum LineView {
    Plain(Seq<char>),
    Linked(Seq<char>, int),
}

impl View for LineRecord {
    type V = LineView;

    open spec fn view(&self) -> LineView {
        match self {
            LineRecord::Plain(t) => LineView::Plain(t@),
            LineRecord::Linked(t, i) => LineView::Linked(t@, *i as int),
        }
    }
}

/// The views of a link table.
pub open spec fn links_view(s: Seq<Link>) -> Seq<LinkView> {
    s.map_values(|l: Link| l@)
}

/// The views of a sequence of line records.
pub open spec fn lines_view(s: Seq<LineRecord>) -> Seq<LineView> {
    s.map_values(|r: LineRecord| r@)
}

/// Whether the tag names an anchor element.
pub open spec fn is_anchor_tag(tag: Seq<char>) -> bool {
    tag == "a"@
}

/// The fixed set of block-level tags, each of which forces a line break
/// after its content.
pub open spec fn is_block_tag(tag: Seq<char>) -> bool {
    ||| tag == "p"@
    ||| tag == "div"@
    ||| tag == "br"@
    ||| tag == "li"@
    ||| tag == "ul"@
    ||| tag == "ol"@
    ||| tag == "section"@
    ||| tag == "article"@
}

fn tag_is_anchor(tag: &str) -> (r: bool)
    ensures
        r == is_anchor_tag(tag@),
{
    str_eq(tag, "a")
}

fn tag_is_block(tag: &str) -> (r: bool)
    ensures
        r == is_block_tag(tag@),
{
    str_eq(tag, "p") || str_eq(tag, "div") || str_eq(tag, "br") || str_eq(tag, "li") || str_eq(
        tag,
        "ul",
    ) || str_eq(tag, "ol") || str_eq(tag, "section") || str_eq(tag, "article")
}

/// The label an anchor shows: its descendant text runs joined with single
/// spaces, then trimmed.
pub open spec fn label_of(n: Node) -> Seq<char> {
    trim_spec(join_space(texts_of(n)))
}

/// The link table and line records produced by flattening `n` against the
/// base address `base`, when the link table already holds `off` entries.
pub open spec fn flatten_node(n: Node, base: Seq<char>, off: nat) -> (Seq<LinkView>, Seq<
    LineView,
>)
    decreases n,
{
    match n {
        Node::Text(t) => (
            Seq::<LinkView>::empty(),
            if trim_spec(t@).len() > 0 {
                seq![LineView::Plain(trim_spec(t@))]
            } else {
                Seq::<LineView>::empty()
            },
        ),
        Node::Elem(e) => {
            if is_anchor_tag(e.tag@) {
                match e.href {
                    Option::None => (Seq::<LinkView>::empty(), Seq::<LineView>::empty()),
                    Option::Some(h) => {
                        let label = trim_spec(join_space(texts_of_children(e.children@)));
                        if label.len() > 0 {
                            (
                                seq![LinkView { target: resolve_spec(base, h@), label }],
                                seq![LineView::Linked(label, off as int)],
                            )
                        } else {
                            (Seq::<LinkView>::empty(), Seq::<LineView>::empty())
                        }
                    },
                }
            } else {
                let (ls, rs) = flatten_children(e.children@, base, off);
                if is_block_tag(e.tag@) {
                    (ls, rs.push(LineView::Plain(Seq::empty())))
                } else {
                    (ls, rs)
                }
            }
        },
    }
}

/// Flattening of a sequence of sibling nodes, left to right.
pub open spec fn flatten_children(s: Seq<Node>, base: Seq<char>, off: nat) -> (Seq<LinkView>, Seq<
    LineView,
>)
    decreases s,
{
    if s.len() == 0 {
        (Seq::<LinkView>::empty(), Seq::<LineView>::empty())
    } else {
        let (l1, r1) = flatten_children(s.drop_last(), base, off);
        let (l2, r2) = flatten_node(s.last(), base, off + l1.len());
        (l1 + l2, r1 + r2)
    }
}

/// Collects the raw text runs of `n` into `out`.
#[verifier::loop_isolation(false)]
fn collect_texts(n: &Node, out: &mut Vec<String>)
    ensures
        strs_view(final(out)@) == strs_view(old(out)@) + texts_of(*n),
    decreases *n,
{
    match n {
        Node::Text(t) => {
            out.push(t.clone());
            proof {
                assert(strs_view(out@) =~= strs_view(old(out)@) + texts_of(*n));
            }
        },
        Node::Elem(e) => {
            let ghost orig = out@;
            let mut i: usize = 0;
            proof {
                assert(e.children@.subrange(0, 0) =~= Seq::<Node>::empty());
                assert(strs_view(out@) =~= strs_view(orig) + texts_of_children(
                    e.children@.subrange(0, 0),
                ));
            }
            while i < e.children.len()
                invariant
                    i <= e.children@.len(),
                    out@.len() >= orig.len(),
                    strs_view(out@) == strs_view(orig) + texts_of_children(
                        e.children@.subrange(0, i as int),
                    ),
                decreases e.children@.len() - i,
            {
                proof {
                    let el = *e;
                    assert(*n == Node::Elem(el));
                    assert(decreases_to!(*n => el));
                    assert(decreases_to!(el => el.children));
                    assert(decreases_to!(el.children => el.children@));
                    assert(decreases_to!(el.children@ => el.children@[i as int]));
                    assert(decreases_to!(*n => e.children@[i as int]));
                }
                collect_texts(&e.children[i], out);
                proof {
                    let pre = e.children@.subrange(0, i as int);
                    let cur = e.children@.subrange(0, i as int + 1);
                    assert(cur.drop_last() =~= pre);
                    assert(cur.last() == e.children@[i as int]);
                    assert(strs_view(out@) =~= strs_view(orig) + texts_of_children(cur));
                }
                i = i + 1;
            }
            proof {
                assert(e.children@.subrange(0, e.children@.len() as int) =~= e.children@);
            }
        },
    }
}

/// Builds the label of an anchor node: descendant text runs joined with
/// single spaces, trimmed.
fn anchor_label(n: &Node) -> (r: String)
    ensures
        r@ == label_of(*n),
{
    let mut parts: Vec<String> = Vec::new();
    proof {
        assert(strs_view(Seq::<String>::empty()) =~= Seq::<Seq<char>>::empty());
    }
    collect_texts(n, &mut parts);
    proof {
        assert(strs_view(parts@) =~= texts_of(*n));
    }
    let joined = join_with_spaces(&parts);
    let trimmed = trim_str(joined.as_str());
    trimmed.to_owned()
}

/// Appends the links and line records of `n` to `links` and `lines`.
#[verifier::loop_isolation(false)]
fn flatten_into(n: &Node, base: &str, links: &mut Vec<Link>, lines: &mut Vec<LineRecord>)
    ensures
        ({
            let (ls, rs) = flatten_node(*n, base@, old(links)@.len() as nat);
            links_view(final(links)@) == links_view(old(links)@) + ls && lines_view(final(lines)@)
                == lines_view(old(lines)@) + rs
        }),
    decreases *n,
{
    match n {
        Node::Text(t) => {
            let tt = trim_str(t.as_str());
            if !tt.is_empty() {
                lines.push(LineRecord::Plain(tt.to_owned()));
                proof {
                    let (ls, rs) = flatten_node(*n, base@, old(links)@.len() as nat);
                    assert(lines_view(lines@) =~= lines_view(old(lines)@) + rs);
                    assert(links_view(links@) =~= links_view(old(links)@) + ls);
                }
            } else {
                proof {
                    let (ls, rs) = flatten_node(*n, base@, old(links)@.len() as nat);
                    assert(lines_view(lines@) =~= lines_view(old(lines)@) + rs);
                    assert(links_view(links@) =~= links_view(old(links)@) + ls);
                }
            }
        },
        Node::Elem(e) => {
            if tag_is_anchor(e.tag.as_str()) {
                match &e.href {
                    Option::None => {
                        proof {
                            let (ls, rs) = flatten_node(*n, base@, old(links)@.len() as nat);
                            assert(lines_view(lines@) =~= lines_view(old(lines)@) + rs);
                            assert(links_view(links@) =~= links_view(old(links)@) + ls);
                        }
                    },
                    Option::Some(h) => {
                        let label = anchor_label(n);
                        if !label.as_str().is_empty() {
                            let target = resolve_href(base, h.as_str());
                            let idx = links.len();
                            links.push(Link { target, label: label.clone() });
                            lines.push(LineRecord::Linked(label, idx));
                            proof {
                                let (ls, rs) = flatten_node(*n, base@, old(links)@.len() as nat);
                                assert(lines_view(lines@) =~= lines_view(old(lines)@) + rs);
                                assert(links_view(links@) =~= links_view(old(links)@) + ls);
                            }
                        } else {
                            proof {
                                let (ls, rs) = flatten_node(*n, base@, old(links)@.len() as nat);
                                assert(lines_view(lines@) =~= lines_view(old(lines)@) + rs);
                                assert(links_view(links@) =~= links_view(old(links)@) + ls);
                            }
                        }
                    },
                }
            } else {
                let ghost links0 = links@;
                let ghost lines0 = lines@;
                let mut i: usize = 0;
                proof {
                    let sub = e.children@.subrange(0, 0);
                    assert(sub =~= Seq::<Node>::empty());
                    let (ls, rs) = flatten_children(sub, base@, links0.len() as nat);
                    assert(links_view(links@) =~= links_view(links0) + ls);
                    assert(lines_view(lines@) =~= lines_view(lines0) + rs);
                }
                while i < e.children.len()
                    invariant
                        i <= e.children@.len(),
                        ({
                            let (ls, rs) = flatten_children(
                                e.children@.subrange(0, i as int),
                                base@,
                                links0.len() as nat,
                            );
                            links_view(links@) == links_view(links0) + ls && lines_view(lines@)
                                == lines_view(lines0) + rs
                        }),
                    decreases e.children@.len() - i,
                {
                    proof {
                        let (ls, rs) = flatten_children(
                            e.children@.subrange(0, i as int),
                            base@,
                            links0.len() as nat,
                        );
                        assert(links_view(links@).len() == links0.len() + ls.len());
                        let el = *e;
                        assert(*n == Node::Elem(el));
                        assert(decreases_to!(*n => el));
                        assert(decreases_to!(el => el.children));
                        assert(decreases_to!(el.children => el.children@));
                        assert(decreases_to!(el.children@ => el.children@[i as int]));
                        assert(decreases_to!(*n => e.children@[i as int]));
                    }
                    flatten_into(&e.children[i], base, links, lines);
                    proof {
                        let pre = e.children@.subrange(0, i as int);
                        let cur = e.children@.subrange(0, i as int + 1);
                        assert(cur.drop_last() =~= pre);
                        assert(cur.last() == e.children@[i as int]);
                        let (ls1, rs1) = flatten_children(pre, base@, links0.len() as nat);
                        let (ls2, rs2) = flatten_node(
                            e.children@[i as int],
                            base@,
                            links0.len() as nat + ls1.len(),
                        );
                        let (lsc, rsc) = flatten_children(cur, base@, links0.len() as nat);
                        assert(lsc == ls1 + ls2 && rsc == rs1 + rs2);
                        assert(links_view(links@) =~= links_view(links0) + lsc);
                        assert(lines_view(lines@) =~= lines_view(lines0) + rsc);
                    }
                    i = i + 1;
                }
                proof {
                    assert(e.children@.subrange(0, e.children@.len() as int) =~= e.children@);
                }
                if tag_is_block(e.tag.as_str()) {
                    let ghost pre = lines@;
                    let rec = LineRecord::Plain(String::new());
                    proof {
                        assert(rec@ == LineView::Plain(Seq::<char>::empty()));
                    }
                    lines.push(rec);
                    proof {
                        let (lsc, rsc) = flatten_children(
                            e.children@,
                            base@,
                            links0.len() as nat,
                        );
                        let brk = LineView::Plain(Seq::<char>::empty());
                        assert(lines_view(pre) == lines_view(lines0) + rsc);
                        assert(lines_view(lines@) =~= lines_view(pre).push(brk));
                        let (ls, rs) = flatten_node(*n, base@, old(links)@.len() as nat);
                        assert(rs == rsc.push(brk));
                        assert(lines_view(lines@) =~= lines_view(old(lines)@) + rs);
                        assert(links_view(links@) =~= links_view(old(links)@) + ls);
                    }
                }
            }
        },
    }
}

/// Flattens the document tree rooted at `root` into the link table and the
/// ordered line records, resolving every destination against `base`.
pub fn flatten(root: &Node, base: &str) -> (r: (Vec<Link>, Vec<LineRecord>))
    ensures
        ({
            let (ls, rs) = flatten_node(*root, base@, 0);
            links_view(r.0@) == ls && lines_view(r.1@) == rs
        }),
{
    let mut links: Vec<Link> = Vec::new();
    let mut lines: Vec<LineRecord> = Vec::new();
    proof {
        assert(links_view(links@) =~= Seq::<LinkView>::empty());
        assert(lines_view(lines@) =~= Seq::<LineView>::empty());
    }
    flatten_into(root, base, &mut links, &mut lines);
    proof {
        let (ls, rs) = flatten_node(*root, base@, 0);
        assert(links_view(links@) =~= ls);
        assert(lines_view(lines@) =~= rs);
    }
    (links, lines)
}


/// The (label, link index) pairs of the linked line records, in order.
pub open spec fn linked_entries(rs: Seq<LineView>) -> Seq<(Seq<char>, int)>
    decreases rs.len(),
{
    if rs.len() == 0 {
        Seq::empty()
    } else {
        let front = linked_entries(rs.drop_last());
        match rs.last() {
            LineView::Linked(t, i) => front.push((t, i)),
            LineView::Plain(_) => front,
        }
    }
}

proof fn lemma_linked_entries_empty()
    ensures
        linked_entries(Seq::<LineView>::empty()) == Seq::<(Seq<char>, int)>::empty(),
{
}

proof fn lemma_linked_entries_single(v: LineView)
    ensures
        linked_entries(seq![v]) == (match v {
            LineView::Linked(t, i) => seq![(t, i)],
            LineView::Plain(_) => Seq::<(Seq<char>, int)>::empty(),
        }),
{
    let rs = seq![v];
    assert(rs.drop_last() =~= Seq::<LineView>::empty());
    lemma_linked_entries_empty();
    assert(rs.last() == v);
    match v {
        LineView::Linked(t, i) => {
            assert(linked_entries(rs) =~= seq![(t, i)]);
        },
        LineView::Plain(_) => {},
    }
}

proof fn lemma_linked_entries_concat(a: Seq<LineView>, b: Seq<LineView>)
    ensures
        linked_entries(a + b) == linked_entries(a) + linked_entries(b),
    decreases b.len(),
{
    if b.len() == 0 {
        assert(a + b =~= a);
        assert(linked_entries(b) =~= Seq::<(Seq<char>, int)>::empty());
        assert(linked_entries(a) + linked_entries(b) =~= linked_entries(a));
    } else {
        lemma_linked_entries_concat(a, b.drop_last());
        assert((a + b).drop_last() =~= a + b.drop_last());
        assert((a + b).last() == b.last());
        match b.last() {
            LineView::Linked(t, i) => {
                assert(linked_entries(a + b) =~= linked_entries(a) + linked_entries(b));
            },
            LineView::Plain(_) => {
                assert(linked_entries(a + b) =~= linked_entries(a) + linked_entries(b));
            },
        }
    }
}

/// Law: flattening yields exactly one linked line record per link-table
/// entry. The j-th linked record, in document order, carries the index
/// `off + j` and the label of the j-th new entry; the indices are therefore
/// distinct, consecutive, and all resolve within the table.
pub proof fn lemma_links_match_records(n: Node, base: Seq<char>, off: nat)
    ensures
        ({
            let (ls, rs) = flatten_node(n, base, off);
            &&& linked_entries(rs).len() == ls.len()
            &&& forall|j: int|
                0 <= j < ls.len() ==> linked_entries(rs)[j] == (ls[j].label, off + j)
        }),
    decreases n,
{
    lemma_linked_entries_empty();
    match n {
        Node::Text(t) => {
            if trim_spec(t@).len() > 0 {
                lemma_linked_entries_single(LineView::Plain(trim_spec(t@)));
            }
        },
        Node::Elem(e) => {
            if is_anchor_tag(e.tag@) {
                match e.href {
                    Option::None => {},
                    Option::Some(h) => {
                        let label = trim_spec(join_space(texts_of_children(e.children@)));
                        if label.len() > 0 {
                            lemma_linked_entries_single(LineView::Linked(label, off as int));
                        }
                    },
                }
            } else {
                let el = e;
                assert(decreases_to!(el => el.children));
                assert(decreases_to!(el.children => el.children@));
                lemma_links_match_records_children(e.children@, base, off);
                let (ls, rs) = flatten_children(e.children@, base, off);
                if is_block_tag(e.tag@) {
                    let rs2 = rs.push(LineView::Plain(Seq::empty()));
                    assert(rs2.drop_last() =~= rs);
                }
            }
        },
    }
}

/// The law of `lemma_links_match_records`, for a sequence of sibling nodes.
pub proof fn lemma_links_match_records_children(s: Seq<Node>, base: Seq<char>, off: nat)
    ensures
        ({
            let (ls, rs) = flatten_children(s, base, off);
            &&& linked_entries(rs).len() == ls.len()
            &&& forall|j: int|
                0 <= j < ls.len() ==> linked_entries(rs)[j] == (ls[j].label, off + j)
        }),
    decreases s,
{
    if s.len() == 0 {
        lemma_linked_entries_empty();
    } else {
        lemma_links_match_records_children(s.drop_last(), base, off);
        let (l1, r1) = flatten_children(s.drop_last(), base, off);
        lemma_links_match_records(s.last(), base, off + l1.len());
        let (l2, r2) = flatten_node(s.last(), base, off + l1.len());
        lemma_linked_entries_concat(r1, r2);
        assert forall|j: int| 0 <= j < (l1 + l2).len() implies linked_entries(r1 + r2)[j] == (
            (l1 + l2)[j].label,
            off + j,
        ) by {
            if j < l1.len() {
                assert(linked_entries(r1 + r2)[j] == linked_entries(r1)[j]);
            } else {
                assert(linked_entries(r1 + r2)[j] == linked_entries(r2)[j - l1.len()]);
                assert((l1 + l2)[j] == l2[j - l1.len()]);
            }
        }
    }
}

/// Law: every linked line record of a flattening carries an index inside the
/// stretch of link-table entries that the same flattening produced.
pub proof fn lemma_flatten_indices_bounded(n: Node, base: Seq<char>, off: nat)
    ensures
        ({
            let (ls, rs) = flatten_node(n, base, off);
            forall|j: int|
                0 <= j < rs.len() ==> (#[trigger] rs[j] matches LineView::Linked(t, k) ==> off <= k
                    < off + ls.len())
        }),
    decreases n,
{
    match n {
        Node::Text(t) => {},
        Node::Elem(e) => {
            if is_anchor_tag(e.tag@) {
            } else {
                let el = e;
                assert(decreases_to!(el => el.children));
                assert(decreases_to!(el.children => el.children@));
                lemma_flatten_indices_bounded_children(e.children@, base, off);
            }
        },
    }
}

/// The law of `lemma_flatten_indices_bounded`, for sibling nodes.
pub proof fn lemma_flatten_indices_bounded_children(s: Seq<Node>, base: Seq<char>, off: nat)
    ensures
        ({
            let (ls, rs) = flatten_children(s, base, off);
            forall|j: int|
                0 <= j < rs.len() ==> (#[trigger] rs[j] matches LineView::Linked(t, k) ==> off <= k
                    < off + ls.len())
        }),
    decreases s,
{
    if s.len() == 0 {
    } else {
        lemma_flatten_indices_bounded_children(s.drop_last(), base, off);
        let (l1, r1) = flatten_children(s.drop_last(), base, off);
        lemma_flatten_indices_bounded(s.last(), base, off + l1.len());
        let (l2, r2) = flatten_node(s.last(), base, off + l1.len());
        assert forall|j: int| 0 <= j < (r1 + r2).len() implies (#[trigger] (r1 + r2)[j] matches
        LineView::Linked(t, k) ==> off <= k < off + (l1 + l2).len()) by {
            if j < r1.len() {
                assert((r1 + r2)[j] == r1[j]);
            } else {
                assert((r1 + r2)[j] == r2[j - r1.len()]);
            }
        }
    }
}

/// Law: flattening is deterministic. The same document tree and the same
/// base address always yield the same link table and line record sequence.
pub proof fn lemma_flatten_deterministic(n1: Node, n2: Node, base1: Seq<char>, base2: Seq<char>)
    requires
        n1 == n2,
        base1 == base2,
    ensures
        flatten_node(n1, base1, 0) == flatten_node(n2, base2, 0),
{
}

} // verus!
