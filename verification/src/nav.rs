//! The navigation state machine: the cached page, the selection and the
//! scroll offset, and the transitions driven by user input and by the result
//! of a fetch.

use vstd::prelude::*;
use vstd::arithmetic::div_mod::{lemma_add_mod_noop, lemma_mod_self_0, lemma_small_mod};
use crate::dom::Node;
use crate::flatten::{flatten, flatten_node, lemma_flatten_indices_bounded, lines_view, links_view,
    Link, LineRecord, LineView};
use crate::resolve::{parse_ok, url_parse_ok};
use crate::text::str_eq;

verus! {

/// One rendered page: its address, its link table, and its line records,
/// replaced as a unit on every completed navigation.
pub struct Page {
    pub url: String,
    pub links: Vec<Link>,
    pub lines: Vec<LineRecord>,
}

/// The state the machine drives: the cached page, the selected link if any,
/// and the scroll offset.
pub struct Browser {
    pub page: Page,
    pub selected: Option<usize>,
    pub scroll: usize,
}

/// A user input event, already mapped from the raw key.
#[derive(Clone, Copy, Debug)]
pub enum Key {
    Quit,
    CycleForward,
    CycleBackward,
    Activate,
    ScrollDown(usize),
    ScrollUp(usize),
    Other,
}

/// What the surrounding loop must do after a transition.
#[derive(Debug)]
pub enum Action {
    Continue,
    Fetch(String),
    Exit,
}

/// The selection as a mathematical value.
pub open spec fn sel_view(s: Option<usize>) -> Option<int> {
    match s {
        Option::None => Option::None,
        Option::Some(i) => Option::Some(i as int),
    }
}

/// One forward cycle over `{none} U [0, len)`: from none to the first link,
/// then onwards with wrap-around; a no-op on an empty table.
pub open spec fn fwd_step(sel: Option<int>, len: int) -> Option<int> {
    if len <= 0 {
        sel
    } else {
        match sel {
            Option::None => Option::Some(0),
            Option::Some(i) => Option::Some((i + 1) % len),
        }
    }
}

/// One backward cycle: from none to the last link, then backwards with
/// wrap-around; a no-op on an empty table.
pub open spec fn bwd_step(sel: Option<int>, len: int) -> Option<int> {
    if len <= 0 {
        sel
    } else {
        match sel {
            Option::None => Option::Some(len - 1),
            Option::Some(i) => if i == 0 {
                Option::Some(len - 1)
            } else {
                Option::Some(i - 1)
            },
        }
    }
}

/// Addition capped at the largest representable offset.
pub open spec fn sat_add(a: usize, b: usize) -> usize {
    if a + b > usize::MAX {
        usize::MAX
    } else {
        (a + b) as usize
    }
}

/// Subtraction floored at zero.
pub open spec fn sat_sub(a: usize, b: usize) -> usize {
    if b > a {
        0
    } else {
        (a - b) as usize
    }
}

impl Browser {
    /// Well-formed: the selection, if any, indexes the link table, and so
    /// does the reference of every linked line record.
    pub open spec fn wf(self) -> bool {
        &&& (match self.selected {
            Option::Some(i) => (i as int) < self.page.links@.len(),
            Option::None => true,
        })
        &&& (forall|j: int|
            0 <= j < self.page.lines@.len() ==> (#[trigger] self.page.lines@[j]@ matches
            LineView::Linked(t, k) ==> 0 <= k < self.page.links@.len()))
    }

    /// A fresh machine: no page yet, nothing selected, scrolled to the top.
    pub fn new() -> (r: Browser)
        ensures
            r.wf(),
            r.page.url@ == Seq::<char>::empty(),
            r.page.links@.len() == 0,
            r.page.lines@.len() == 0,
            r.selected is None,
            r.scroll == 0,
    {
        Browser {
            page: Page { url: String::new(), links: Vec::new(), lines: Vec::new() },
            selected: None,
            scroll: 0,
        }
    }

    /// Whether navigating to `new_url` requires a fetch: it does exactly when
    /// the address differs from the cached page's.
    pub fn needs_fetch(&self, new_url: &str) -> (r: bool)
        ensures
            r == (new_url@ != self.page.url@),
    {
        !str_eq(new_url, self.page.url.as_str())
    }

    /// Replaces the page with the flattening of `root`, fetched from `url`,
    /// or with a one-line error page when `url` is not a parseable base
    /// address; resets the selection and the scroll offset.
    pub fn load_document(&mut self, url: String, root: &Node)
        ensures
            final(self).wf(),
            final(self).page.url@ == url@,
            final(self).selected is None,
            final(self).scroll == 0,
            url_parse_ok(url@) ==> ({
                let (ls, rs) = flatten_node(*root, url@, 0);
                links_view(final(self).page.links@) == ls && lines_view(final(self).page.lines@)
                    == rs
            }),
            !url_parse_ok(url@) ==> final(self).page.links@.len() == 0 && lines_view(
                final(self).page.lines@,
            ) == seq![LineView::Plain("Error parsing base address: "@ + url@)],
    {
        if parse_ok(url.as_str()) {
            let (links, lines) = flatten(root, url.as_str());
            proof {
                lemma_flatten_indices_bounded(*root, url@, 0);
                let (ls, rs) = flatten_node(*root, url@, 0);
                assert forall|j: int| 0 <= j < lines@.len() implies (#[trigger] lines@[j]@ matches
                LineView::Linked(t, k) ==> 0 <= k < links@.len()) by {
                    assert(lines@[j]@ == lines_view(lines@)[j]);
                    assert(links_view(links@).len() == links@.len());
                }
            }
            self.page = Page { url, links, lines };
        } else {
            let mut msg = "Error parsing base address: ".to_owned();
            msg.append(url.as_str());
            let lines = vec![LineRecord::Plain(msg)];
            proof {
                assert(lines_view(lines@) =~= seq![
                    LineView::Plain("Error parsing base address: "@ + url@),
                ]);
                assert forall|j: int| 0 <= j < lines@.len() implies (#[trigger] lines@[j]@ matches
                LineView::Linked(t, k) ==> false) by {
                    assert(lines@[j]@ == lines_view(lines@)[j]);
                }
            }
            self.page = Page { url, links: Vec::new(), lines };
        }
        self.selected = None;
        self.scroll = 0;
    }

    /// Replaces the page with a one-line, link-free error page reporting a
    /// failed fetch of `url`; resets the selection and the scroll offset.
    pub fn load_error(&mut self, url: String, message: &str)
        ensures
            final(self).wf(),
            final(self).page.url@ == url@,
            final(self).page.links@.len() == 0,
            lines_view(final(self).page.lines@) == seq![
                LineView::Plain("Error fetching URL: "@ + message@),
            ],
            final(self).selected is None,
            final(self).scroll == 0,
    {
        let mut msg = "Error fetching URL: ".to_owned();
        msg.append(message);
        let lines = vec![LineRecord::Plain(msg)];
        proof {
            assert(lines_view(lines@) =~= seq![LineView::Plain("Error fetching URL: "@ + message@)]);
            assert forall|j: int| 0 <= j < lines@.len() implies (#[trigger] lines@[j]@ matches
            LineView::Linked(t, k) ==> false) by {
                assert(lines@[j]@ == lines_view(lines@)[j]);
            }
        }
        self.page = Page { url, links: Vec::new(), lines };
        self.selected = None;
        self.scroll = 0;
    }

    /// Advances the selection to the next link, wrapping around; entering the
    /// table at the first link when nothing is selected.
    pub fn cycle_forward(&mut self)
        requires
            old(self).wf(),
        ensures
            final(self).wf(),
            final(self).page == old(self).page,
            final(self).scroll == old(self).scroll,
            sel_view(final(self).selected) == fwd_step(
                sel_view(old(self).selected),
                old(self).page.links@.len() as int,
            ),
    {
        let len = self.page.links.len();
        if len > 0 {
            let next: usize = match self.selected {
                None => 0,
                Some(i) => if i + 1 == len {
                    0
                } else {
                    i + 1
                },
            };
            proof {
                match old(self).selected {
                    Option::Some(i) => {
                        if i + 1 == len {
                            lemma_mod_self_0(len as int);
                        } else {
                            lemma_small_mod((i + 1) as nat, len as nat);
                        }
                    },
                    Option::None => {},
                }
            }
            self.selected = Some(next);
        }
    }

    /// Moves the selection to the previous link, wrapping around; entering
    /// the table at the last link when nothing is selected.
    pub fn cycle_backward(&mut self)
        requires
            old(self).wf(),
        ensures
            final(self).wf(),
            final(self).page == old(self).page,
            final(self).scroll == old(self).scroll,
            sel_view(final(self).selected) == bwd_step(
                sel_view(old(self).selected),
                old(self).page.links@.len() as int,
            ),
    {
        let len = self.page.links.len();
        if len > 0 {
            let next: usize = match self.selected {
                None => len - 1,
                Some(i) => if i == 0 {
                    len - 1
                } else {
                    i - 1
                },
            };
            self.selected = Some(next);
        }
    }

    /// The destination to follow when the selection is activated: the target
    /// of the selected link, or nothing when no link is selected.
    pub fn activation_target(&self) -> (r: Option<String>)
        requires
            self.wf(),
        ensures
            (match self.selected {
                Option::Some(i) => r matches Some(u) && u@ == self.page.links@[i as int]@.target,
                Option::None => r is None,
            }),
    {
        match self.selected {
            Some(i) => Some(self.page.links[i].target.clone()),
            None => None,
        }
    }

    /// Scrolls down by `delta` lines, saturating; the projector clamps the
    /// offset to the content bounds at render time.
    pub fn scroll_down(&mut self, delta: usize)
        requires
            old(self).wf(),
        ensures
            final(self).wf(),
            final(self).page == old(self).page,
            final(self).selected == old(self).selected,
            final(self).scroll == sat_add(old(self).scroll, delta),
    {
        self.scroll = if delta > usize::MAX - self.scroll {
            usize::MAX
        } else {
            self.scroll + delta
        };
    }

    /// Scrolls up by `delta` lines, stopping at the top.
    pub fn scroll_up(&mut self, delta: usize)
        requires
            old(self).wf(),
        ensures
            final(self).wf(),
            final(self).page == old(self).page,
            final(self).selected == old(self).selected,
            final(self).scroll == sat_sub(old(self).scroll, delta),
    {
        self.scroll = if delta > self.scroll {
            0
        } else {
            self.scroll - delta
        };
    }

    /// One step of the navigation state machine: applies the input event to
    /// the state and says what the surrounding loop must do next. A fetch is
    /// requested only when an activated link leads away from the cached page.
    pub fn on_key(&mut self, k: Key) -> (r: Action)
        requires
            old(self).wf(),
        ensures
            final(self).wf(),
            (match k {
                Key::Quit => r is Exit && *final(self) == *old(self),
                Key::CycleForward => {
                    &&& r is Continue
                    &&& final(self).page == old(self).page
                    &&& final(self).scroll == old(self).scroll
                    &&& sel_view(final(self).selected) == fwd_step(
                        sel_view(old(self).selected),
                        old(self).page.links@.len() as int,
                    )
                },
                Key::CycleBackward => {
                    &&& r is Continue
                    &&& final(self).page == old(self).page
                    &&& final(self).scroll == old(self).scroll
                    &&& sel_view(final(self).selected) == bwd_step(
                        sel_view(old(self).selected),
                        old(self).page.links@.len() as int,
                    )
                },
                Key::Activate => {
                    &&& *final(self) == *old(self)
                    &&& (match old(self).selected {
                        Option::Some(i) => {
                            let target = old(self).page.links@[i as int]@.target;
                            if target != old(self).page.url@ {
                                r matches Action::Fetch(u) && u@ == target
                            } else {
                                r is Continue
                            }
                        },
                        Option::None => r is Continue,
                    })
                },
                Key::ScrollDown(d) => {
                    &&& r is Continue
                    &&& final(self).page == old(self).page
                    &&& final(self).selected == old(self).selected
                    &&& final(self).scroll == sat_add(old(self).scroll, d)
                },
                Key::ScrollUp(d) => {
                    &&& r is Continue
                    &&& final(self).page == old(self).page
                    &&& final(self).selected == old(self).selected
                    &&& final(self).scroll == sat_sub(old(self).scroll, d)
                },
                Key::Other => r is Continue && *final(self) == *old(self),
            }),
    {
        match k {
            Key::Quit => Action::Exit,
            Key::CycleForward => {
                self.cycle_forward();
                Action::Continue
            },
            Key::CycleBackward => {
                self.cycle_backward();
                Action::Continue
            },
            Key::Activate => {
                match self.activation_target() {
                    Some(u) => {
                        if self.needs_fetch(u.as_str()) {
                            Action::Fetch(u)
                        } else {
                            Action::Continue
                        }
                    },
                    None => Action::Continue,
                }
            },
            Key::ScrollDown(d) => {
                self.scroll_down(d);
                Action::Continue
            },
            Key::ScrollUp(d) => {
                self.scroll_up(d);
                Action::Continue
            },
            Key::Other => Action::Continue,
        }
    }
}

/// Repeated forward cycling: `k` forward steps from `sel`.
pub open spec fn fwd_iter(sel: Option<int>, len: int, k: nat) -> Option<int>
    decreases k,
{
    if k == 0 {
        sel
    } else {
        fwd_step(fwd_iter(sel, len, (k - 1) as nat), len)
    }
}

/// Law: on a non-empty link table, backward cycling inverts forward cycling
/// and forward cycling inverts backward cycling, on every selected index.
/// (From the unselected state the two are not inverses: a forward step
/// followed by a backward step lands on the last link, not back on none.)
pub proof fn lemma_cycle_inverse(i: int, len: int)
    requires
        0 <= i < len,
    ensures
        bwd_step(fwd_step(Some(i), len), len) == Some(i),
        fwd_step(bwd_step(Some(i), len), len) == Some(i),
{
    if i + 1 == len {
        lemma_mod_self_0(len);
    } else {
        lemma_small_mod((i + 1) as nat, len as nat);
    }
    if i == 0 {
        lemma_mod_self_0(len);
    } else {
        lemma_small_mod(i as nat, len as nat);
    }
}

/// Law: on a non-empty link table both cycling steps map `{none} U [0, len)`
/// into `[0, len)`: after one step a link is always selected, and selection
/// never leaves the table.
pub proof fn lemma_cycle_in_range(sel: Option<int>, len: int)
    requires
        len > 0,
        sel matches Some(i) ==> 0 <= i < len,
    ensures
        fwd_step(sel, len) matches Some(j) && 0 <= j < len,
        bwd_step(sel, len) matches Some(j) && 0 <= j < len,
{
    match sel {
        Option::Some(i) => {
            if i + 1 == len {
                lemma_mod_self_0(len);
            } else {
                lemma_small_mod((i + 1) as nat, len as nat);
            }
        },
        Option::None => {},
    }
}

/// `k` forward steps from a selected index land on `(i + k) % len`.
pub proof fn lemma_cycle_iter(i: int, len: int, k: nat)
    requires
        0 <= i < len,
    ensures
        fwd_iter(Some(i), len, k) == Some((i + k) % len),
    decreases k,
{
    if k == 0 {
        lemma_small_mod(i as nat, len as nat);
    } else {
        lemma_cycle_iter(i, len, (k - 1) as nat);
        let prev = (i + k - 1) % len;
        lemma_add_mod_noop(i + k - 1, 1, len);
        if len == 1 {
            lemma_mod_self_0(1int);
            lemma_small_mod(0nat, 1nat);
            assert(prev == 0);
            assert((prev + 1int) % 1int == (i + k) % 1int);
        } else {
            lemma_small_mod(1nat, len as nat);
            assert((prev + 1) % len == (i + k) % len);
        }
    }
}

/// Law: forward cycling has period `len` on the selected indices of a
/// non-empty link table — `len` forward steps return to the start, and with
/// `lemma_cycle_inverse` the step is a bijection on `[0, len)`.
pub proof fn lemma_cycle_period(i: int, len: int)
    requires
        0 <= i < len,
    ensures
        fwd_iter(Some(i), len, len as nat) == Some(i),
{
    lemma_cycle_iter(i, len, len as nat);
    assert((i + len) % len == i) by {
        lemma_add_mod_noop(i, len, len);
        lemma_mod_self_0(len);
        lemma_small_mod(i as nat, len as nat);
    }
}

} // verus!
