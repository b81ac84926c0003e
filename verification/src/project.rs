//! The render projector: a pure mapping from the line records, the selection
//! and the viewport to a bounded window of styled lines, clamping the scroll
//! offset to the content bounds.

use vstd::prelude::*;
use crate::flatten::{LineRecord, LineView};
use crate::nav::Browser;

verus! {

/// How one projected line is painted.
#[derive(Clone, Copy, Debug, PartialEq, Eq)]
pub enum LineStyle {
    Plain,
    Link,
    Selected,
}

/// One line ready for display: its text and how to paint it.
#[derive(Debug, PartialEq, Eq)]
pub struct StyledLine {
    pub text: String,
    pub style: LineStyle,
}

/// The mathematical value of a `StyledLine`.
pub struct StyledView {
    pub text: Seq<char>,
    pub style: LineStyle,
}

impl View for StyledLine {
    type V = StyledView;

    open spec fn view(&self) -> StyledView {
        StyledView { text: self.text@, style: self.style }
    }
}

/// The scroll offset clamped to `[0, max(0, total - viewport_height)]`.
pub open spec fn clamp_offset(scroll: int, total: int, viewport_height: int) -> int {
    let max_scroll = if total > viewport_height {
        total - viewport_height
    } else {
        0
    };
    if scroll > max_scroll {
        max_scroll
    } else {
        scroll
    }
}

/// Law: for every document length and viewport, the clamped offset lies in
/// `[0, max(0, total - viewport_height)]`, whatever offset came in; together
/// with the window length of `project` this bounds every projected frame.
pub proof fn lemma_clamp_in_bounds(scroll: int, total: int, viewport_height: int)
    requires
        scroll >= 0,
        total >= 0,
    ensures
        0 <= clamp_offset(scroll, total, viewport_height),
        clamp_offset(scroll, total, viewport_height) <= (if total > viewport_height {
            total - viewport_height
        } else {
            0
        }),
{
}

/// The number of lines the window shows: the viewport height, or everything
/// when the document is shorter.
pub open spec fn window_len(total: int, viewport_height: int) -> int {
    if viewport_height < total {
        viewport_height
    } else {
        total
    }
}

/// How one line record is styled: a linked record is `Selected` when its
/// reference equals the selection and `Link` otherwise; plain text is
/// `Plain`.
pub open spec fn styled_view(rec: LineView, selected: Option<usize>) -> StyledView {
    match rec {
        LineView::Plain(t) => StyledView { text: t, style: LineStyle::Plain },
        LineView::Linked(t, i) => StyledView {
            text: t,
            style: (match selected {
                Option::Some(s) => if s as int == i {
                    LineStyle::Selected
                } else {
                    LineStyle::Link
                },
                Option::None => LineStyle::Link,
            }),
        },
    }
}

fn style_record(rec: &LineRecord, selected: Option<usize>) -> (r: StyledLine)
    ensures
        r@ == styled_view(rec@, selected),
{
    match rec {
        LineRecord::Plain(t) => StyledLine { text: t.clone(), style: LineStyle::Plain },
        LineRecord::Linked(t, i) => {
            let is_sel = match selected {
                Some(s) => s == *i,
                None => false,
            };
            StyledLine {
                text: t.clone(),
                style: if is_sel {
                    LineStyle::Selected
                } else {
                    LineStyle::Link
                },
            }
        },
    }
}

/// Projects the visible window: clamps the scroll offset to the content
/// bounds and returns exactly `min(viewport_height, total)` styled lines
/// starting at the clamped offset, together with that offset.
#[verifier::loop_isolation(false)]
pub fn project(
    lines: &Vec<LineRecord>,
    selected: Option<usize>,
    viewport_height: usize,
    scroll_offset: usize,
) -> (r: (Vec<StyledLine>, usize))
    ensures
        r.1 as int == clamp_offset(scroll_offset as int, lines@.len() as int, viewport_height as int),
        r.0@.len() == window_len(lines@.len() as int, viewport_height as int),
        forall|j: int|
            0 <= j < r.0@.len() ==> (#[trigger] r.0@[j])@ == styled_view(
                lines@[r.1 + j]@,
                selected,
            ),
{
    let total = lines.len();
    let max_scroll = if total > viewport_height {
        total - viewport_height
    } else {
        0
    };
    let eff = if scroll_offset > max_scroll {
        max_scroll
    } else {
        scroll_offset
    };
    let count = if viewport_height < total {
        viewport_height
    } else {
        total
    };
    let mut window: Vec<StyledLine> = Vec::new();
    let mut j: usize = 0;
    while j < count
        invariant
            j <= count,
            window@.len() == j,
            forall|q: int|
                0 <= q < j ==> (#[trigger] window@[q])@ == styled_view(lines@[eff + q]@, selected),
        decreases count - j,
    {
        let rec = style_record(&lines[eff + j], selected);
        window.push(rec);
        j = j + 1;
    }
    (window, eff)
}

impl Browser {
    /// Projects the visible window for this frame and stores the clamped
    /// scroll offset back into the state, so that an out-of-range offset
    /// never outlives the frame that clamped it.
    pub fn render_window(&mut self, viewport_height: usize) -> (r: Vec<StyledLine>)
        requires
            old(self).wf(),
        ensures
            final(self).wf(),
            final(self).page == old(self).page,
            final(self).selected == old(self).selected,
            final(self).scroll as int == clamp_offset(
                old(self).scroll as int,
                old(self).page.lines@.len() as int,
                viewport_height as int,
            ),
            r@.len() == window_len(old(self).page.lines@.len() as int, viewport_height as int),
            forall|j: int|
                0 <= j < r@.len() ==> (#[trigger] r@[j])@ == styled_view(
                    old(self).page.lines@[final(self).scroll + j]@,
                    old(self).selected,
                ),
    {
        let (window, eff) = project(&self.page.lines, self.selected, viewport_height, self.scroll);
        self.scroll = eff;
        window
    }
}

} // verus!
