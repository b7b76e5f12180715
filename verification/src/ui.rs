//! The stack of open layouts from which one frame is built.
//!
//! A frame starts with [`LayoutStack::begin`], which opens the root layout,
//! and ends with [`LayoutStack::end`], which closes it. In between, nested
//! layouts are opened and closed in pairs and labels are placed in whichever
//! layout is innermost. Nothing is kept from one frame to the next.

use vstd::prelude::*;
use vstd::string::*;
use vstd::utf8::encode_utf8;
use crate::curses::color_pair;
use crate::extent::{Extent, ExtentView};
use crate::layout::{Axis, Layout, LayoutView};

verus! {

/// How a label is drawn.
#[derive(Clone, Copy, Debug, PartialEq, Eq, Structural)]
pub enum Style {
    Regular,
    Highlighted,
}

/// The colour pair of regular text.
pub const REGULAR_PAIR: i16 = 0;

/// The colour pair of highlighted text.
pub const HIGHLIGHT_PAIR: i16 = 1;

impl Style {
    /// The colour pair that a style is drawn in.
    pub open spec fn pair_of(self) -> i16 {
        match self {
            Style::Regular => REGULAR_PAIR,
            Style::Highlighted => HIGHLIGHT_PAIR,
        }
    }

    /// The colour pair that a style is drawn in.
    pub fn pair(self) -> (pair: i16)
        ensures
            pair == self.pair_of(),
    {
        match self {
            Style::Regular => REGULAR_PAIR,
            Style::Highlighted => HIGHLIGHT_PAIR,
        }
    }

    /// The attribute to switch on while text of this style is drawn: the
    /// bits of its colour pair.
    pub fn attribute(self) -> (attr: u32)
        ensures
            attr == self.pair_of() * 256,
    {
        color_pair(self.pair())
    }
}

/// A request to draw one line of text.
#[derive(Debug, PartialEq, Eq)]
pub struct DrawText {
    pub pos: Extent,
    pub text: String,
    pub style: Style,
}

/// The mathematical value of a [`DrawText`].
pub struct DrawTextView {
    pub pos: ExtentView,
    pub text: Seq<char>,
    pub style: Style,
}

impl View for DrawText {
    type V = DrawTextView;

    open spec fn view(&self) -> DrawTextView {
        DrawTextView { pos: self.pos@, text: self.text@, style: self.style }
    }
}

/// The size of a label: one row, and one column for each byte of its text.
pub open spec fn label_size(text: Seq<char>) -> ExtentView {
    ExtentView { x: encode_utf8(text).len() as int, y: 1 }
}

/// Every open layout is well formed, and each nested one is anchored where
/// the cursor of the layout around it stands.
pub open spec fn nested(stack: Seq<LayoutView>) -> bool {
    &&& forall|i: int| 0 <= i < stack.len() ==> (#[trigger] stack[i]).wf()
    &&& forall|i: int| 1 <= i < stack.len() ==> (#[trigger] stack[i]).origin == stack[i - 1].cursor()
}

/// The open layouts of the frame under construction, innermost last.
pub struct LayoutStack {
    layouts: Vec<Layout>,
}

impl View for LayoutStack {
    type V = Seq<LayoutView>;

    closed spec fn view(&self) -> Seq<LayoutView> {
        self.layouts@.map_values(|layout: Layout| layout@)
    }
}

impl LayoutStack {
    /// The invariant of the stack between any two calls.
    pub open spec fn wf(&self) -> bool {
        nested(self@)
    }

    /// A stack with no frame under construction.
    pub fn new() -> (stack: LayoutStack)
        ensures
            stack@ == Seq::<LayoutView>::empty(),
            stack.wf(),
    {
        LayoutStack { layouts: Vec::new() }
    }

    /// The number of open layouts.
    pub fn depth(&self) -> (n: usize)
        ensures
            n == self@.len(),
    {
        self.layouts.len()
    }

    /// The innermost open layout, if a frame is under construction.
    pub fn top(&self) -> (top: Option<Layout>)
        ensures
            top is Some <==> self@.len() > 0,
            top matches Some(layout) ==> layout@ == self@.last(),
    {
        let n = self.layouts.len();
        if n == 0 {
            None
        } else {
            Some(self.layouts[n - 1])
        }
    }

    /// Starts a frame: opens the root layout at `origin`.
    pub fn begin(&mut self, axis: Axis, origin: Extent)
        requires
            old(self)@.len() == 0,
            origin@.non_negative(),
        ensures
            final(self)@ == seq![LayoutView::fresh(axis, origin@)],
            final(self).wf(),
    {
        self.layouts.push(Layout::new(axis, origin));
        assert(self@ =~= seq![LayoutView::fresh(axis, origin@)]);
    }

    /// Opens a nested layout where the cursor of the innermost layout stands.
    pub fn begin_layout(&mut self, axis: Axis)
        requires
            old(self).wf(),
            old(self)@.len() > 0,
        ensures
            final(self)@ == old(self)@.push(LayoutView::fresh(axis, old(self)@.last().cursor())),
            final(self).wf(),
    {
        let n = self.layouts.len();
        assert(self@[n - 1].wf());
        let pos = self.layouts[n - 1].cursor();
        self.layouts.push(Layout::new(axis, pos));
        assert(self@ =~= old(self)@.push(LayoutView::fresh(axis, old(self)@.last().cursor())));
    }

    /// Whether a label with this text can still be placed in the innermost
    /// layout without leaving the range of `i32` coordinates.
    pub fn label_fits(&self, text: &str) -> (fits: bool)
        requires
            self.wf(),
            self@.len() > 0,
        ensures
            fits == self@.last().absorb(label_size(text@)).wf(),
    {
        let n = self.layouts.len();
        assert(self@[n - 1].wf());
        let top = self.layouts[n - 1];
        let width = text.as_bytes().len();
        if width > i32::MAX as usize {
            return false;
        }
        let width = width as i32;
        match top.axis {
            Axis::Horizontal => {
                let height = if top.accumulated.y >= 1 { top.accumulated.y } else { 1 };
                width <= i32::MAX - top.origin.x - top.accumulated.x
                    && height <= i32::MAX - top.origin.y
            },
            Axis::Vertical => {
                let breadth = if top.accumulated.x >= width { top.accumulated.x } else { width };
                breadth <= i32::MAX - top.origin.x
                    && top.accumulated.y < i32::MAX - top.origin.y
            },
        }
    }

    /// Places a label in the innermost layout and says where to draw it.
    pub fn label(&mut self, text: &str, style: Style) -> (draw: DrawText)
        requires
            old(self).wf(),
            old(self)@.len() > 0,
            old(self)@.last().absorb(label_size(text@)).wf(),
        ensures
            draw.pos@ == old(self)@.last().cursor(),
            draw.text@ == text@,
            draw.style == style,
            final(self)@ == old(self)@.update(
                old(self)@.len() - 1,
                old(self)@.last().absorb(label_size(text@)),
            ),
            final(self).wf(),
    {
        let n = self.layouts.len();
        assert(self@[n - 1].wf());
        let mut top = self.layouts[n - 1];
        let pos = top.cursor();
        let width = text.as_bytes().len();
        top.absorb(Extent::new(width as i32, 1));
        self.layouts.set(n - 1, top);
        assert(self@ =~= old(self)@.update(n - 1, old(self)@.last().absorb(label_size(text@))));
        assert forall|i: int| 1 <= i < self@.len() implies (#[trigger] self@[i]).origin == self@[i
            - 1].cursor() by {
            assert(old(self)@[i].origin == old(self)@[i - 1].cursor());
        }
        DrawText { pos, text: text.to_owned(), style }
    }

    /// Closes the innermost nested layout; the layout around it takes it in
    /// as one widget of the size it had accumulated.
    pub fn end_layout(&mut self)
        requires
            old(self).wf(),
            old(self)@.len() >= 2,
        ensures
            final(self)@ == old(self)@.take(old(self)@.len() - 2).push(
                old(self)@[old(self)@.len() - 2].absorb(old(self)@.last().accumulated),
            ),
            final(self).wf(),
    {
        let n = self.layouts.len();
        assert(self@[n - 1].wf());
        assert(self@[n - 2].wf());
        assert(self@[n - 1].origin == self@[n - 2].cursor());
        let child = self.layouts[n - 1];
        let mut parent = self.layouts[n - 2];
        self.layouts.pop();
        parent.absorb(child.accumulated);
        self.layouts.set(n - 2, parent);
        assert(self@ =~= old(self)@.take(n - 2).push(
            old(self)@[n - 2].absorb(old(self)@.last().accumulated),
        ));
        assert forall|i: int| 1 <= i < self@.len() implies (#[trigger] self@[i]).origin == self@[i
            - 1].cursor() by {
            assert(old(self)@[i].origin == old(self)@[i - 1].cursor());
        }
    }

    /// Ends the frame: closes the root layout.
    pub fn end(&mut self)
        requires
            old(self)@.len() == 1,
        ensures
            final(self)@ == Seq::<LayoutView>::empty(),
            final(self).wf(),
    {
        self.layouts.pop();
        assert(self@ =~= Seq::<LayoutView>::empty());
    }
}

} // verus!
