//! A single container: a region that grows along one axis as widgets are
//! placed in it.

use vstd::prelude::*;
use crate::extent::{Extent, ExtentView};

verus! {

/// The direction in which a layout places one widget after another.
#[derive(Clone, Copy, Debug, PartialEq, Eq, Structural)]
pub enum Axis {
    Horizontal,
    Vertical,
}

/// The mathematical value of a [`Layout`].
pub struct LayoutView {
    pub axis: Axis,
    pub origin: ExtentView,
    pub accumulated: ExtentView,
}

impl LayoutView {
    /// A layout anchored at `origin` that holds nothing yet.
    pub open spec fn fresh(axis: Axis, origin: ExtentView) -> LayoutView {
        LayoutView { axis, origin, accumulated: ExtentView { x: 0, y: 0 } }
    }

    /// Where the next widget goes: the origin moved along the growth axis by
    /// what has been placed so far.
    pub open spec fn cursor(self) -> ExtentView {
        match self.axis {
            Axis::Horizontal => ExtentView { x: self.origin.x + self.accumulated.x, y: self.origin.y },
            Axis::Vertical => ExtentView { x: self.origin.x, y: self.origin.y + self.accumulated.y },
        }
    }

    /// The layout after a widget of the given size has been placed in it:
    /// sizes add up along the growth axis, and the largest one counts across.
    pub open spec fn absorb(self, size: ExtentView) -> LayoutView {
        let acc = self.accumulated;
        let accumulated = match self.axis {
            Axis::Horizontal => ExtentView {
                x: acc.x + size.x,
                y: if acc.y >= size.y { acc.y } else { size.y },
            },
            Axis::Vertical => ExtentView {
                x: if acc.x >= size.x { acc.x } else { size.x },
                y: acc.y + size.y,
            },
        };
        LayoutView { accumulated, ..self }
    }

    /// The layout after the widgets of the given sizes have been placed in
    /// it, first to last.
    pub open spec fn absorb_all(self, sizes: Seq<ExtentView>) -> LayoutView
        decreases sizes.len(),
    {
        if sizes.len() == 0 {
            self
        } else {
            self.absorb_all(sizes.drop_last()).absorb(sizes.last())
        }
    }

    /// The corner opposite the origin.
    pub open spec fn far_corner(self) -> ExtentView {
        self.origin.add(self.accumulated)
    }

    /// Nothing is negative and the far corner still has `i32` coordinates.
    pub open spec fn wf(self) -> bool {
        &&& self.origin.non_negative()
        &&& self.accumulated.non_negative()
        &&& self.far_corner().representable()
    }
}

/// A rectangular region that accumulates the sizes of the widgets placed in
/// it along one axis.
#[derive(Clone, Copy, Debug, PartialEq, Eq, Structural)]
pub struct Layout {
    pub axis: Axis,
    pub origin: Extent,
    pub accumulated: Extent,
}

impl View for Layout {
    type V = LayoutView;

    open spec fn view(&self) -> LayoutView {
        LayoutView { axis: self.axis, origin: self.origin@, accumulated: self.accumulated@ }
    }
}

impl Layout {
    /// An empty layout anchored at `origin`.
    pub fn new(axis: Axis, origin: Extent) -> (layout: Layout)
        ensures
            layout@ == LayoutView::fresh(axis, origin@),
            origin@.non_negative() ==> layout@.wf(),
    {
        Layout { axis, origin, accumulated: Extent::new(0, 0) }
    }

    /// The position of the next widget. It is computed from what has been
    /// placed so far, each time anew.
    pub fn cursor(&self) -> (pos: Extent)
        requires
            self@.wf(),
        ensures
            pos@ == self@.cursor(),
            pos@.non_negative(),
    {
        match self.axis {
            Axis::Horizontal => self.origin.add(self.accumulated.scale(Extent::new(1, 0))),
            Axis::Vertical => self.origin.add(self.accumulated.scale(Extent::new(0, 1))),
        }
    }

    /// Places one widget, or one finished nested layout, of the given size.
    pub fn absorb(&mut self, size: Extent)
        requires
            old(self)@.wf(),
            old(self)@.absorb(size@).wf(),
        ensures
            final(self)@ == old(self)@.absorb(size@),
    {
        match self.axis {
            Axis::Horizontal => {
                self.accumulated.x = self.accumulated.x + size.x;
                if size.y > self.accumulated.y {
                    self.accumulated.y = size.y;
                }
            },
            Axis::Vertical => {
                if size.x > self.accumulated.x {
                    self.accumulated.x = size.x;
                }
                self.accumulated.y = self.accumulated.y + size.y;
            },
        }
    }
}

/// The sum of the widths of the given sizes.
pub open spec fn total_width(sizes: Seq<ExtentView>) -> int
    decreases sizes.len(),
{
    if sizes.len() == 0 {
        0
    } else {
        total_width(sizes.drop_last()) + sizes.last().x
    }
}

/// The sum of the heights of the given sizes.
pub open spec fn total_height(sizes: Seq<ExtentView>) -> int
    decreases sizes.len(),
{
    if sizes.len() == 0 {
        0
    } else {
        total_height(sizes.drop_last()) + sizes.last().y
    }
}

/// The largest width among the given sizes, and zero where there is none.
pub open spec fn max_width(sizes: Seq<ExtentView>) -> int
    decreases sizes.len(),
{
    if sizes.len() == 0 {
        0
    } else {
        let rest = max_width(sizes.drop_last());
        if rest >= sizes.last().x { rest } else { sizes.last().x }
    }
}

/// The largest height among the given sizes, and zero where there is none.
pub open spec fn max_height(sizes: Seq<ExtentView>) -> int
    decreases sizes.len(),
{
    if sizes.len() == 0 {
        0
    } else {
        let rest = max_height(sizes.drop_last());
        if rest >= sizes.last().y { rest } else { sizes.last().y }
    }
}

/// Every size in the sequence has non-negative components.
pub open spec fn all_non_negative(sizes: Seq<ExtentView>) -> bool {
    forall|i: int| 0 <= i < sizes.len() ==> (#[trigger] sizes[i]).non_negative()
}

/// `max_width` is an upper bound of the widths, and `max_height` of the
/// heights; where there is a size and none is negative, each is the width or
/// height of one of them.
pub proof fn lemma_max_is_maximum(sizes: Seq<ExtentView>)
    ensures
        forall|i: int| 0 <= i < sizes.len() ==> (#[trigger] sizes[i]).x <= max_width(sizes),
        forall|i: int| 0 <= i < sizes.len() ==> (#[trigger] sizes[i]).y <= max_height(sizes),
        0 <= max_width(sizes),
        0 <= max_height(sizes),
        sizes.len() > 0 && all_non_negative(sizes) ==> exists|i: int|
            0 <= i < sizes.len() && (#[trigger] sizes[i]).x == max_width(sizes),
        sizes.len() > 0 && all_non_negative(sizes) ==> exists|i: int|
            0 <= i < sizes.len() && (#[trigger] sizes[i]).y == max_height(sizes),
    decreases sizes.len(),
{
    if sizes.len() > 0 {
        let rest = sizes.drop_last();
        let last = sizes.len() - 1;
        lemma_max_is_maximum(rest);
        assert forall|i: int| 0 <= i < sizes.len() implies (#[trigger] sizes[i]).x <= max_width(
            sizes,
        ) && sizes[i].y <= max_height(sizes) by {
            if i < last {
                assert(rest[i] == sizes[i]);
            }
        }
        if all_non_negative(sizes) {
            assert(sizes[last].non_negative());
            assert forall|i: int| 0 <= i < rest.len() implies (#[trigger] rest[i]).non_negative() by {
                assert(rest[i] == sizes[i]);
            }
            if max_width(sizes) == sizes[last].x {
                assert(sizes[last].x == max_width(sizes));
            } else {
                let i = choose|i: int| 0 <= i < rest.len() && (#[trigger] rest[i]).x == max_width(rest);
                assert(sizes[i].x == max_width(sizes));
            }
            if max_height(sizes) == sizes[last].y {
                assert(sizes[last].y == max_height(sizes));
            } else {
                let i = choose|i: int| 0 <= i < rest.len() && (#[trigger] rest[i]).y == max_height(rest);
                assert(sizes[i].y == max_height(sizes));
            }
        }
    }
}

/// Whatever is absorbed, axis and origin stay as they were.
pub proof fn lemma_absorb_all_keeps_anchor(layout: LayoutView, sizes: Seq<ExtentView>)
    ensures
        layout.absorb_all(sizes).axis == layout.axis,
        layout.absorb_all(sizes).origin == layout.origin,
    decreases sizes.len(),
{
    if sizes.len() > 0 {
        lemma_absorb_all_keeps_anchor(layout, sizes.drop_last());
    }
}

/// After any sequence of widgets has been placed in a fresh layout, what it
/// has accumulated along its axis is the sum of their sizes in that
/// direction, and across its axis the largest of their sizes in the other.
pub proof fn lemma_absorb_all_accumulates(axis: Axis, origin: ExtentView, sizes: Seq<ExtentView>)
    ensures
        axis == Axis::Horizontal ==> LayoutView::fresh(axis, origin).absorb_all(sizes).accumulated
            == (ExtentView { x: total_width(sizes), y: max_height(sizes) }),
        axis == Axis::Vertical ==> LayoutView::fresh(axis, origin).absorb_all(sizes).accumulated
            == (ExtentView { x: max_width(sizes), y: total_height(sizes) }),
    decreases sizes.len(),
{
    if sizes.len() > 0 {
        lemma_absorb_all_accumulates(axis, origin, sizes.drop_last());
        lemma_absorb_all_keeps_anchor(LayoutView::fresh(axis, origin), sizes.drop_last());
    }
}

/// After any sequence of widgets has been placed in a fresh layout, its
/// cursor is its origin moved along its axis by the sum of their sizes in
/// that direction.
pub proof fn lemma_cursor_after_absorbs(axis: Axis, origin: ExtentView, sizes: Seq<ExtentView>)
    ensures
        axis == Axis::Horizontal ==> LayoutView::fresh(axis, origin).absorb_all(sizes).cursor()
            == origin.add(ExtentView { x: total_width(sizes), y: 0 }),
        axis == Axis::Vertical ==> LayoutView::fresh(axis, origin).absorb_all(sizes).cursor()
            == origin.add(ExtentView { x: 0, y: total_height(sizes) }),
{
    lemma_absorb_all_accumulates(axis, origin, sizes);
    lemma_absorb_all_keeps_anchor(LayoutView::fresh(axis, origin), sizes);
}

/// Placing widgets whose sizes are not negative never shrinks a layout: if
/// it is well formed after all of them, with an origin that is not
/// negative, it was well formed after each.
pub proof fn lemma_well_formed_throughout(
    axis: Axis,
    origin: ExtentView,
    sizes: Seq<ExtentView>,
    k: int,
)
    requires
        origin.non_negative(),
        all_non_negative(sizes),
        0 <= k <= sizes.len(),
        LayoutView::fresh(axis, origin).absorb_all(sizes).wf(),
    ensures
        LayoutView::fresh(axis, origin).absorb_all(sizes.take(k)).wf(),
    decreases sizes.len() - k,
{
    if k == sizes.len() {
        assert(sizes.take(k) =~= sizes);
    } else {
        let front = sizes.take(k + 1);
        lemma_well_formed_throughout(axis, origin, sizes, k + 1);
        assert(front.drop_last() =~= sizes.take(k));
        assert(front.last() == sizes[k]);
        assert(sizes[k].non_negative());
        let fresh = LayoutView::fresh(axis, origin);
        lemma_absorb_all_accumulates(axis, origin, sizes.take(k));
        lemma_absorb_all_keeps_anchor(fresh, sizes.take(k));
        lemma_max_is_maximum(sizes.take(k));
        lemma_totals_not_negative(sizes.take(k));
    }
}

/// The sums of sizes that are not negative are not negative.
pub proof fn lemma_totals_not_negative(sizes: Seq<ExtentView>)
    requires
        all_non_negative(sizes),
    ensures
        0 <= total_width(sizes),
        0 <= total_height(sizes),
    decreases sizes.len(),
{
    if sizes.len() > 0 {
        let rest = sizes.drop_last();
        assert forall|i: int| 0 <= i < rest.len() implies (#[trigger] rest[i]).non_negative() by {
            assert(rest[i] == sizes[i]);
        }
        lemma_totals_not_negative(rest);
        assert(sizes[sizes.len() - 1].non_negative());
    }
}

} // verus!
