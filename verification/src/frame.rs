//! One frame of the session: two columns side by side, one for each list,
//! each a header and under it one line for each item.

use vstd::prelude::*;
use vstd::string::*;
use crate::extent::{Extent, ExtentView};
use crate::layout::{
    all_non_negative, lemma_absorb_all_accumulates, lemma_absorb_all_keeps_anchor,
    lemma_cursor_after_absorbs, lemma_max_is_maximum, lemma_well_formed_throughout, max_width,
    total_height, Axis, LayoutView,
};
use crate::session::{Session, SessionView};
use crate::status::Status;
use crate::text::chars_of_each;
use crate::ui::{label_size, DrawText, DrawTextView, LayoutStack, Style};

verus! {

/// The header of a column.
pub open spec fn header(status: Status) -> Seq<char> {
    match status {
        Status::Todo => "TODO:"@,
        Status::Done => "DONE:"@,
    }
}

/// What stands before the title of an item.
pub open spec fn bullet(status: Status) -> Seq<char> {
    match status {
        Status::Todo => "- [ ] "@,
        Status::Done => "- [*] "@,
    }
}

/// The lines of a column: the header, then one line for each title.
pub open spec fn column_texts(status: Status, titles: Seq<Seq<char>>) -> Seq<Seq<char>> {
    seq![header(status)] + Seq::new(titles.len(), |i: int| bullet(status) + titles[i])
}

/// The size of the label of each of the given lines.
pub open spec fn sizes_of(texts: Seq<Seq<char>>) -> Seq<ExtentView> {
    Seq::new(texts.len(), |i: int| label_size(texts[i]))
}

/// The width of a column: that of its widest line.
pub open spec fn column_width(status: Status, titles: Seq<Seq<char>>) -> int {
    max_width(sizes_of(column_texts(status, titles)))
}

/// An item is highlighted if it is the selected one of the active list.
pub open spec fn style_of(index: int, curr: int, active: bool) -> Style {
    if index == curr && active {
        Style::Highlighted
    } else {
        Style::Regular
    }
}

/// The labels of a column whose top left corner is at `origin`: each line
/// one row below the one before it.
pub open spec fn column(
    origin: ExtentView,
    status: Status,
    titles: Seq<Seq<char>>,
    curr: int,
    active: bool,
) -> Seq<DrawTextView> {
    let texts = column_texts(status, titles);
    Seq::new(
        texts.len(),
        |i: int|
            DrawTextView {
                pos: ExtentView { x: origin.x, y: origin.y + i },
                text: texts[i],
                style: if i == 0 {
                    Style::Regular
                } else {
                    style_of(i - 1, curr, active)
                },
            },
    )
}

/// The frame of a session: the column of what is to be done at the left
/// edge, and right of it, as far as that column is wide, the column of
/// what is done.
pub open spec fn frame_of(session: SessionView) -> Seq<DrawTextView> {
    column(
        ExtentView { x: 0, y: 0 },
        Status::Todo,
        session.todos,
        session.todo_curr,
        session.tab == Status::Todo,
    ) + column(
        ExtentView { x: column_width(Status::Todo, session.todos), y: 0 },
        Status::Done,
        session.dones,
        session.done_curr,
        session.tab == Status::Done,
    )
}

/// The frame has `i32` coordinates throughout: neither column is too long
/// and the two together are not too wide.
pub open spec fn frame_fits(session: SessionView) -> bool {
    &&& session.todos.len() + 1 <= i32::MAX
    &&& session.dones.len() + 1 <= i32::MAX
    &&& column_width(Status::Todo, session.todos) + column_width(Status::Done, session.dones)
        <= i32::MAX
}

/// The values of the given draw requests.
pub open spec fn views_of(draws: Seq<DrawText>) -> Seq<DrawTextView> {
    Seq::new(draws.len(), |i: int| draws[i]@)
}

/// Labels are one row high, so any number of them is as many rows high.
proof fn lemma_label_sizes(texts: Seq<Seq<char>>)
    ensures
        all_non_negative(sizes_of(texts)),
        total_height(sizes_of(texts)) == texts.len(),
    decreases texts.len(),
{
    if texts.len() > 0 {
        lemma_label_sizes(texts.drop_last());
        assert(sizes_of(texts).drop_last() =~= sizes_of(texts.drop_last()));
    }
}

/// The layout of a column after its first `k` lines.
spec fn column_after(origin: ExtentView, texts: Seq<Seq<char>>, k: int) -> LayoutView {
    LayoutView::fresh(Axis::Vertical, origin).absorb_all(sizes_of(texts).take(k))
}

/// Line `k` of a column is drawn `k` rows below the origin, and with it the
/// column has grown by the size of its label.
proof fn lemma_column_step(origin: ExtentView, texts: Seq<Seq<char>>, k: int)
    requires
        0 <= k < texts.len(),
    ensures
        column_after(origin, texts, k).cursor() == (ExtentView { x: origin.x, y: origin.y + k }),
        column_after(origin, texts, k + 1) == column_after(origin, texts, k).absorb(
            label_size(texts[k]),
        ),
{
    let sizes = sizes_of(texts);
    assert(sizes.take(k) =~= sizes_of(texts.take(k)));
    lemma_label_sizes(texts.take(k));
    lemma_cursor_after_absorbs(Axis::Vertical, origin, sizes.take(k));
    assert(sizes.take(k + 1).drop_last() =~= sizes.take(k));
    assert(sizes.take(k + 1).last() == label_size(texts[k]));
}

/// A whole column is as wide as its widest line and as high as it has
/// lines; it is well formed if that leaves it within `i32` coordinates.
proof fn lemma_whole_column(origin: ExtentView, texts: Seq<Seq<char>>)
    requires
        origin.non_negative(),
        origin.representable(),
    ensures
        column_after(origin, texts, texts.len() as int).accumulated == (ExtentView {
            x: max_width(sizes_of(texts)),
            y: texts.len() as int,
        }),
        0 <= max_width(sizes_of(texts)),
        column_after(origin, texts, texts.len() as int).wf() <==> origin.x + max_width(
            sizes_of(texts),
        ) <= i32::MAX && origin.y + texts.len() <= i32::MAX,
{
    let sizes = sizes_of(texts);
    assert(sizes.take(texts.len() as int) =~= sizes);
    lemma_label_sizes(texts);
    lemma_absorb_all_accumulates(Axis::Vertical, origin, sizes);
    lemma_absorb_all_keeps_anchor(LayoutView::fresh(Axis::Vertical, origin), sizes);
    lemma_max_is_maximum(sizes);
}

/// Draws one column where the cursor of the innermost layout stands, and
/// lets that layout take it in. Gives up, and says so, as soon as a line
/// would leave the range of `i32` coordinates.
fn draw_column(
    ui: &mut LayoutStack,
    frame: &mut Vec<DrawText>,
    status: Status,
    items: &Vec<String>,
    curr: usize,
    active: bool,
) -> (drawn: bool)
    requires
        old(ui).wf(),
        old(ui)@.len() > 0,
    ensures
        ({
            let origin = old(ui)@.last().cursor();
            let titles = chars_of_each(items@);
            let texts = column_texts(status, titles);
            let whole = column_after(origin, texts, texts.len() as int);
            &&& drawn == whole.wf()
            &&& drawn ==> {
                &&& final(ui).wf()
                &&& final(ui)@ == old(ui)@.drop_last().push(
                    old(ui)@.last().absorb(whole.accumulated),
                )
                &&& views_of(final(frame)@) == views_of(old(frame)@) + column(
                    origin,
                    status,
                    titles,
                    curr as int,
                    active,
                )
            }
        }),
{
    let ghost origin = ui@.last().cursor();
    let ghost titles = chars_of_each(items@);
    let ghost texts = column_texts(status, titles);
    let ghost sizes = sizes_of(texts);
    let ghost whole = column_after(origin, texts, texts.len() as int);
    let ghost col = column(origin, status, titles, curr as int, active);
    let ghost below = ui@;
    let ghost drawn_before = views_of(frame@);
    proof {
        assert(ui@[ui@.len() - 1].wf());
        lemma_label_sizes(texts);
        assert(sizes.take(texts.len() as int) =~= sizes);
        reveal_strlit("TODO:");
        reveal_strlit("DONE:");
        reveal_strlit("- [ ] ");
        reveal_strlit("- [*] ");
    }
    ui.begin_layout(Axis::Vertical);
    let head = match status {
        Status::Todo => "TODO:",
        Status::Done => "DONE:",
    };
    let lead = match status {
        Status::Todo => "- [ ] ",
        Status::Done => "- [*] ",
    };
    proof {
        assert(sizes.take(0) =~= Seq::<ExtentView>::empty());
        lemma_column_step(origin, texts, 0);
        assert(texts[0] == head@);
    }
    if !ui.label_fits(head) {
        proof {
            if whole.wf() {
                lemma_well_formed_throughout(Axis::Vertical, origin, sizes, 1);
            }
        }
        return false;
    }
    let draw = ui.label(head, Style::Regular);
    frame.push(draw);
    assert(views_of(frame@) =~= drawn_before + col.take(1));
    assert(ui@ =~= below.push(column_after(origin, texts, 1)));
    let mut i: usize = 0;
    while i < items.len()
        invariant
            i <= items.len(),
            below == old(ui)@,
            below.len() > 0,
            origin == below.last().cursor(),
            origin.non_negative(),
            titles == chars_of_each(items@),
            texts == column_texts(status, titles),
            sizes == sizes_of(texts),
            all_non_negative(sizes),
            whole == column_after(origin, texts, texts.len() as int),
            whole == LayoutView::fresh(Axis::Vertical, origin).absorb_all(sizes),
            col == column(origin, status, titles, curr as int, active),
            lead@ == bullet(status),
            ui.wf(),
            ui@ == below.push(column_after(origin, texts, i + 1)),
            views_of(frame@) == drawn_before + col.take(i + 1),
        decreases items.len() - i,
    {
        let mut text = String::from_str(lead);
        text.append(items[i].as_str());
        let style = if i == curr && active {
            Style::Highlighted
        } else {
            Style::Regular
        };
        proof {
            assert(texts[i + 1] == text@);
            lemma_column_step(origin, texts, i + 1);
        }
        if !ui.label_fits(text.as_str()) {
            proof {
                if whole.wf() {
                    lemma_well_formed_throughout(Axis::Vertical, origin, sizes, i + 2);
                }
            }
            return false;
        }
        let ghost drawn = views_of(frame@);
        let draw = ui.label(text.as_str(), style);
        frame.push(draw);
        assert(views_of(frame@) =~= drawn.push(col[i + 1]));
        assert(views_of(frame@) =~= drawn_before + col.take(i + 2));
        assert(ui@ =~= below.push(column_after(origin, texts, i + 2)));
        i = i + 1;
    }
    assert(col.take(i + 1) =~= col);
    ui.end_layout();
    assert(ui@ =~= below.drop_last().push(below.last().absorb(whole.accumulated)));
    true
}

/// Builds the frame of a session: the labels to draw, column by column and
/// top to bottom. There is none where the frame does not fit.
pub fn frame(session: &Session) -> (draws: Option<Vec<DrawText>>)
    ensures
        draws is Some <==> frame_fits(session@),
        draws matches Some(frame) ==> views_of(frame@) == frame_of(session@),
{
    let ghost zero = ExtentView { x: 0, y: 0 };
    let ghost todo_texts = column_texts(Status::Todo, session@.todos);
    let ghost done_texts = column_texts(Status::Done, session@.dones);
    let ghost right = ExtentView { x: column_width(Status::Todo, session@.todos), y: 0 };
    let mut ui = LayoutStack::new();
    let mut frame: Vec<DrawText> = Vec::new();
    ui.begin(Axis::Horizontal, Extent::new(0, 0));
    proof {
        lemma_whole_column(zero, todo_texts);
        assert(ui@[0].cursor() == zero);
    }
    let todo_active = session.tab == Status::Todo;
    if !draw_column(&mut ui, &mut frame, Status::Todo, &session.todos, session.todo_curr, todo_active) {
        return None;
    }
    proof {
        assert(ui@[0].cursor() == right);
        lemma_whole_column(right, done_texts);
    }
    let done_active = session.tab == Status::Done;
    if !draw_column(&mut ui, &mut frame, Status::Done, &session.dones, session.done_curr, done_active) {
        return None;
    }
    ui.end();
    assert(views_of(frame@) =~= frame_of(session@));
    Some(frame)
}

} // verus!
