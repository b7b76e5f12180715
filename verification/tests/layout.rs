use todo_tui::extent::Extent;
use todo_tui::layout::{Axis, Layout};
use todo_tui::ui::{LayoutStack, Style};

#[test]
fn extent_new_keeps_components() {
    let e = Extent::new(3, 7);
    assert_eq!(e.x, 3);
    assert_eq!(e.y, 7);
}

#[test]
fn extent_add_is_component_wise() {
    assert_eq!(Extent::new(1, 2).add(Extent::new(10, 20)), Extent::new(11, 22));
    assert_eq!(Extent::new(0, 0).add(Extent::new(0, 0)), Extent::new(0, 0));
}

#[test]
fn extent_scale_is_component_wise() {
    assert_eq!(Extent::new(3, 4).scale(Extent::new(5, 6)), Extent::new(15, 24));
}

#[test]
fn extent_scale_by_unit_vector_projects() {
    assert_eq!(Extent::new(3, 4).scale(Extent::new(1, 0)), Extent::new(3, 0));
    assert_eq!(Extent::new(3, 4).scale(Extent::new(0, 1)), Extent::new(0, 4));
}

#[test]
fn fresh_layout_has_nothing_accumulated() {
    let layout = Layout::new(Axis::Horizontal, Extent::new(2, 5));
    assert_eq!(layout.axis, Axis::Horizontal);
    assert_eq!(layout.origin, Extent::new(2, 5));
    assert_eq!(layout.accumulated, Extent::new(0, 0));
    assert_eq!(layout.cursor(), Extent::new(2, 5));
}

#[test]
fn horizontal_absorb_sums_widths_and_takes_largest_height() {
    let mut layout = Layout::new(Axis::Horizontal, Extent::new(0, 0));
    layout.absorb(Extent::new(4, 1));
    assert_eq!(layout.accumulated, Extent::new(4, 1));
    layout.absorb(Extent::new(2, 3));
    assert_eq!(layout.accumulated, Extent::new(6, 3));
    layout.absorb(Extent::new(5, 2));
    assert_eq!(layout.accumulated, Extent::new(11, 3));
}

#[test]
fn vertical_absorb_sums_heights_and_takes_largest_width() {
    let mut layout = Layout::new(Axis::Vertical, Extent::new(0, 0));
    layout.absorb(Extent::new(4, 1));
    assert_eq!(layout.accumulated, Extent::new(4, 1));
    layout.absorb(Extent::new(2, 3));
    assert_eq!(layout.accumulated, Extent::new(4, 4));
    layout.absorb(Extent::new(9, 2));
    assert_eq!(layout.accumulated, Extent::new(9, 6));
}

#[test]
fn absorb_of_nothing_leaves_layout_as_it_is() {
    let mut layout = Layout::new(Axis::Vertical, Extent::new(1, 1));
    layout.absorb(Extent::new(0, 0));
    assert_eq!(layout, Layout::new(Axis::Vertical, Extent::new(1, 1)));
}

#[test]
fn horizontal_cursor_moves_by_the_widths_absorbed() {
    let mut layout = Layout::new(Axis::Horizontal, Extent::new(10, 20));
    layout.absorb(Extent::new(3, 5));
    assert_eq!(layout.cursor(), Extent::new(13, 20));
    layout.absorb(Extent::new(4, 1));
    assert_eq!(layout.cursor(), Extent::new(17, 20));
}

#[test]
fn vertical_cursor_moves_by_the_heights_absorbed() {
    let mut layout = Layout::new(Axis::Vertical, Extent::new(10, 20));
    layout.absorb(Extent::new(3, 5));
    assert_eq!(layout.cursor(), Extent::new(10, 25));
    layout.absorb(Extent::new(4, 1));
    assert_eq!(layout.cursor(), Extent::new(10, 26));
}

#[test]
fn cursor_reflects_the_latest_absorb_each_time() {
    let mut layout = Layout::new(Axis::Horizontal, Extent::new(0, 0));
    assert_eq!(layout.cursor(), layout.cursor());
    let before = layout.cursor();
    layout.absorb(Extent::new(1, 1));
    assert_ne!(layout.cursor(), before);
}

#[test]
fn absorb_keeps_axis_and_origin() {
    let mut layout = Layout::new(Axis::Horizontal, Extent::new(7, 8));
    layout.absorb(Extent::new(5, 5));
    assert_eq!(layout.axis, Axis::Horizontal);
    assert_eq!(layout.origin, Extent::new(7, 8));
}

#[test]
fn new_stack_is_empty() {
    let ui = LayoutStack::new();
    assert_eq!(ui.depth(), 0);
    assert_eq!(ui.top(), None);
}

#[test]
fn begin_pushes_the_root_layout() {
    let mut ui = LayoutStack::new();
    ui.begin(Axis::Horizontal, Extent::new(1, 2));
    assert_eq!(ui.depth(), 1);
    assert_eq!(ui.top(), Some(Layout::new(Axis::Horizontal, Extent::new(1, 2))));
}

#[test]
fn end_returns_the_stack_to_empty() {
    let mut ui = LayoutStack::new();
    ui.begin(Axis::Horizontal, Extent::new(0, 0));
    ui.label("abc", Style::Regular);
    ui.end();
    assert_eq!(ui.depth(), 0);
    ui.begin(Axis::Vertical, Extent::new(0, 0));
    assert_eq!(ui.top(), Some(Layout::new(Axis::Vertical, Extent::new(0, 0))));
    ui.end();
    assert_eq!(ui.depth(), 0);
}

#[test]
fn three_labels_in_a_vertical_layout() {
    let mut ui = LayoutStack::new();
    ui.begin(Axis::Vertical, Extent::new(0, 0));
    let a = ui.label("a", Style::Regular);
    let b = ui.label("bb", Style::Regular);
    let c = ui.label("ccc", Style::Highlighted);
    assert_eq!(ui.top().unwrap().accumulated, Extent::new(3, 3));
    assert_eq!(a.pos, Extent::new(0, 0));
    assert_eq!(b.pos, Extent::new(0, 1));
    assert_eq!(c.pos, Extent::new(0, 2));
    assert_eq!(c.text, "ccc");
    assert_eq!(c.style, Style::Highlighted);
    ui.end();
}

#[test]
fn three_sizes_absorbed_into_a_vertical_layout() {
    let mut layout = Layout::new(Axis::Vertical, Extent::new(0, 0));
    layout.absorb(Extent::new(1, 1));
    layout.absorb(Extent::new(2, 1));
    layout.absorb(Extent::new(3, 1));
    assert_eq!(layout.accumulated, Extent::new(3, 3));
}

#[test]
fn labels_in_a_horizontal_layout_stand_side_by_side() {
    let mut ui = LayoutStack::new();
    ui.begin(Axis::Horizontal, Extent::new(2, 1));
    let a = ui.label("ab", Style::Regular);
    let b = ui.label("cde", Style::Regular);
    assert_eq!(a.pos, Extent::new(2, 1));
    assert_eq!(b.pos, Extent::new(4, 1));
    assert_eq!(ui.top().unwrap().accumulated, Extent::new(5, 1));
    ui.end();
}

#[test]
fn label_is_as_wide_as_its_text_has_bytes() {
    let mut ui = LayoutStack::new();
    ui.begin(Axis::Horizontal, Extent::new(0, 0));
    ui.label("", Style::Regular);
    assert_eq!(ui.top().unwrap().accumulated, Extent::new(0, 1));
    ui.label("h\u{e9}", Style::Regular);
    assert_eq!(ui.top().unwrap().accumulated, Extent::new(3, 1));
    ui.end();
}

#[test]
fn nested_layout_starts_at_the_cursor_of_its_parent() {
    let mut ui = LayoutStack::new();
    ui.begin(Axis::Horizontal, Extent::new(1, 1));
    ui.label("abcd", Style::Regular);
    ui.begin_layout(Axis::Vertical);
    assert_eq!(ui.depth(), 2);
    assert_eq!(ui.top(), Some(Layout::new(Axis::Vertical, Extent::new(5, 1))));
    ui.end_layout();
    ui.end();
}

#[test]
fn end_layout_folds_the_child_into_its_parent() {
    let mut ui = LayoutStack::new();
    ui.begin(Axis::Horizontal, Extent::new(0, 0));
    ui.begin_layout(Axis::Vertical);
    ui.label("one", Style::Regular);
    ui.label("three", Style::Regular);
    ui.end_layout();
    assert_eq!(ui.depth(), 1);
    assert_eq!(ui.top().unwrap().accumulated, Extent::new(5, 2));
    ui.begin_layout(Axis::Vertical);
    assert_eq!(ui.top().unwrap().origin, Extent::new(5, 0));
    let draw = ui.label("x", Style::Regular);
    assert_eq!(draw.pos, Extent::new(5, 0));
    ui.end_layout();
    assert_eq!(ui.top().unwrap().accumulated, Extent::new(6, 2));
    ui.end();
    assert_eq!(ui.depth(), 0);
}

#[test]
fn deeper_nesting_folds_level_by_level() {
    let mut ui = LayoutStack::new();
    ui.begin(Axis::Vertical, Extent::new(0, 0));
    ui.label("top", Style::Regular);
    ui.begin_layout(Axis::Horizontal);
    ui.label("ab", Style::Regular);
    ui.begin_layout(Axis::Vertical);
    assert_eq!(ui.depth(), 3);
    assert_eq!(ui.top().unwrap().origin, Extent::new(2, 1));
    ui.label("x", Style::Regular);
    ui.label("yz", Style::Regular);
    ui.end_layout();
    assert_eq!(ui.top().unwrap().accumulated, Extent::new(4, 2));
    ui.end_layout();
    assert_eq!(ui.top().unwrap().accumulated, Extent::new(4, 3));
    ui.end();
}

#[test]
fn empty_nested_layout_adds_nothing() {
    let mut ui = LayoutStack::new();
    ui.begin(Axis::Horizontal, Extent::new(0, 0));
    ui.label("ab", Style::Regular);
    ui.begin_layout(Axis::Vertical);
    ui.end_layout();
    assert_eq!(ui.top().unwrap().accumulated, Extent::new(2, 1));
    ui.end();
}

#[test]
fn label_fits_up_to_the_last_column() {
    let mut ui = LayoutStack::new();
    ui.begin(Axis::Horizontal, Extent::new(i32::MAX - 2, 0));
    assert!(ui.label_fits("ab"));
    assert!(!ui.label_fits("abc"));
    ui.label("ab", Style::Regular);
    assert!(ui.label_fits(""));
    assert!(!ui.label_fits("a"));
    ui.end();
}

#[test]
fn label_fits_up_to_the_last_row() {
    let mut ui = LayoutStack::new();
    ui.begin(Axis::Vertical, Extent::new(0, i32::MAX - 1));
    assert!(ui.label_fits("a"));
    ui.label("a", Style::Regular);
    assert!(!ui.label_fits("a"));
    ui.end();
    ui.begin(Axis::Horizontal, Extent::new(0, i32::MAX));
    assert!(!ui.label_fits("a"));
    ui.end();
}

#[test]
fn style_attribute_is_the_colour_pair_shifted() {
    assert_eq!(Style::Regular.pair(), 0);
    assert_eq!(Style::Highlighted.pair(), 1);
    assert_eq!(Style::Regular.attribute(), 0);
    assert_eq!(Style::Highlighted.attribute(), 256);
}
