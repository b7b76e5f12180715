use todo_tui::lists::{list_down, list_transfer, list_up};
use todo_tui::status::Status;

fn items(titles: &[&str]) -> Vec<String> {
    titles.iter().map(|t| t.to_string()).collect()
}

#[test]
fn status_toggle_gives_the_other() {
    assert_eq!(Status::Todo.toggle(), Status::Done);
    assert_eq!(Status::Done.toggle(), Status::Todo);
}

#[test]
fn status_left_and_right_are_fixed() {
    assert_eq!(Status::Todo.right(), Status::Done);
    assert_eq!(Status::Done.right(), Status::Done);
    assert_eq!(Status::Todo.left(), Status::Todo);
    assert_eq!(Status::Done.left(), Status::Todo);
}

#[test]
fn list_up_moves_one_towards_the_start() {
    let mut curr = 2;
    list_up(&mut curr);
    assert_eq!(curr, 1);
    list_up(&mut curr);
    assert_eq!(curr, 0);
}

#[test]
fn list_up_stops_at_the_first_item() {
    let mut curr = 0;
    list_up(&mut curr);
    assert_eq!(curr, 0);
}

#[test]
fn list_down_moves_one_towards_the_end() {
    let list = items(&["a", "b", "c"]);
    let mut curr = 0;
    list_down(&list, &mut curr);
    assert_eq!(curr, 1);
    list_down(&list, &mut curr);
    assert_eq!(curr, 2);
}

#[test]
fn list_down_stops_at_the_last_item() {
    let list = items(&["a", "b", "c"]);
    let mut curr = 2;
    list_down(&list, &mut curr);
    assert_eq!(curr, 2);
}

#[test]
fn list_down_in_an_empty_list_moves_nothing() {
    let list = items(&[]);
    let mut curr = 0;
    list_down(&list, &mut curr);
    assert_eq!(curr, 0);
}

#[test]
fn list_down_beyond_the_list_moves_nothing() {
    let list = items(&["a"]);
    let mut curr = usize::MAX;
    list_down(&list, &mut curr);
    assert_eq!(curr, usize::MAX);
}

#[test]
fn list_transfer_moves_the_selected_item_to_the_end_of_the_other() {
    let mut src = items(&["a", "b", "c"]);
    let mut dst = items(&["x"]);
    let mut curr = 1;
    list_transfer(&mut src, &mut dst, &mut curr);
    assert_eq!(src, items(&["a", "c"]));
    assert_eq!(dst, items(&["x", "b"]));
    assert_eq!(curr, 1);
}

#[test]
fn list_transfer_of_the_last_item_steps_back() {
    let mut src = items(&["a", "b", "c"]);
    let mut dst = items(&[]);
    let mut curr = 2;
    list_transfer(&mut src, &mut dst, &mut curr);
    assert_eq!(src, items(&["a", "b"]));
    assert_eq!(dst, items(&["c"]));
    assert_eq!(curr, 1);
}

#[test]
fn list_transfer_of_the_only_item_leaves_the_selection_at_zero() {
    let mut src = items(&["a"]);
    let mut dst = items(&["x", "y"]);
    let mut curr = 0;
    list_transfer(&mut src, &mut dst, &mut curr);
    assert_eq!(src, items(&[]));
    assert_eq!(dst, items(&["x", "y", "a"]));
    assert_eq!(curr, 0);
}

#[test]
fn list_transfer_from_an_empty_list_changes_nothing() {
    let mut src = items(&[]);
    let mut dst = items(&["x"]);
    let mut curr = 0;
    list_transfer(&mut src, &mut dst, &mut curr);
    assert_eq!(src, items(&[]));
    assert_eq!(dst, items(&["x"]));
    assert_eq!(curr, 0);
}

#[test]
fn list_transfer_with_selection_beyond_the_list_changes_nothing() {
    let mut src = items(&["a", "b"]);
    let mut dst = items(&[]);
    let mut curr = 2;
    list_transfer(&mut src, &mut dst, &mut curr);
    assert_eq!(src, items(&["a", "b"]));
    assert_eq!(dst, items(&[]));
    assert_eq!(curr, 2);
}
