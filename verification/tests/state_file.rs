use todo_tui::state_file::{line_parse, load_state, save_state, ParseError};
use todo_tui::status::Status;

fn items(titles: &[&str]) -> Vec<String> {
    titles.iter().map(|t| t.to_string()).collect()
}

fn load(content: &str) -> (Vec<String>, Vec<String>, Result<(), ParseError>) {
    let mut todos = Vec::new();
    let mut dones = Vec::new();
    let result = load_state(&mut todos, &mut dones, content);
    (todos, dones, result)
}

#[test]
fn line_parse_reads_a_todo_line() {
    assert_eq!(line_parse("TODO: buy milk"), Some((Status::Todo, "buy milk")));
}

#[test]
fn line_parse_reads_a_done_line() {
    assert_eq!(line_parse("DONE: wash car"), Some((Status::Done, "wash car")));
}

#[test]
fn line_parse_accepts_an_empty_title() {
    assert_eq!(line_parse("TODO: "), Some((Status::Todo, "")));
    assert_eq!(line_parse("DONE: "), Some((Status::Done, "")));
}

#[test]
fn line_parse_keeps_what_follows_the_prefix_as_it_is() {
    assert_eq!(line_parse("TODO:  two spaces "), Some((Status::Todo, " two spaces ")));
    assert_eq!(line_parse("DONE: TODO: x"), Some((Status::Done, "TODO: x")));
    assert_eq!(line_parse("TODO: caf\u{e9} \u{2713}"), Some((Status::Todo, "caf\u{e9} \u{2713}")));
}

#[test]
fn line_parse_refuses_other_lines() {
    assert_eq!(line_parse(""), None);
    assert_eq!(line_parse("TODO:"), None);
    assert_eq!(line_parse("TODO:x"), None);
    assert_eq!(line_parse("todo: x"), None);
    assert_eq!(line_parse(" TODO: x"), None);
    assert_eq!(line_parse("DONE"), None);
    assert_eq!(line_parse("DOING: x"), None);
    assert_eq!(line_parse("\u{e9}\u{e9}\u{e9}"), None);
}

#[test]
fn load_state_reads_both_lists() {
    let (todos, dones, result) = load("TODO: buy milk\nDONE: wash car\n");
    assert_eq!(result, Ok(()));
    assert_eq!(todos, items(&["buy milk"]));
    assert_eq!(dones, items(&["wash car"]));
}

#[test]
fn load_state_of_an_empty_text_reads_nothing() {
    let (todos, dones, result) = load("");
    assert_eq!(result, Ok(()));
    assert_eq!(todos, items(&[]));
    assert_eq!(dones, items(&[]));
}

#[test]
fn load_state_keeps_the_order_within_each_list() {
    let (todos, dones, result) = load("DONE: a\nTODO: b\nDONE: c\nTODO: d\nTODO: e\n");
    assert_eq!(result, Ok(()));
    assert_eq!(todos, items(&["b", "d", "e"]));
    assert_eq!(dones, items(&["a", "c"]));
}

#[test]
fn load_state_adds_to_what_the_lists_hold() {
    let mut todos = items(&["old"]);
    let mut dones = items(&[]);
    assert_eq!(load_state(&mut todos, &mut dones, "TODO: new\n"), Ok(()));
    assert_eq!(todos, items(&["old", "new"]));
    assert_eq!(dones, items(&[]));
}

#[test]
fn load_state_reads_a_last_line_without_line_feed() {
    let (todos, dones, result) = load("DONE: a\nTODO: b");
    assert_eq!(result, Ok(()));
    assert_eq!(todos, items(&["b"]));
    assert_eq!(dones, items(&["a"]));
}

#[test]
fn load_state_drops_a_carriage_return_before_a_line_feed() {
    let (todos, dones, result) = load("TODO: a\r\nDONE: b\r\n");
    assert_eq!(result, Ok(()));
    assert_eq!(todos, items(&["a"]));
    assert_eq!(dones, items(&["b"]));
}

#[test]
fn load_state_drops_one_carriage_return_only() {
    let (todos, _, result) = load("TODO: a\r\r\nTODO: b\r");
    assert_eq!(result, Ok(()));
    assert_eq!(todos, items(&["a\r", "b\r"]));
}

#[test]
fn load_state_reports_the_first_ill_formed_line() {
    let (todos, dones, result) = load("TODO: a\nnonsense\nDONE: b\nmore nonsense\n");
    assert_eq!(result, Err(ParseError { line: 2 }));
    assert_eq!(todos, items(&["a"]));
    assert_eq!(dones, items(&[]));
}

#[test]
fn load_state_counts_lines_from_one() {
    let (_, _, result) = load("nonsense\n");
    assert_eq!(result, Err(ParseError { line: 1 }));
    let (_, _, result) = load("TODO: a\nDONE: b\nTODO: c\nx");
    assert_eq!(result, Err(ParseError { line: 4 }));
}

#[test]
fn load_state_refuses_an_empty_line() {
    let (_, _, result) = load("TODO: a\n\nTODO: b\n");
    assert_eq!(result, Err(ParseError { line: 2 }));
    let (_, _, result) = load("\n");
    assert_eq!(result, Err(ParseError { line: 1 }));
}

#[test]
fn load_state_reads_titles_that_are_not_ascii() {
    let (todos, dones, result) = load("TODO: caf\u{e9}\nDONE: \u{2713} done\n");
    assert_eq!(result, Ok(()));
    assert_eq!(todos, items(&["caf\u{e9}"]));
    assert_eq!(dones, items(&["\u{2713} done"]));
}

#[test]
fn save_state_writes_todos_before_dones() {
    let text = save_state(&items(&["a", "b"]), &items(&["c"]));
    assert_eq!(text, "TODO: a\nTODO: b\nDONE: c\n");
}

#[test]
fn save_state_of_empty_lists_is_empty() {
    assert_eq!(save_state(&items(&[]), &items(&[])), "");
}

#[test]
fn save_state_of_one_list_only() {
    assert_eq!(save_state(&items(&[]), &items(&["x"])), "DONE: x\n");
    assert_eq!(save_state(&items(&["x"]), &items(&[])), "TODO: x\n");
    assert_eq!(save_state(&items(&[""]), &items(&[])), "TODO: \n");
}

#[test]
fn saving_what_was_loaded_gives_the_text_back() {
    let text = "TODO: buy milk\nTODO: caf\u{e9}\nDONE: wash car\n";
    let (todos, dones, result) = load(text);
    assert_eq!(result, Ok(()));
    assert_eq!(save_state(&todos, &dones), text);
}

#[test]
fn saving_what_was_loaded_groups_the_lines() {
    let (todos, dones, result) = load("DONE: a\nTODO: b\nDONE: c\nTODO: d\n");
    assert_eq!(result, Ok(()));
    assert_eq!(save_state(&todos, &dones), "TODO: b\nTODO: d\nDONE: a\nDONE: c\n");
}

#[test]
fn saving_what_was_loaded_ends_every_line_with_a_line_feed() {
    let (todos, dones, result) = load("TODO: a\r\nDONE: b");
    assert_eq!(result, Ok(()));
    assert_eq!(save_state(&todos, &dones), "TODO: a\nDONE: b\n");
}

#[test]
fn loading_what_was_saved_gives_the_lists_back() {
    let todos = items(&["a", "", "TODO: nested"]);
    let dones = items(&["b c", "caf\u{e9}"]);
    let (read_todos, read_dones, result) = load(&save_state(&todos, &dones));
    assert_eq!(result, Ok(()));
    assert_eq!(read_todos, todos);
    assert_eq!(read_dones, dones);
}
