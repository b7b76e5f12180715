//! The state of an interactive session and what each input event does to it.

use vstd::prelude::*;
use crate::curses::{key_down, key_left, key_right, key_up};
use crate::lists::{after_removal, list_down, list_transfer, list_up, moved_down, moved_up, selection_in_place};
use crate::status::Status;
use crate::text::chars_of_each;

verus! {

/// One input event.
#[derive(Clone, Copy, Debug, PartialEq, Eq, Structural)]
pub enum Event {
    Quit,
    Save,
    Up,
    Down,
    Left,
    Right,
    Confirm,
    SwitchTab,
    /// The key for a new item. Nothing is defined for it yet.
    Insert,
    /// Any key that means nothing.
    Ignored,
}

/// What is left to the caller after an event has been handled.
#[derive(Clone, Copy, Debug, PartialEq, Eq, Structural)]
pub enum Action {
    /// Draw the next frame.
    Continue,
    /// Write the lists out, then draw the next frame.
    Save,
    /// Leave the session.
    Quit,
}

/// The low byte of a key code. Keys are told apart by it alone.
pub open spec fn key_byte(key: i32) -> u8 {
    key as u8
}

/// The event that a key code stands for. The arrow keys have the codes
/// 0x103 (up), 0x102 (down), 0x104 (left) and 0x105 (right).
pub open spec fn decoded(key: i32) -> Event {
    let byte = key_byte(key);
    if byte == 0x71 {
        Event::Quit
    } else if byte == 0x65 {
        Event::Save
    } else if byte == 0x77 || byte == key_byte(0x103) {
        Event::Up
    } else if byte == 0x73 || byte == key_byte(0x102) {
        Event::Down
    } else if byte == 0x0a {
        Event::Confirm
    } else if byte == 0x69 {
        Event::Insert
    } else if byte == 0x09 {
        Event::SwitchTab
    } else if byte == key_byte(0x105) {
        Event::Right
    } else if byte == key_byte(0x104) {
        Event::Left
    } else {
        Event::Ignored
    }
}

/// Decodes a key code: `q` quits, `e` saves, `w` and `s` and the arrows
/// move, the line feed confirms, `i` inserts and the tab switches.
pub fn decode_key(key: i32) -> (event: Event)
    ensures
        event == decoded(key),
{
    let byte = #[verifier::truncate] (key as u8);
    let up = #[verifier::truncate] (key_up() as u8);
    let down = #[verifier::truncate] (key_down() as u8);
    let left = #[verifier::truncate] (key_left() as u8);
    let right = #[verifier::truncate] (key_right() as u8);
    if byte == 0x71 {
        Event::Quit
    } else if byte == 0x65 {
        Event::Save
    } else if byte == 0x77 || byte == up {
        Event::Up
    } else if byte == 0x73 || byte == down {
        Event::Down
    } else if byte == 0x0a {
        Event::Confirm
    } else if byte == 0x69 {
        Event::Insert
    } else if byte == 0x09 {
        Event::SwitchTab
    } else if byte == right {
        Event::Right
    } else if byte == left {
        Event::Left
    } else {
        Event::Ignored
    }
}

/// What the caller has to do after the given event.
pub open spec fn action_for(event: Event) -> Action {
    match event {
        Event::Quit => Action::Quit,
        Event::Save => Action::Save,
        _ => Action::Continue,
    }
}

/// The mathematical value of a [`Session`].
pub struct SessionView {
    pub todos: Seq<Seq<char>>,
    pub todo_curr: int,
    pub dones: Seq<Seq<char>>,
    pub done_curr: int,
    pub tab: Status,
}

impl SessionView {
    /// The session after the selected item of the active list has moved to
    /// the end of the other list.
    pub open spec fn transferred(self) -> SessionView {
        match self.tab {
            Status::Todo => if 0 <= self.todo_curr < self.todos.len() {
                SessionView {
                    todos: self.todos.remove(self.todo_curr),
                    dones: self.dones.push(self.todos[self.todo_curr]),
                    todo_curr: after_removal(self.todos.len() - 1, self.todo_curr),
                    ..self
                }
            } else {
                self
            },
            Status::Done => if 0 <= self.done_curr < self.dones.len() {
                SessionView {
                    dones: self.dones.remove(self.done_curr),
                    todos: self.todos.push(self.dones[self.done_curr]),
                    done_curr: after_removal(self.dones.len() - 1, self.done_curr),
                    ..self
                }
            } else {
                self
            },
        }
    }

    /// The session after one event. Moves and transfers act on the active
    /// list alone.
    pub open spec fn step(self, event: Event) -> SessionView {
        match event {
            Event::Up => match self.tab {
                Status::Todo => SessionView { todo_curr: moved_up(self.todo_curr), ..self },
                Status::Done => SessionView { done_curr: moved_up(self.done_curr), ..self },
            },
            Event::Down => match self.tab {
                Status::Todo => SessionView {
                    todo_curr: moved_down(self.todos.len() as int, self.todo_curr),
                    ..self
                },
                Status::Done => SessionView {
                    done_curr: moved_down(self.dones.len() as int, self.done_curr),
                    ..self
                },
            },
            Event::Confirm => self.transferred(),
            Event::SwitchTab => SessionView { tab: self.tab.toggled(), ..self },
            Event::Right => SessionView { tab: Status::Done, ..self },
            Event::Left => SessionView { tab: Status::Todo, ..self },
            _ => self,
        }
    }

    /// Both selections are in place.
    pub open spec fn selections_in_place(self) -> bool {
        &&& selection_in_place(self.todos.len() as int, self.todo_curr)
        &&& selection_in_place(self.dones.len() as int, self.done_curr)
    }
}

/// The two lists, the selection in each, and the list that has the focus.
#[derive(Debug)]
pub struct Session {
    pub todos: Vec<String>,
    pub todo_curr: usize,
    pub dones: Vec<String>,
    pub done_curr: usize,
    pub tab: Status,
}

impl View for Session {
    type V = SessionView;

    open spec fn view(&self) -> SessionView {
        SessionView {
            todos: chars_of_each(self.todos@),
            todo_curr: self.todo_curr as int,
            dones: chars_of_each(self.dones@),
            done_curr: self.done_curr as int,
            tab: self.tab,
        }
    }
}

impl Session {
    /// A session on the given lists, with the focus on what is to be done
    /// and each selection at the start of its list.
    pub fn new(todos: Vec<String>, dones: Vec<String>) -> (session: Session)
        ensures
            session@ == (SessionView {
                todos: chars_of_each(todos@),
                todo_curr: 0,
                dones: chars_of_each(dones@),
                done_curr: 0,
                tab: Status::Todo,
            }),
            session.todos == todos,
            session.dones == dones,
            session@.selections_in_place(),
    {
        Session { todos, todo_curr: 0, dones, done_curr: 0, tab: Status::Todo }
    }

    /// The selected item of a list, or nothing where the list is empty.
    pub fn selected(&self, status: Status) -> (index: Option<usize>)
        ensures
            index == match status {
                Status::Todo => if self.todo_curr < self.todos@.len() {
                    Some(self.todo_curr)
                } else {
                    None
                },
                Status::Done => if self.done_curr < self.dones@.len() {
                    Some(self.done_curr)
                } else {
                    None
                },
            },
    {
        match status {
            Status::Todo => if self.todo_curr < self.todos.len() {
                Some(self.todo_curr)
            } else {
                None
            },
            Status::Done => if self.done_curr < self.dones.len() {
                Some(self.done_curr)
            } else {
                None
            },
        }
    }

    /// Applies one event and says what is left to the caller.
    pub fn handle(&mut self, event: Event) -> (action: Action)
        requires
            event != Event::Insert,
        ensures
            final(self)@ == old(self)@.step(event),
            action == action_for(event),
    {
        match event {
            Event::Quit => Action::Quit,
            Event::Save => Action::Save,
            Event::Up => {
                match self.tab {
                    Status::Todo => list_up(&mut self.todo_curr),
                    Status::Done => list_up(&mut self.done_curr),
                }
                Action::Continue
            },
            Event::Down => {
                match self.tab {
                    Status::Todo => list_down(&self.todos, &mut self.todo_curr),
                    Status::Done => list_down(&self.dones, &mut self.done_curr),
                }
                Action::Continue
            },
            Event::Confirm => {
                match self.tab {
                    Status::Todo => list_transfer(
                        &mut self.todos,
                        &mut self.dones,
                        &mut self.todo_curr,
                    ),
                    Status::Done => list_transfer(
                        &mut self.dones,
                        &mut self.todos,
                        &mut self.done_curr,
                    ),
                }
                proof {
                    let before = old(self)@;
                    let after = before.transferred();
                    assert(self@.todos =~= after.todos);
                    assert(self@.dones =~= after.dones);
                }
                Action::Continue
            },
            Event::SwitchTab => {
                self.tab = self.tab.toggle();
                Action::Continue
            },
            Event::Right => {
                self.tab = self.tab.right();
                Action::Continue
            },
            Event::Left => {
                self.tab = self.tab.left();
                Action::Continue
            },
            Event::Insert => Action::Continue,
            Event::Ignored => Action::Continue,
        }
    }
}

/// No event takes a selection out of place.
pub proof fn lemma_step_keeps_selections(session: SessionView, event: Event)
    requires
        session.selections_in_place(),
    ensures
        session.step(event).selections_in_place(),
{
}

/// Moving an item takes it out of one list and puts it at the end of the
/// other: no item is lost and none is made.
pub proof fn lemma_transfer_keeps_items(session: SessionView)
    ensures
        session.transferred().todos.len() + session.transferred().dones.len()
            == session.todos.len() + session.dones.len(),
        session.transferred().todos.to_multiset().add(session.transferred().dones.to_multiset())
            == session.todos.to_multiset().add(session.dones.to_multiset()),
{
    let after = session.transferred();
    match session.tab {
        Status::Todo => if 0 <= session.todo_curr < session.todos.len() {
            lemma_move_keeps_items(session.todos, session.dones, session.todo_curr);
        },
        Status::Done => if 0 <= session.done_curr < session.dones.len() {
            lemma_move_keeps_items(session.dones, session.todos, session.done_curr);
            assert(after.todos.to_multiset().add(after.dones.to_multiset())
                =~= after.dones.to_multiset().add(after.todos.to_multiset()));
            assert(session.todos.to_multiset().add(session.dones.to_multiset())
                =~= session.dones.to_multiset().add(session.todos.to_multiset()));
        },
    }
}

proof fn lemma_move_keeps_items(from: Seq<Seq<char>>, to: Seq<Seq<char>>, i: int)
    requires
        0 <= i < from.len(),
    ensures
        from.remove(i).to_multiset().add(to.push(from[i]).to_multiset()) == from.to_multiset().add(
            to.to_multiset(),
        ),
{
    vstd::seq_lib::to_multiset_remove(from, i);
    vstd::seq_lib::to_multiset_build(to, from[i]);
    vstd::seq_lib::to_multiset_contains(from, from[i]);
    assert(from.contains(from[i]));
    assert(from.remove(i).to_multiset().add(to.push(from[i]).to_multiset())
        =~= from.to_multiset().add(to.to_multiset()));
}

} // verus!
