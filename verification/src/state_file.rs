//! The text format in which the two lists are kept.
//!
//! One item per line: `TODO: ` or `DONE: ` and then the title. A line ends
//! with a line feed, before which one carriage return is dropped; the last
//! line may go without the line feed. The format is defined on bytes.

use vstd::prelude::*;
use vstd::string::*;
use vstd::utf8::*;
use crate::status::Status;
use crate::text::{bytes_of_each, lemma_ascii_byte_boundaries, lemma_encode_concat};

verus! {

/// The bytes of `TODO: `.
pub open spec fn todo_prefix() -> Seq<u8> {
    seq![0x54u8, 0x4f, 0x44, 0x4f, 0x3a, 0x20]
}

/// The bytes of `DONE: `.
pub open spec fn done_prefix() -> Seq<u8> {
    seq![0x44u8, 0x4f, 0x4e, 0x45, 0x3a, 0x20]
}

/// The category and the title that a line stands for, if it is well formed.
pub open spec fn parse_line(line: Seq<u8>) -> Option<(Status, Seq<u8>)> {
    if todo_prefix().is_prefix_of(line) {
        Some((Status::Todo, line.skip(6)))
    } else if done_prefix().is_prefix_of(line) {
        Some((Status::Done, line.skip(6)))
    } else {
        None
    }
}

/// The number of bytes before the first line feed, or the length of the
/// text if it has none.
pub open spec fn first_line_len(text: Seq<u8>) -> int
    decreases text.len(),
{
    if text.len() == 0 || text[0] == 0x0a {
        0
    } else {
        1 + first_line_len(text.drop_first())
    }
}

/// The line without the carriage return at its end, if it has one.
pub open spec fn without_carriage_return(line: Seq<u8>) -> Seq<u8> {
    if line.len() > 0 && line.last() == 0x0d {
        line.drop_last()
    } else {
        line
    }
}

/// The first line of a text that is not empty, without its line ending.
pub open spec fn first_line(text: Seq<u8>) -> Seq<u8> {
    let n = first_line_len(text);
    if n == text.len() {
        text
    } else {
        without_carriage_return(text.take(n))
    }
}

/// What follows the first line and its line feed.
pub open spec fn after_first_line(text: Seq<u8>) -> Seq<u8> {
    let n = first_line_len(text);
    if n == text.len() {
        Seq::empty()
    } else {
        text.skip(n + 1)
    }
}

/// The lines of a text, first to last.
pub open spec fn lines(text: Seq<u8>) -> Seq<Seq<u8>>
    decreases text.len(),
{
    if text.len() == 0 {
        Seq::empty()
    } else {
        proof {
            lemma_first_line_len(text, first_line_len(text));
        }
        seq![first_line(text)] + lines(after_first_line(text))
    }
}

/// `first_line_len` is the one index within the text, or its length, before
/// which there is no line feed and at which there is one or the text ends.
pub proof fn lemma_first_line_len(text: Seq<u8>, n: int)
    ensures
        0 <= first_line_len(text) <= text.len(),
        n == first_line_len(text) <==> {
            &&& 0 <= n <= text.len()
            &&& forall|k: int| 0 <= k < n ==> text[k] != 0x0a
            &&& n < text.len() ==> text[n] == 0x0a
        },
    decreases text.len(),
{
    if text.len() == 0 || text[0] == 0x0a {
    } else {
        let rest = text.drop_first();
        lemma_first_line_len(rest, n - 1);
        if n == first_line_len(text) {
            assert forall|k: int| 0 <= k < n implies text[k] != 0x0a by {
                if k > 0 {
                    assert(rest[k - 1] == text[k]);
                }
            }
        }
        if 0 < n <= text.len() && (forall|k: int| 0 <= k < n ==> text[k] != 0x0a) && (n
            < text.len() ==> text[n] == 0x0a) {
            assert forall|k: int| 0 <= k < n - 1 implies rest[k] != 0x0a by {
                assert(rest[k] == text[k + 1]);
            }
        }
    }
}

/// Cuts the first line off a text that is not empty.
fn split_line(text: &str) -> (parts: (&str, &str))
    requires
        text.spec_bytes().len() > 0,
    ensures
        parts.0.spec_bytes() == first_line(text.spec_bytes()),
        parts.1.spec_bytes() == after_first_line(text.spec_bytes()),
        parts.1.spec_bytes().len() < text.spec_bytes().len(),
{
    let bytes = text.as_bytes();
    let len = bytes.len();
    let mut n: usize = 0;
    while n < len && bytes[n] != 0x0a
        invariant
            n <= len,
            len == bytes@.len(),
            forall|k: int| 0 <= k < n ==> bytes@[k] != 0x0a,
        decreases len - n,
    {
        n = n + 1;
    }
    proof {
        lemma_first_line_len(bytes@, n as int);
        encode_utf8_valid_utf8(text@);
        is_char_boundary_start_end_of_seq(bytes@);
    }
    if n == len {
        let (line, tail) = text.split_at(len);
        assert(line.spec_bytes() == bytes@);
        (line, tail)
    } else {
        proof {
            lemma_ascii_byte_boundaries(bytes@, n as int);
        }
        let (_, tail) = text.split_at(n + 1);
        let (line, _) = text.split_at(n);
        assert(line.spec_bytes() == bytes@.take(n as int));
        assert(tail.spec_bytes() == bytes@.skip(n + 1));
        if n > 0 && bytes[n - 1] == 0x0d {
            proof {
                lemma_ascii_byte_boundaries(bytes@, n - 1);
            }
            let (stripped, _) = text.split_at(n - 1);
            assert(stripped.spec_bytes() == bytes@.take(n as int).drop_last());
            (stripped, tail)
        } else {
            (line, tail)
        }
    }
}

/// Whether the six bytes of a prefix stand at the start of a line.
fn starts_with(line: &[u8], prefix: [u8; 6]) -> (found: bool)
    ensures
        found == prefix@.is_prefix_of(line@),
{
    if line.len() < 6 {
        return false;
    }
    let found = line[0] == prefix[0] && line[1] == prefix[1] && line[2] == prefix[2] && line[3]
        == prefix[3] && line[4] == prefix[4] && line[5] == prefix[5];
    assert(found ==> prefix@ =~= line@.subrange(0, 6));
    assert(!found ==> prefix@ != line@.subrange(0, 6)) by {
        if !found {
            assert(exists|i: int| 0 <= i < 6 && prefix@[i] != line@.subrange(0, 6)[i]) by {
                if line[0] != prefix[0] {
                    assert(prefix@[0] != line@.subrange(0, 6)[0]);
                } else if line[1] != prefix[1] {
                    assert(prefix@[1] != line@.subrange(0, 6)[1]);
                } else if line[2] != prefix[2] {
                    assert(prefix@[2] != line@.subrange(0, 6)[2]);
                } else if line[3] != prefix[3] {
                    assert(prefix@[3] != line@.subrange(0, 6)[3]);
                } else if line[4] != prefix[4] {
                    assert(prefix@[4] != line@.subrange(0, 6)[4]);
                } else {
                    assert(prefix@[5] != line@.subrange(0, 6)[5]);
                }
            }
        }
    }
    found
}

/// Reads one line: its category, and its title as the rest of the line.
pub fn line_parse(line: &str) -> (item: Option<(Status, &str)>)
    ensures
        item is Some <==> parse_line(line.spec_bytes()) is Some,
        item matches Some((status, title)) ==> parse_line(line.spec_bytes()) == Some(
            (status, title.spec_bytes()),
        ),
{
    let bytes = line.as_bytes();
    let todo: [u8; 6] = [0x54, 0x4f, 0x44, 0x4f, 0x3a, 0x20];
    let done: [u8; 6] = [0x44, 0x4f, 0x4e, 0x45, 0x3a, 0x20];
    assert(todo@ =~= todo_prefix());
    assert(done@ =~= done_prefix());
    let is_todo = starts_with(bytes, todo);
    let is_done = starts_with(bytes, done);
    if is_todo || is_done {
        proof {
            encode_utf8_valid_utf8(line@);
            assert(todo_prefix()[5] == 0x20 && done_prefix()[5] == 0x20);
            assert(bytes@.subrange(0, 6)[5] == bytes@[5]);
            lemma_ascii_byte_boundaries(bytes@, 5);
        }
        let (_, title) = line.split_at(6);
        assert(title.spec_bytes() == bytes@.skip(6));
        if is_todo {
            Some((Status::Todo, title))
        } else {
            Some((Status::Done, title))
        }
    } else {
        None
    }
}

/// The titles of the lines of one category, in the order of the lines.
/// Lines that are not well formed count for nothing.
pub open spec fn titles_of(lines: Seq<Seq<u8>>, status: Status) -> Seq<Seq<u8>>
    decreases lines.len(),
{
    if lines.len() == 0 {
        Seq::empty()
    } else {
        let before = titles_of(lines.drop_last(), status);
        match parse_line(lines.last()) {
            Some((s, title)) => if s == status { before.push(title) } else { before },
            None => before,
        }
    }
}

/// Each of the first `n` lines is well formed.
pub open spec fn well_formed_up_to(lines: Seq<Seq<u8>>, n: int) -> bool {
    forall|i: int| 0 <= i < n ==> parse_line(#[trigger] lines[i]) is Some
}

/// One line for each title: the prefix, the title and a line feed.
pub open spec fn item_lines(prefix: Seq<u8>, titles: Seq<Seq<u8>>) -> Seq<u8>
    decreases titles.len(),
{
    if titles.len() == 0 {
        Seq::empty()
    } else {
        item_lines(prefix, titles.drop_last()) + prefix + titles.last() + seq![0x0au8]
    }
}

/// The text for two lists: what is to be done first, then what is done.
pub open spec fn serialize(todos: Seq<Seq<u8>>, dones: Seq<Seq<u8>>) -> Seq<u8> {
    item_lines(todo_prefix(), todos) + item_lines(done_prefix(), dones)
}

/// A line that is neither a `TODO: ` nor a `DONE: ` line.
#[derive(Clone, Copy, Debug, PartialEq, Eq, Structural)]
pub struct ParseError {
    /// The number of the line, counted from one.
    pub line: usize,
}

/// Reads the text of a state file and adds its items to the two lists, each
/// at the end of the list of its category. Reading stops at the first line
/// that is not well formed, with the number of that line as the error.
pub fn load_state(todos: &mut Vec<String>, dones: &mut Vec<String>, content: &str) -> (result:
    Result<(), ParseError>)
    ensures
        ({
            let all = lines(content.spec_bytes());
            let read = match result {
                Ok(()) => all.len() as int,
                Err(e) => e.line - 1,
            };
            &&& 0 <= read <= all.len()
            &&& well_formed_up_to(all, read)
            &&& result is Err ==> read < all.len() && parse_line(all[read]) is None
            &&& bytes_of_each(final(todos)@) == bytes_of_each(old(todos)@) + titles_of(
                all.take(read),
                Status::Todo,
            )
            &&& bytes_of_each(final(dones)@) == bytes_of_each(old(dones)@) + titles_of(
                all.take(read),
                Status::Done,
            )
        }),
{
    let ghost all = lines(content.spec_bytes());
    let mut rest: &str = content;
    let mut index: usize = 0;
    let total = content.as_bytes().len();
    assert(all.skip(0) =~= all);
    assert(all.take(0) =~= Seq::<Seq<u8>>::empty());
    assert(bytes_of_each(todos@) + titles_of(all.take(0), Status::Todo) =~= bytes_of_each(todos@));
    assert(bytes_of_each(dones@) + titles_of(all.take(0), Status::Done) =~= bytes_of_each(dones@));
    while rest.as_bytes().len() > 0
        invariant
            all == lines(content.spec_bytes()),
            index <= all.len(),
            all.skip(index as int) == lines(rest.spec_bytes()),
            index + rest.spec_bytes().len() <= content.spec_bytes().len(),
            content.spec_bytes().len() == total,
            well_formed_up_to(all, index as int),
            bytes_of_each(todos@) == bytes_of_each(old(todos)@) + titles_of(
                all.take(index as int),
                Status::Todo,
            ),
            bytes_of_each(dones@) == bytes_of_each(old(dones)@) + titles_of(
                all.take(index as int),
                Status::Done,
            ),
        decreases rest.spec_bytes().len(),
    {
        let (line, tail) = split_line(rest);
        proof {
            let here = lines(rest.spec_bytes());
            assert(here == seq![line.spec_bytes()] + lines(tail.spec_bytes()));
            assert(all.skip(index as int)[0] == line.spec_bytes());
            assert(all[index as int] == line.spec_bytes());
            assert(all.skip(index + 1) =~= all.skip(index as int).skip(1));
            assert(here.skip(1) =~= lines(tail.spec_bytes()));
            assert(all.take(index + 1).drop_last() =~= all.take(index as int));
            assert(all.take(index + 1).last() == all[index as int]);
        }
        match line_parse(line) {
            Some((Status::Todo, title)) => {
                let ghost before = todos@;
                todos.push(title.to_owned());
                assert(bytes_of_each(todos@) =~= bytes_of_each(before).push(title.spec_bytes()));
            },
            Some((Status::Done, title)) => {
                let ghost before = dones@;
                dones.push(title.to_owned());
                assert(bytes_of_each(dones@) =~= bytes_of_each(before).push(title.spec_bytes()));
            },
            None => {
                return Err(ParseError { line: index + 1 });
            },
        }
        rest = tail;
        index = index + 1;
    }
    assert(all.skip(index as int).len() == 0);
    assert(all.take(index as int) =~= all);
    Ok(())
}

/// Adds one line for each item to the text.
fn write_items(out: &mut String, prefix: &str, items: &Vec<String>)
    ensures
        encode_utf8(final(out)@) == encode_utf8(old(out)@) + item_lines(
            encode_utf8(prefix@),
            bytes_of_each(items@),
        ),
{
    let ghost start = encode_utf8(out@);
    let ghost lead = encode_utf8(prefix@);
    let ghost titles = bytes_of_each(items@);
    let mut i: usize = 0;
    assert(titles.take(0) =~= Seq::<Seq<u8>>::empty());
    assert(start + item_lines(lead, titles.take(0)) =~= start);
    while i < items.len()
        invariant
            i <= items.len(),
            lead == encode_utf8(prefix@),
            titles == bytes_of_each(items@),
            encode_utf8(out@) == start + item_lines(lead, titles.take(i as int)),
        decreases items.len() - i,
    {
        let ghost before = out@;
        out.append(prefix);
        out.append(items[i].as_str());
        out.append("\n");
        proof {
            reveal_strlit("\n");
            let feed = "\n"@;
            assert(is_ascii_chars(feed));
            is_ascii_chars_encode_utf8(feed);
            assert(encode_utf8(feed) =~= seq![0x0au8]);
            lemma_encode_concat(before, prefix@);
            lemma_encode_concat(before + prefix@, items[i as int]@);
            lemma_encode_concat(before + prefix@ + items[i as int]@, feed);
            assert(titles.take(i + 1).drop_last() =~= titles.take(i as int));
            assert(titles.take(i + 1).last() == encode_utf8(items[i as int]@));
            assert(encode_utf8(out@) =~= start + item_lines(lead, titles.take(i + 1)));
        }
        i = i + 1;
    }
    assert(titles.take(i as int) =~= titles);
}

/// The text of a state file for the two lists.
pub fn save_state(todos: &Vec<String>, dones: &Vec<String>) -> (content: String)
    ensures
        encode_utf8(content@) == serialize(bytes_of_each(todos@), bytes_of_each(dones@)),
{
    let mut content = String::new();
    proof {
        reveal_strlit("TODO: ");
        reveal_strlit("DONE: ");
        assert(is_ascii_chars("TODO: "@));
        assert(is_ascii_chars("DONE: "@));
        is_ascii_chars_encode_utf8("TODO: "@);
        is_ascii_chars_encode_utf8("DONE: "@);
        assert(encode_utf8("TODO: "@) =~= todo_prefix());
        assert(encode_utf8("DONE: "@) =~= done_prefix());
        assert(encode_utf8(content@) =~= Seq::<u8>::empty());
    }
    write_items(&mut content, "TODO: ", todos);
    write_items(&mut content, "DONE: ", dones);
    assert(encode_utf8(content@) =~= serialize(bytes_of_each(todos@), bytes_of_each(dones@)));
    content
}

} // verus!
