//! What writing a state file and reading it again, in either order, keeps.

use vstd::prelude::*;
use crate::state_file::{
    done_prefix, first_line_len, item_lines, lemma_first_line_len, lines, parse_line, serialize, titles_of,
    todo_prefix, well_formed_up_to, without_carriage_return,
};
use crate::status::Status;

verus! {

/// The prefix that marks a line of the given category.
pub open spec fn prefix_of(status: Status) -> Seq<u8> {
    match status {
        Status::Todo => todo_prefix(),
        Status::Done => done_prefix(),
    }
}

/// The given lines put together, each followed by a line feed.
pub open spec fn join(lines: Seq<Seq<u8>>) -> Seq<u8>
    decreases lines.len(),
{
    if lines.len() == 0 {
        Seq::empty()
    } else {
        join(lines.drop_last()) + lines.last() + seq![0x0au8]
    }
}

/// The lines of one category among the given lines, in their order.
pub open spec fn lines_of(lines: Seq<Seq<u8>>, status: Status) -> Seq<Seq<u8>>
    decreases lines.len(),
{
    if lines.len() == 0 {
        Seq::empty()
    } else {
        let before = lines_of(lines.drop_last(), status);
        match parse_line(lines.last()) {
            Some((s, _)) => if s == status { before.push(lines.last()) } else { before },
            None => before,
        }
    }
}

/// No line of what is to be done comes after a line of what is done.
pub open spec fn grouped(lines: Seq<Seq<u8>>) -> bool {
    forall|i: int, j: int|
        0 <= i < j < lines.len() ==> !(parse_line(#[trigger] lines[i]) matches Some(
            (Status::Done, _),
        ) && parse_line(#[trigger] lines[j]) matches Some((Status::Todo, _)))
}

/// A title that comes back as it was written: it holds no line feed and
/// does not end with a carriage return.
pub open spec fn plain_title(title: Seq<u8>) -> bool {
    &&& forall|k: int| 0 <= k < title.len() ==> title[k] != 0x0a
    &&& !(title.len() > 0 && title.last() == 0x0d)
}

/// Each title of the list is plain.
pub open spec fn plain_titles(titles: Seq<Seq<u8>>) -> bool {
    forall|i: int| 0 <= i < titles.len() ==> plain_title(#[trigger] titles[i])
}

/// A text whose every line ends with a line feed that no carriage return
/// precedes.
pub open spec fn plain_endings(text: Seq<u8>) -> bool {
    &&& text.len() > 0 ==> text.last() == 0x0a
    &&& forall|k: int| 0 < k < text.len() && #[trigger] text[k] == 0x0a ==> text[k - 1] != 0x0d
}

/// The lines of a line, a line feed and more text are that line, without
/// the carriage return at its end, and the lines of the rest.
proof fn lemma_lines_of_line_and_rest(line: Seq<u8>, rest: Seq<u8>)
    requires
        forall|k: int| 0 <= k < line.len() ==> line[k] != 0x0a,
    ensures
        lines(line + seq![0x0au8] + rest) == seq![without_carriage_return(line)] + lines(rest),
{
    let text = line + seq![0x0au8] + rest;
    lemma_first_line_len(text, line.len() as int);
    assert(text.take(line.len() as int) =~= line);
    assert(text.skip(line.len() as int + 1) =~= rest);
}

/// A prefix and a title, as one line.
pub open spec fn item_line(prefix: Seq<u8>, title: Seq<u8>) -> Seq<u8> {
    prefix + title
}

/// The lines of the text written for a list, followed by more text, are one
/// line for each title and then the lines of the rest.
proof fn lemma_lines_of_item_lines(status: Status, titles: Seq<Seq<u8>>, rest: Seq<u8>)
    requires
        plain_titles(titles),
    ensures
        lines(item_lines(prefix_of(status), titles) + rest) == Seq::new(
            titles.len(),
            |i: int| item_line(prefix_of(status), titles[i]),
        ) + lines(rest),
    decreases titles.len(),
{
    let prefix = prefix_of(status);
    let items = Seq::new(titles.len(), |i: int| item_line(prefix, titles[i]));
    if titles.len() == 0 {
        assert(item_lines(prefix, titles) + rest =~= rest);
        assert(items + lines(rest) =~= lines(rest));
    } else {
        let init = titles.drop_last();
        let last = titles.last();
        let line = prefix + last;
        let tail = line + seq![0x0au8] + rest;
        assert(plain_title(last));
        assert forall|i: int| 0 <= i < init.len() implies plain_title(#[trigger] init[i]) by {
            assert(init[i] == titles[i]);
        }
        assert(item_lines(prefix, titles) + rest =~= item_lines(prefix, init) + tail);
        lemma_lines_of_item_lines(status, init, tail);
        assert forall|k: int| 0 <= k < line.len() implies line[k] != 0x0a by {
            if k >= 6 {
                assert(line[k] == last[k - 6]);
            }
        }
        lemma_lines_of_line_and_rest(line, rest);
        assert(without_carriage_return(line) == line) by {
            if last.len() > 0 {
                assert(line.last() == last.last());
            }
        }
        let init_items = Seq::new(init.len(), |i: int| item_line(prefix, init[i]));
        assert(items =~= init_items + seq![line]);
        assert(items + lines(rest) =~= init_items + (seq![line] + lines(rest)));
    }
}

/// The titles among lines put one after the other are the titles among the
/// first followed by those among the second, and so for the lines of a
/// category and for the joined text.
proof fn lemma_concat(a: Seq<Seq<u8>>, b: Seq<Seq<u8>>, status: Status)
    ensures
        titles_of(a + b, status) == titles_of(a, status) + titles_of(b, status),
        lines_of(a + b, status) == lines_of(a, status) + lines_of(b, status),
        join(a + b) == join(a) + join(b),
    decreases b.len(),
{
    if b.len() == 0 {
        assert(a + b =~= a);
        assert(titles_of(a, status) + titles_of(b, status) =~= titles_of(a, status));
        assert(lines_of(a, status) + lines_of(b, status) =~= lines_of(a, status));
        assert(join(a) + join(b) =~= join(a));
    } else {
        assert((a + b).drop_last() =~= a + b.drop_last());
        assert((a + b).last() == b.last());
        lemma_concat(a, b.drop_last(), status);
        assert(titles_of(a + b, status) =~= titles_of(a, status) + titles_of(b, status));
        assert(lines_of(a + b, status) =~= lines_of(a, status) + lines_of(b, status));
        assert(join(a + b) =~= join(a) + join(b));
    }
}

/// A prefix and a title make a well-formed line of that category, with that
/// title.
proof fn lemma_parse_item_line(status: Status, title: Seq<u8>)
    ensures
        parse_line(item_line(prefix_of(status), title)) == Some((status, title)),
{
    let line = item_line(prefix_of(status), title);
    assert(line.subrange(0, 6) =~= prefix_of(status));
    assert(line.skip(6) =~= title);
    if status == Status::Done {
        assert(line[0] != todo_prefix()[0]);
        assert(todo_prefix() != line.subrange(0, 6));
    }
}

/// Among the lines written for a list of one category, the titles of that
/// category are the list and those of the other category are none.
proof fn lemma_titles_of_items(written: Status, titles: Seq<Seq<u8>>, status: Status)
    ensures
        ({
            let items = Seq::new(titles.len(), |i: int| item_line(prefix_of(written), titles[i]));
            &&& well_formed_up_to(items, items.len() as int)
            &&& titles_of(items, status) == if status == written {
                titles
            } else {
                Seq::empty()
            }
        }),
    decreases titles.len(),
{
    let items = Seq::new(titles.len(), |i: int| item_line(prefix_of(written), titles[i]));
    assert forall|i: int| 0 <= i < items.len() implies parse_line(#[trigger] items[i]) is Some by {
        lemma_parse_item_line(written, titles[i]);
    }
    if titles.len() > 0 {
        let init = titles.drop_last();
        let init_items = Seq::new(init.len(), |i: int| item_line(prefix_of(written), init[i]));
        assert(items.drop_last() =~= init_items);
        lemma_titles_of_items(written, init, status);
        lemma_parse_item_line(written, titles.last());
        if status == written {
            assert(titles_of(items, status) =~= titles);
        }
    } else {
        assert(titles_of(items, status) =~= Seq::<Seq<u8>>::empty());
        assert(titles =~= Seq::<Seq<u8>>::empty());
    }
}

/// Reading what was written gives back the two lists: every line of the
/// text written for two lists of plain titles is well formed, and the
/// titles read for each category are the list written for it.
pub proof fn lemma_load_after_save(todos: Seq<Seq<u8>>, dones: Seq<Seq<u8>>)
    requires
        plain_titles(todos),
        plain_titles(dones),
    ensures
        ({
            let all = lines(serialize(todos, dones));
            &&& well_formed_up_to(all, all.len() as int)
            &&& titles_of(all, Status::Todo) == todos
            &&& titles_of(all, Status::Done) == dones
        }),
{
    let all = lines(serialize(todos, dones));
    let todo_items = Seq::new(todos.len(), |i: int| item_line(todo_prefix(), todos[i]));
    let done_items = Seq::new(dones.len(), |i: int| item_line(done_prefix(), dones[i]));
    let written_dones = item_lines(done_prefix(), dones);
    lemma_lines_of_item_lines(Status::Todo, todos, written_dones);
    lemma_lines_of_item_lines(Status::Done, dones, Seq::empty());
    assert(written_dones + Seq::<u8>::empty() =~= written_dones);
    assert(done_items + lines(Seq::<u8>::empty()) =~= done_items);
    assert(all == todo_items + done_items);
    lemma_titles_of_items(Status::Todo, todos, Status::Todo);
    lemma_titles_of_items(Status::Todo, todos, Status::Done);
    lemma_titles_of_items(Status::Done, dones, Status::Todo);
    lemma_titles_of_items(Status::Done, dones, Status::Done);
    lemma_concat(todo_items, done_items, Status::Todo);
    lemma_concat(todo_items, done_items, Status::Done);
    assert(titles_of(all, Status::Todo) =~= todos);
    assert(titles_of(all, Status::Done) =~= dones);
}

/// A text with plain line endings is its lines, each followed by a line
/// feed.
proof fn lemma_join_lines(text: Seq<u8>)
    requires
        plain_endings(text),
    ensures
        join(lines(text)) == text,
    decreases text.len(),
{
    if text.len() == 0 {
        assert(join(lines(text)) =~= text);
    } else {
        let n = first_line_len(text);
        lemma_first_line_len(text, n);
        assert(n < text.len()) by {
            if n == text.len() {
                assert(text[text.len() - 1] != 0x0a);
            }
        }
        let line = text.take(n);
        let rest = text.skip(n + 1);
        assert(without_carriage_return(line) == line) by {
            if n > 0 {
                assert(text[n] == 0x0a);
                assert(line.last() == text[n - 1]);
            }
        }
        assert(plain_endings(rest)) by {
            if rest.len() > 0 {
                assert(rest.last() == text.last());
            }
            assert forall|k: int| 0 < k < rest.len() && #[trigger] rest[k] == 0x0a implies rest[k
                - 1] != 0x0d by {
                assert(rest[k] == text[k + n + 1]);
                assert(rest[k - 1] == text[k + n + 1 - 1]);
            }
        }
        lemma_join_lines(rest);
        lemma_concat(seq![line], lines(rest), Status::Todo);
        assert(seq![line].drop_last() =~= Seq::<Seq<u8>>::empty());
        assert(join(seq![line].drop_last()) =~= Seq::<u8>::empty());
        assert(seq![line].last() == line);
        assert(join(seq![line]) =~= line + seq![0x0au8]);
        assert(text =~= line + seq![0x0au8] + rest);
    }
}

/// The text written for the titles of one category is the lines of that
/// category, each followed by a line feed.
proof fn lemma_item_lines_of_titles(lines: Seq<Seq<u8>>, status: Status)
    ensures
        item_lines(prefix_of(status), titles_of(lines, status)) == join(lines_of(lines, status)),
    decreases lines.len(),
{
    if lines.len() > 0 {
        let init = lines.drop_last();
        let last = lines.last();
        lemma_item_lines_of_titles(init, status);
        match parse_line(last) {
            Some((s, title)) => {
                if s == status {
                    assert(last =~= prefix_of(status) + title);
                    assert(titles_of(lines, status).drop_last() =~= titles_of(init, status));
                    assert(lines_of(lines, status).drop_last() =~= lines_of(init, status));
                }
            },
            None => {},
        }
    }
}

/// Where every line is one of what is to be done, these lines are all the
/// lines and none is left for what is done.
proof fn lemma_only_todo_lines(lines: Seq<Seq<u8>>)
    requires
        forall|i: int|
            0 <= i < lines.len() ==> parse_line(#[trigger] lines[i]) matches Some((Status::Todo, _)),
    ensures
        lines_of(lines, Status::Todo) == lines,
        lines_of(lines, Status::Done) == Seq::<Seq<u8>>::empty(),
    decreases lines.len(),
{
    if lines.len() > 0 {
        let init = lines.drop_last();
        assert forall|i: int| 0 <= i < init.len() implies parse_line(
            #[trigger] init[i],
        ) matches Some((Status::Todo, _)) by {
            assert(init[i] == lines[i]);
        }
        lemma_only_todo_lines(init);
        assert(parse_line(lines[lines.len() - 1]) matches Some((Status::Todo, _)));
        assert(lines_of(lines, Status::Todo) =~= lines);
    } else {
        assert(lines_of(lines, Status::Todo) =~= lines);
    }
}

/// Well-formed lines that are grouped are the lines of what is to be done
/// followed by the lines of what is done.
proof fn lemma_grouped_lines(lines: Seq<Seq<u8>>)
    requires
        well_formed_up_to(lines, lines.len() as int),
        grouped(lines),
    ensures
        lines_of(lines, Status::Todo) + lines_of(lines, Status::Done) == lines,
    decreases lines.len(),
{
    if lines.len() == 0 {
        assert(lines_of(lines, Status::Todo) + lines_of(lines, Status::Done) =~= lines);
    } else {
        let init = lines.drop_last();
        let end = lines.len() - 1;
        assert forall|i: int| 0 <= i < init.len() implies parse_line(#[trigger] init[i]) is Some by {
            assert(init[i] == lines[i]);
        }
        assert(grouped(init)) by {
            assert forall|i: int, j: int| 0 <= i < j < init.len() implies !(parse_line(
                #[trigger] init[i],
            ) matches Some((Status::Done, _)) && parse_line(#[trigger] init[j]) matches Some(
                (Status::Todo, _),
            )) by {
                assert(init[i] == lines[i]);
                assert(init[j] == lines[j]);
            }
        }
        assert(parse_line(lines[end]) is Some);
        match parse_line(lines[end]) {
            Some((Status::Done, _)) => {
                lemma_grouped_lines(init);
                assert(lines_of(lines, Status::Todo) + lines_of(lines, Status::Done) =~= (lines_of(
                    init,
                    Status::Todo,
                ) + lines_of(init, Status::Done)).push(lines[end]));
            },
            Some((Status::Todo, _)) => {
                assert forall|i: int| 0 <= i < init.len() implies parse_line(
                    #[trigger] init[i],
                ) matches Some((Status::Todo, _)) by {
                    assert(init[i] == lines[i]);
                    assert(parse_line(lines[i]) is Some);
                    assert(!(parse_line(lines[i]) matches Some((Status::Done, _)) && parse_line(
                        lines[end],
                    ) matches Some((Status::Todo, _))));
                }
                lemma_only_todo_lines(init);
                assert(lines_of(lines, Status::Todo) + lines_of(lines, Status::Done) =~= init.push(
                    lines[end],
                ));
            },
            None => {},
        }
        assert(init.push(lines[end]) =~= lines);
    }
}

/// Writing what was read gives back the text, line for line, with what is
/// to be done moved before what is done: for a text with plain line endings
/// whose lines are all well formed, the text written for the lists read
/// from it holds the same lines, those of what is to be done first, each
/// group in the order it had. Where the text was grouped so, what is
/// written is the text itself.
pub proof fn lemma_save_after_load(text: Seq<u8>)
    requires
        plain_endings(text),
        well_formed_up_to(lines(text), lines(text).len() as int),
    ensures
        ({
            let all = lines(text);
            let saved = serialize(titles_of(all, Status::Todo), titles_of(all, Status::Done));
            &&& text == join(all)
            &&& saved == join(lines_of(all, Status::Todo) + lines_of(all, Status::Done))
            &&& grouped(all) ==> saved == text
        }),
{
    let all = lines(text);
    lemma_join_lines(text);
    lemma_item_lines_of_titles(all, Status::Todo);
    lemma_item_lines_of_titles(all, Status::Done);
    lemma_concat(lines_of(all, Status::Todo), lines_of(all, Status::Done), Status::Todo);
    if grouped(all) {
        lemma_grouped_lines(all);
    }
}

} // verus!
