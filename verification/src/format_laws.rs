//! What holds of the task file format.

use crate::format::{
    false_text, flag_of, flag_text, parse_file, parse_record, record_of, record_text, records,
    render, true_text,
};
use crate::task::TaskView;
use crate::text::{decimal, is_digit, lemma_first_index_of, lines, split, without_cr};
use crate::text_laws::{
    ends_lines, lemma_decimal, lemma_lines_concat, lemma_lines_first, lemma_lines_have_no_feed,
    lemma_parse_decimal, lemma_split_first, lemma_split_one, lemma_split_pieces,
};
use vstd::prelude::*;

verus! {

/// Whether a description can stand in a task file as it is: it holds neither
/// a comma nor a line feed.
pub open spec fn plain(description: Seq<char>) -> bool {
    !description.contains(',') && !description.contains('\n')
}

/// Whether a task can be kept in a task file as it is: its identifier fits in
/// 32 bits and its description is plain.
pub open spec fn storable(task: TaskView) -> bool {
    task.id <= u32::MAX && plain(task.description)
}

/// The line of a task stands for that task, provided the identifier fits in
/// 32 bits and the description holds no comma.
pub proof fn lemma_record_round_trip(task: TaskView)
    requires
        task.id <= u32::MAX,
        !task.description.contains(','),
    ensures
        parse_record(record_text(task)) == Some(task),
{
    let number = decimal(task.id);
    let flag = flag_text(task.completed);
    lemma_decimal(task.id);
    lemma_parse_decimal(task.id);
    assert(!number.contains(',')) by {
        assert forall|i: int| 0 <= i < number.len() implies number[i] != ',' by {
            assert(is_digit(number[i]));
        }
    }
    assert(!flag.contains(','));
    let tail = task.description + seq![','] + flag;
    assert(record_text(task) =~= number + seq![','] + tail);
    lemma_split_first(number, tail, ',');
    lemma_split_first(task.description, flag, ',');
    lemma_split_one(flag, ',');
    assert(split(record_text(task), ',') =~= seq![number, task.description, flag]);
    assert(flag_of(flag) == task.completed) by {
        if !task.completed {
            assert(false_text().len() != true_text().len());
        }
    }
}

/// The line of a task whose description holds no line feed is one line, and
/// has no carriage return at its end to lose.
pub proof fn lemma_record_is_line(task: TaskView)
    requires
        !task.description.contains('\n'),
    ensures
        !record_text(task).contains('\n'),
        without_cr(record_text(task)) == record_text(task),
{
    let number = decimal(task.id);
    let flag = flag_text(task.completed);
    let text = record_text(task);
    lemma_decimal(task.id);
    assert forall|i: int| 0 <= i < text.len() implies text[i] != '\n' by {
        if i < number.len() {
            assert(is_digit(number[i]));
        } else if i == number.len() {
        } else if i < number.len() + 1 + task.description.len() {
            assert(text[i] == task.description[i - number.len() - 1]);
        } else if i == number.len() + 1 + task.description.len() {
        } else {
            assert(text[i] == flag[i - number.len() - task.description.len() - 2]);
        }
    }
    assert(text.last() == flag.last());
}

/// The tasks of some lines followed by others are the tasks of the first and
/// then the tasks of the others.
pub proof fn lemma_records_concat(first: Seq<Seq<char>>, second: Seq<Seq<char>>)
    ensures
        records(first + second) == records(first) + records(second),
    decreases first.len(),
{
    if first.len() == 0 {
        assert(first + second =~= second);
        assert(records(first) + records(second) =~= records(second));
    } else {
        lemma_records_concat(first.skip(1), second);
        assert((first + second).skip(1) =~= first.skip(1) + second);
        assert(record_of(first[0]) + (records(first.skip(1)) + records(second)) =~= (record_of(
            first[0],
        ) + records(first.skip(1))) + records(second));
    }
}

/// Writing tasks to a task file and reading the file gives the same tasks, in
/// the same order, provided each of them is storable.
pub proof fn lemma_file_round_trip(tasks: Seq<TaskView>)
    requires
        forall|i: int| 0 <= i < tasks.len() ==> storable(#[trigger] tasks[i]),
    ensures
        parse_file(render(tasks)) == tasks,
    decreases tasks.len(),
{
    if tasks.len() == 0 {
        assert(records(lines(render(tasks))) =~= tasks);
    } else {
        let task = tasks[0];
        let rest = tasks.skip(1);
        assert(storable(task));
        assert forall|i: int| 0 <= i < rest.len() implies storable(#[trigger] rest[i]) by {
            assert(rest[i] == tasks[i + 1]);
        }
        lemma_file_round_trip(rest);
        lemma_record_round_trip(task);
        lemma_record_is_line(task);
        lemma_lines_first(record_text(task), render(rest));
        let following = lines(render(rest));
        assert((seq![record_text(task)] + following).skip(1) =~= following);
        assert(parse_file(render(tasks)) =~= seq![task] + rest);
        assert(seq![task] + rest =~= tasks);
    }
}

/// The tasks read from lines are storable, whatever the lines hold.
pub proof fn lemma_records_storable(lines: Seq<Seq<char>>)
    requires
        forall|i: int| 0 <= i < lines.len() ==> !(#[trigger] lines[i]).contains('\n'),
    ensures
        forall|i: int| 0 <= i < records(lines).len() ==> storable(#[trigger] records(lines)[i]),
    decreases lines.len(),
{
    if lines.len() > 0 {
        let line = lines[0];
        let rest = lines.skip(1);
        assert forall|i: int| 0 <= i < rest.len() implies !(#[trigger] rest[i]).contains(
            '\n',
        ) by {
            assert(rest[i] == lines[i + 1]);
        }
        lemma_records_storable(rest);
        lemma_split_pieces(line, ',', ',');
        lemma_split_pieces(line, ',', '\n');
        assert forall|i: int| 0 <= i < records(lines).len() implies storable(
            #[trigger] records(lines)[i],
        ) by {
            if i >= record_of(line).len() {
                assert(records(lines)[i] == records(rest)[i - record_of(line).len()]);
            } else {
                let fields = split(line, ',');
                assert(records(lines)[i].description == fields[1]);
            }
        }
    }
}

/// The tasks read from a file are storable, whatever the file holds.
pub proof fn lemma_parsed_tasks_storable(text: Seq<char>)
    ensures
        forall|i: int|
            0 <= i < parse_file(text).len() ==> storable(#[trigger] parse_file(text)[i]),
{
    lemma_lines_have_no_feed(text);
    lemma_records_storable(lines(text));
}

/// Whatever a file holds, the tasks read from it come through being written
/// and read again.
pub proof fn lemma_reload(text: Seq<char>)
    ensures
        parse_file(render(parse_file(text))) == parse_file(text),
{
    lemma_parsed_tasks_storable(text);
    lemma_file_round_trip(parse_file(text));
}

/// A line that commas do not part into exactly three fields is passed over,
/// and the tasks of the lines before and after it are read as if it were not
/// there. `before` is made of whole lines; `line` is the text of the line, up
/// to the line feed that ends it.
pub proof fn lemma_malformed_line_dropped(before: Seq<char>, line: Seq<char>, after: Seq<char>)
    requires
        ends_lines(before),
        !line.contains('\n'),
        split(without_cr(line), ',').len() != 3,
    ensures
        parse_file(before + line + seq!['\n'] + after) == parse_file(before + after),
{
    let whole = before + line + seq!['\n'] + after;
    assert(whole =~= before + (line + seq!['\n'] + after));
    lemma_lines_concat(before, line + seq!['\n'] + after);
    lemma_lines_concat(before, after);
    lemma_lines_first(line, after);
    let dropped = seq![without_cr(line)];
    assert(records(dropped) =~= Seq::empty()) by {
        assert(records(dropped.skip(1)) =~= Seq::empty());
    }
    lemma_records_concat(dropped, lines(after));
    lemma_records_concat(lines(before), dropped + lines(after));
    lemma_records_concat(lines(before), lines(after));
    assert(records(dropped) + records(lines(after)) =~= records(lines(after)));
}

/// A last line that no line feed ends is passed over in the same way.
pub proof fn lemma_malformed_last_line_dropped(before: Seq<char>, line: Seq<char>)
    requires
        ends_lines(before),
        !line.contains('\n'),
        split(line, ',').len() != 3,
    ensures
        parse_file(before + line) == parse_file(before),
{
    if line.len() == 0 {
        assert(before + line =~= before);
    } else {
        lemma_lines_concat(before, line);
        lemma_first_index_of(line, '\n', line.len() as int);
        let dropped = seq![line];
        assert(lines(line) == dropped);
        assert(records(dropped) =~= Seq::empty()) by {
            assert(records(dropped.skip(1)) =~= Seq::empty());
        }
        lemma_records_concat(lines(before), dropped);
        assert(records(lines(before)) + records(dropped) =~= records(lines(before)));
    }
}

} // verus!
