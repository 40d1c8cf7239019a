//! The task file: one task per line, written as `id,description,completed`.

use crate::task::{task_views, Task, TaskView};
use crate::text::{
    chars_of, decimal, find_char, lines, parse_u32_in, parse_u32_spec, push_char, push_decimal,
    split, string_of, without_cr,
};
use crate::text_laws::lemma_split_nonempty;
use vstd::prelude::*;
use vstd::string::StringExecFns;

verus! {

/// The text that says a task is done.
pub open spec fn true_text() -> Seq<char> {
    seq!['t', 'r', 'u', 'e']
}

/// The text that says a task is still to be done.
pub open spec fn false_text() -> Seq<char> {
    seq!['f', 'a', 'l', 's', 'e']
}

/// The identifier that a first field stands for: its number, and 0 where it
/// is not the text of a 32-bit unsigned number.
pub open spec fn id_of(field: Seq<char>) -> nat {
    match parse_u32_spec(field) {
        Some(id) => id as nat,
        None => 0,
    }
}

/// The completion flag that a third field stands for: set by the text `true`
/// and by no other.
pub open spec fn flag_of(field: Seq<char>) -> bool {
    field =~= true_text()
}

/// The task that a line stands for. A line is a task when commas part it into
/// exactly three fields; any other line stands for nothing.
pub open spec fn parse_record(line: Seq<char>) -> Option<TaskView> {
    let fields = split(line, ',');
    if fields.len() == 3 {
        Some(TaskView { id: id_of(fields[0]), description: fields[1], completed: flag_of(fields[2]) })
    } else {
        None
    }
}

/// The tasks that a line stands for: one or none.
pub open spec fn record_of(line: Seq<char>) -> Seq<TaskView> {
    match parse_record(line) {
        Some(task) => seq![task],
        None => Seq::empty(),
    }
}

/// The tasks that the lines stand for, in the order of the lines. A line that
/// stands for no task leaves no trace.
pub open spec fn records(lines: Seq<Seq<char>>) -> Seq<TaskView>
    decreases lines.len(),
{
    if lines.len() == 0 {
        Seq::empty()
    } else {
        record_of(lines[0]) + records(lines.skip(1))
    }
}

/// The tasks that a task file holds.
pub open spec fn parse_file(text: Seq<char>) -> Seq<TaskView> {
    records(lines(text))
}

/// The text of a completion flag.
pub open spec fn flag_text(completed: bool) -> Seq<char> {
    if completed {
        true_text()
    } else {
        false_text()
    }
}

/// The line that stands for a task, without the line feed that ends it.
pub open spec fn record_text(task: TaskView) -> Seq<char> {
    decimal(task.id) + seq![','] + task.description + seq![','] + flag_text(task.completed)
}

/// The task file that holds these tasks: a line for each, in order, each ended
/// by a line feed.
pub open spec fn render(tasks: Seq<TaskView>) -> Seq<char>
    decreases tasks.len(),
{
    if tasks.len() == 0 {
        Seq::empty()
    } else {
        record_text(tasks[0]) + seq!['\n'] + render(tasks.skip(1))
    }
}

/// Whether `chars[start..end]` is the text `true`.
fn is_true_in(chars: &Vec<char>, start: usize, end: usize) -> (flag: bool)
    requires
        start <= end <= chars.len(),
    ensures
        flag == flag_of(chars@.subrange(start as int, end as int)),
{
    let ghost field = chars@.subrange(start as int, end as int);
    if end - start != 4 {
        return false;
    }
    assert(field[0] == chars@[start as int]);
    assert(field[1] == chars@[start + 1]);
    assert(field[2] == chars@[start + 2]);
    assert(field[3] == chars@[start + 3]);
    chars[start] == 't' && chars[start + 1] == 'r' && chars[start + 2] == 'u' && chars[start + 3]
        == 'e'
}

/// Reads `chars[start..end]` as one line of a task file.
pub fn parse_record_in(chars: &Vec<char>, start: usize, end: usize) -> (parsed: Option<Task>)
    requires
        start <= end <= chars.len(),
    ensures
        match parsed {
            Some(task) => parse_record(chars@.subrange(start as int, end as int)) == Some(task@),
            None => parse_record(chars@.subrange(start as int, end as int)) is None,
        },
{
    let ghost line = chars@.subrange(start as int, end as int);
    let first = find_char(chars, start, end, ',');
    if first == end {
        return None;
    }
    let ghost after_first = chars@.subrange(first + 1, end as int);
    assert(line.skip(first - start + 1) =~= after_first);
    assert(line.take(first - start) =~= chars@.subrange(start as int, first as int));
    let second = find_char(chars, first + 1, end, ',');
    if second == end {
        assert(split(after_first, ',').len() == 1);
        return None;
    }
    let ghost after_second = chars@.subrange(second + 1, end as int);
    assert(after_first.skip(second - first) =~= after_second);
    assert(after_first.take(second - first - 1) =~= chars@.subrange(first + 1, second as int));
    let third = find_char(chars, second + 1, end, ',');
    if third < end {
        proof {
            lemma_split_nonempty(after_second.skip(third - second), ',');
            assert(split(after_second, ',').len() >= 2);
            assert(split(after_first, ',').len() >= 3);
        }
        return None;
    }
    proof {
        assert(split(after_second, ',') =~= seq![after_second]);
        assert(split(after_first, ',') =~= seq![
            chars@.subrange(first + 1, second as int),
            after_second,
        ]);
        assert(split(line, ',') =~= seq![
            chars@.subrange(start as int, first as int),
            chars@.subrange(first + 1, second as int),
            after_second,
        ]);
    }
    let id: u32 = match parse_u32_in(chars, start, first) {
        Some(id) => id,
        None => 0,
    };
    let description = string_of(chars, first + 1, second);
    let mut task = Task::new(id, description);
    if is_true_in(chars, second + 1, end) {
        task.complete();
    }
    Some(task)
}

/// Reads the tasks of a task file, line by line.
pub fn read_tasks(text: &str) -> (tasks: Vec<Task>)
    ensures
        task_views(tasks@) == parse_file(text@),
{
    let chars = chars_of(text);
    let mut tasks: Vec<Task> = Vec::new();
    let mut pos: usize = 0;
    assert(chars@.skip(0) =~= chars@);
    assert(task_views(tasks@) =~= Seq::empty());
    while pos < chars.len()
        invariant
            pos <= chars.len(),
            chars@ == text@,
            parse_file(text@) == task_views(tasks@) + records(lines(chars@.skip(pos as int))),
        decreases chars.len() - pos,
    {
        let ghost rest = chars@.skip(pos as int);
        let ghost before = task_views(tasks@);
        let feed = find_char(&chars, pos, chars.len(), '\n');
        assert(chars@.subrange(pos as int, chars.len() as int) =~= rest);
        let end: usize = if feed < chars.len() && pos < feed && chars[feed - 1] == '\r' {
            feed - 1
        } else {
            feed
        };
        let next: usize = if feed < chars.len() {
            feed + 1
        } else {
            feed
        };
        let ghost line = chars@.subrange(pos as int, end as int);
        proof {
            if feed < chars.len() {
                assert(rest.take(feed - pos) =~= chars@.subrange(pos as int, feed as int));
                assert(line =~= without_cr(rest.take(feed - pos)));
                assert(rest.skip(feed - pos + 1) =~= chars@.skip(next as int));
            } else {
                assert(line =~= rest);
                assert(chars@.skip(next as int) =~= Seq::<char>::empty());
            }
            let following = lines(chars@.skip(next as int));
            assert(lines(rest) =~= seq![line] + following);
            assert((seq![line] + following).skip(1) =~= following);
            assert(records(lines(rest)) =~= record_of(line) + records(following));
        }
        match parse_record_in(&chars, pos, end) {
            Some(task) => {
                tasks.push(task);
                assert(task_views(tasks@) =~= before + record_of(line));
            },
            None => {
                assert(task_views(tasks@) =~= before + record_of(line));
            },
        }
        assert(parse_file(text@) =~= task_views(tasks@) + records(lines(chars@.skip(next as int))));
        pos = next;
    }
    assert(lines(chars@.skip(pos as int)) =~= Seq::empty());
    assert(parse_file(text@) =~= task_views(tasks@));
    tasks
}

/// Writes the line of a task, with its line feed, at the end of `out`.
pub fn write_record(out: &mut String, task: &Task)
    ensures
        final(out)@ == old(out)@ + record_text(task@) + seq!['\n'],
{
    push_decimal(out, task.id());
    push_char(out, ',');
    out.append(task.description());
    push_char(out, ',');
    if task.is_completed() {
        out.append("true");
    } else {
        out.append("false");
    }
    push_char(out, '\n');
    proof {
        reveal_strlit("true");
        reveal_strlit("false");
        assert("true"@ =~= true_text());
        assert("false"@ =~= false_text());
        assert(out@ =~= old(out)@ + record_text(task@) + seq!['\n']);
    }
}

/// The task file that holds these tasks.
pub fn write_tasks(tasks: &Vec<Task>) -> (text: String)
    ensures
        text@ == render(task_views(tasks@)),
{
    let mut text = String::new();
    let mut at: usize = 0;
    assert(task_views(tasks@).skip(0) =~= task_views(tasks@));
    while at < tasks.len()
        invariant
            at <= tasks.len(),
            render(task_views(tasks@)) == text@ + render(task_views(tasks@).skip(at as int)),
        decreases tasks.len() - at,
    {
        let ghost rest = task_views(tasks@).skip(at as int);
        assert(rest[0] == tasks@[at as int]@);
        assert(rest.skip(1) =~= task_views(tasks@).skip(at + 1));
        let ghost before = text@;
        write_record(&mut text, &tasks[at]);
        assert(before + render(rest) =~= text@ + render(rest.skip(1)));
        at += 1;
    }
    assert(render(task_views(tasks@).skip(at as int)) =~= Seq::empty());
    assert(text@ =~= render(task_views(tasks@)));
    text
}

} // verus!
