//! What holds of the task store.

use crate::format_laws::{
    lemma_file_round_trip, lemma_malformed_last_line_dropped, lemma_malformed_line_dropped,
    lemma_reload, plain, storable,
};
use crate::text::{split, without_cr};
use crate::text_laws::ends_lines;
use crate::store::{first_with_id, lemma_ids_fit, next_free_id, ManagerView, TaskManager};
use crate::task::TaskView;
use vstd::prelude::*;

verus! {

/// `first_with_id` is the one position before which no task has the
/// identifier and at which one has it, or the length.
pub proof fn lemma_first_with_id(tasks: Seq<TaskView>, id: nat, k: int)
    requires
        0 <= k <= tasks.len(),
        forall|j: int| 0 <= j < k ==> (#[trigger] tasks[j]).id != id,
        k < tasks.len() ==> tasks[k].id == id,
    ensures
        first_with_id(tasks, id) == k,
    decreases tasks.len(),
{
    if k > 0 {
        assert forall|j: int| 0 <= j < k - 1 implies (#[trigger] tasks.skip(1)[j]).id != id by {
            assert(tasks.skip(1)[j] == tasks[j + 1]);
        }
        lemma_first_with_id(tasks.skip(1), id, k - 1);
    }
}

/// `first_with_id` is a position of `tasks` or their number; the task there has
/// the identifier, and no task before it has.
pub proof fn lemma_first_with_id_bounds(tasks: Seq<TaskView>, id: nat)
    ensures
        0 <= first_with_id(tasks, id) <= tasks.len(),
        first_with_id(tasks, id) < tasks.len() ==> tasks[first_with_id(tasks, id)].id == id,
        forall|j: int| 0 <= j < first_with_id(tasks, id) ==> (#[trigger] tasks[j]).id != id,
    decreases tasks.len(),
{
    if tasks.len() == 0 || tasks[0].id == id {
    } else {
        lemma_first_with_id_bounds(tasks.skip(1), id);
        assert forall|j: int| 0 <= j < first_with_id(tasks, id) implies (#[trigger] tasks[j]).id
            != id by {
            if j > 0 {
                assert(tasks.skip(1)[j - 1] == tasks[j]);
            }
        }
    }
}

/// `next_free_id` is above every identifier in use, and is the least such
/// number that is not 0.
pub proof fn lemma_next_free_id(tasks: Seq<TaskView>)
    ensures
        next_free_id(tasks) >= 1,
        forall|i: int| 0 <= i < tasks.len() ==> (#[trigger] tasks[i]).id < next_free_id(tasks),
        next_free_id(tasks) == 1 || exists|i: int|
            0 <= i < tasks.len() && (#[trigger] tasks[i]).id + 1 == next_free_id(tasks),
    decreases tasks.len(),
{
    if tasks.len() > 0 {
        let front = tasks.drop_last();
        lemma_next_free_id(front);
        assert forall|i: int| 0 <= i < tasks.len() implies (#[trigger] tasks[i]).id
            < next_free_id(tasks) by {
            if i < front.len() {
                assert(front[i] == tasks[i]);
            }
        }
        if next_free_id(tasks) != 1 {
            if tasks.last().id >= next_free_id(front) {
                assert(tasks[tasks.len() - 1].id + 1 == next_free_id(tasks));
            } else {
                let i = choose|i: int|
                    0 <= i < front.len() && (#[trigger] front[i]).id + 1 == next_free_id(front);
                assert(tasks[i] == front[i]);
            }
        }
    }
}

/// `next_free_id` looks at the identifiers only.
pub proof fn lemma_next_free_id_same_ids(first: Seq<TaskView>, second: Seq<TaskView>)
    requires
        first.len() == second.len(),
        forall|i: int| 0 <= i < first.len() ==> (#[trigger] first[i]).id == second[i].id,
    ensures
        next_free_id(first) == next_free_id(second),
    decreases first.len(),
{
    if first.len() > 0 {
        assert(first.last().id == first[first.len() - 1].id);
        assert forall|i: int| 0 <= i < first.drop_last().len() implies (
        #[trigger] first.drop_last()[i]).id == second.drop_last()[i].id by {
            assert(first.drop_last()[i] == first[i]);
        }
        lemma_next_free_id_same_ids(first.drop_last(), second.drop_last());
    }
}

/// The counter of a well-formed store is at least 1 and above the identifier
/// of every task.
pub proof fn lemma_counter_above_ids(store: ManagerView)
    requires
        store.well_formed(),
    ensures
        store.next_id >= 1,
        forall|i: int| 0 <= i < store.tasks.len() ==> (#[trigger] store.tasks[i]).id < store.next_id,
{
    lemma_next_free_id(store.tasks);
}

/// The empty store is well formed, and so is every store that a file stands
/// for.
pub proof fn lemma_load_well_formed(contents: Option<Seq<char>>)
    ensures
        ManagerView::empty().well_formed(),
        ManagerView::load(contents).well_formed(),
{
}

/// Adding a task keeps a store well formed, and the identifier that the task
/// gets is that of no task before it.
pub proof fn lemma_add_well_formed(store: ManagerView, description: Seq<char>)
    requires
        store.well_formed(),
    ensures
        store.add(description).well_formed(),
        forall|i: int| 0 <= i < store.tasks.len() ==> (#[trigger] store.tasks[i]).id != store.next_id,
{
    lemma_next_free_id(store.tasks);
    assert(store.add(description).tasks.drop_last() =~= store.tasks);
}

/// What marking a task as done changes: the first task with the identifier
/// gets its flag set, and nothing else differs. Without such a task the store
/// stays as it is. A well-formed store stays well formed.
pub proof fn lemma_complete(store: ManagerView, id: nat)
    ensures
        store.complete(id).tasks.len() == store.tasks.len(),
        store.complete(id).next_id == store.next_id,
        0 <= store.position_of(id) <= store.tasks.len(),
        forall|j: int| 0 <= j < store.position_of(id) ==> (#[trigger] store.tasks[j]).id != id,
        store.position_of(id) < store.tasks.len() ==> {
            &&& store.tasks[store.position_of(id)].id == id
            &&& store.complete(id).tasks[store.position_of(id)] == (TaskView {
                completed: true,
                ..store.tasks[store.position_of(id)]
            })
        },
        forall|j: int|
            0 <= j < store.tasks.len() && j != store.position_of(id) ==> (
            #[trigger] store.complete(id).tasks[j]) == store.tasks[j],
        store.position_of(id) == store.tasks.len() ==> store.complete(id) == store,
        store.well_formed() ==> store.complete(id).well_formed(),
{
    lemma_first_with_id_bounds(store.tasks, id);
    lemma_next_free_id_same_ids(store.complete(id).tasks, store.tasks);
}

/// Marking a task as done twice is the same as marking it once.
pub proof fn lemma_complete_twice(store: ManagerView, id: nat)
    ensures
        store.complete(id).complete(id) == store.complete(id),
{
    lemma_complete(store, id);
    let once = store.complete(id);
    let at = store.position_of(id);
    if at < store.tasks.len() {
        assert forall|j: int| 0 <= j < at implies (#[trigger] once.tasks[j]).id != id by {
            assert(once.tasks[j] == store.tasks[j]);
        }
        lemma_first_with_id(once.tasks, id, at);
        assert(once.complete(id).tasks =~= once.tasks);
    }
}

/// Saving a store and loading what was saved gives the same tasks, in the
/// same order, provided no description holds a comma or a line feed. The
/// counter that comes back is the one just above the identifiers in use, so
/// a well-formed store comes back whole.
pub proof fn lemma_save_load(store: TaskManager)
    requires
        forall|i: int| 0 <= i < store@.tasks.len() ==> plain((#[trigger] store@.tasks[i]).description),
    ensures
        ManagerView::load(Some(store@.save())).tasks == store@.tasks,
        ManagerView::load(Some(store@.save())).next_id == next_free_id(store@.tasks),
        store@.well_formed() ==> ManagerView::load(Some(store@.save())) == store@,
{
    let tasks = store@.tasks;
    lemma_ids_fit(store);
    assert forall|i: int| 0 <= i < tasks.len() implies storable(#[trigger] tasks[i]) by {
        assert(plain(tasks[i].description));
    }
    lemma_file_round_trip(tasks);
}

/// Loading a file, saving the store and loading what was saved gives the
/// store that the file stood for, whatever the file holds.
pub proof fn lemma_load_save_load(text: Seq<char>)
    ensures
        ManagerView::load(Some(ManagerView::load(Some(text)).save())) == ManagerView::load(
            Some(text),
        ),
{
    lemma_reload(text);
}

/// A line that commas do not part into exactly three fields changes nothing
/// in the store that a file stands for: neither the tasks of the other lines
/// nor the counter. `before` is made of whole lines; `line` is the text of the
/// line, without a line feed. It may be ended by a line feed and followed by
/// more lines, or be the last line and lack the line feed.
pub proof fn lemma_load_drops_malformed_line(
    before: Seq<char>,
    line: Seq<char>,
    after: Seq<char>,
)
    requires
        ends_lines(before),
        !line.contains('\n'),
    ensures
        split(without_cr(line), ',').len() != 3 ==> ManagerView::load(
            Some(before + line + seq!['\n'] + after),
        ) == ManagerView::load(Some(before + after)),
        split(line, ',').len() != 3 ==> ManagerView::load(Some(before + line))
            == ManagerView::load(Some(before)),
{
    if split(without_cr(line), ',').len() != 3 {
        lemma_malformed_line_dropped(before, line, after);
    }
    if split(line, ',').len() != 3 {
        lemma_malformed_last_line_dropped(before, line);
    }
}

} // verus!
