//! The task store: the tasks in the order they were added, and the counter
//! that hands out their identifiers.

use crate::format::{parse_file, read_tasks, render, write_tasks};
use crate::store_laws::{lemma_add_well_formed, lemma_complete, lemma_first_with_id};
use crate::task::{lemma_id_fits, task_views, Task, TaskView};
use vstd::prelude::*;

verus! {

/// The position of the first of `tasks` with the identifier `id`; the length of
/// `tasks` if none has it.
pub open spec fn first_with_id(tasks: Seq<TaskView>, id: nat) -> int
    decreases tasks.len(),
{
    if tasks.len() == 0 || tasks[0].id == id {
        0
    } else {
        1 + first_with_id(tasks.skip(1), id)
    }
}

/// The identifier that follows those of `tasks`: one more than the largest of
/// them, and 1 where there is no task.
pub open spec fn next_free_id(tasks: Seq<TaskView>) -> nat
    decreases tasks.len(),
{
    if tasks.len() == 0 {
        1
    } else {
        let before = next_free_id(tasks.drop_last());
        if tasks.last().id >= before {
            tasks.last().id + 1
        } else {
            before
        }
    }
}

/// What a store is, as a mathematical value.
pub struct ManagerView {
    pub tasks: Seq<TaskView>,
    pub next_id: nat,
}

impl ManagerView {
    /// The store that holds nothing yet and numbers its first task 1.
    pub open spec fn empty() -> ManagerView {
        ManagerView { tasks: Seq::empty(), next_id: 1 }
    }

    /// The counter is just above the identifiers in use: one more than the
    /// largest of them, and 1 in a store without tasks. So it is above the
    /// identifier of every task, and the identifier that a new task gets is
    /// that of no other.
    pub open spec fn well_formed(self) -> bool {
        self.next_id == next_free_id(self.tasks)
    }

    /// The store after a task with this description has been added.
    pub open spec fn add(self, description: Seq<char>) -> ManagerView {
        ManagerView {
            tasks: self.tasks.push(
                TaskView { id: self.next_id, description, completed: false },
            ),
            next_id: self.next_id + 1,
        }
    }

    /// The position of the first task with this identifier; the number of tasks
    /// if there is none.
    pub open spec fn position_of(self, id: nat) -> int {
        first_with_id(self.tasks, id)
    }

    /// The store after the first task with this identifier has been marked as
    /// done: the same store if there is none.
    pub open spec fn complete(self, id: nat) -> ManagerView {
        let at = self.position_of(id);
        if 0 <= at < self.tasks.len() {
            ManagerView {
                tasks: self.tasks.update(at, TaskView { completed: true, ..self.tasks[at] }),
                ..self
            }
        } else {
            self
        }
    }

    /// The store that a task file stands for, `None` being the file that does
    /// not exist: the tasks of its lines, and the counter just above them.
    pub open spec fn load(contents: Option<Seq<char>>) -> ManagerView {
        match contents {
            Some(text) => ManagerView {
                tasks: parse_file(text),
                next_id: next_free_id(parse_file(text)),
            },
            None => ManagerView::empty(),
        }
    }

    /// The task file that keeps this store.
    pub open spec fn save(self) -> Seq<char> {
        render(self.tasks)
    }
}

/// The tasks of one user and the identifier that the next one will get. The
/// counter is kept in 64 bits, so that it can stand above the largest 32-bit
/// identifier.
pub struct TaskManager {
    tasks: Vec<Task>,
    next_id: u64,
}

impl View for TaskManager {
    type V = ManagerView;

    closed spec fn view(&self) -> ManagerView {
        ManagerView { tasks: task_views(self.tasks@), next_id: self.next_id as nat }
    }
}

/// The identifiers of the tasks in a store fit in 32 bits.
pub proof fn lemma_ids_fit(store: TaskManager)
    ensures
        forall|i: int| 0 <= i < store@.tasks.len() ==> (#[trigger] store@.tasks[i]).id <= u32::MAX,
{
    assert forall|i: int| 0 <= i < store@.tasks.len() implies (#[trigger] store@.tasks[i]).id
        <= u32::MAX by {
        lemma_id_fits(store.tasks@[i]);
    }
}

/// The identifier that follows those of `tasks`.
pub fn next_id_after(tasks: &Vec<Task>) -> (next_id: u64)
    ensures
        next_id == next_free_id(task_views(tasks@)),
{
    let mut next_id: u64 = 1;
    let mut at: usize = 0;
    assert(task_views(tasks@).take(0) =~= Seq::empty());
    while at < tasks.len()
        invariant
            at <= tasks.len(),
            next_id == next_free_id(task_views(tasks@).take(at as int)),
            next_id <= u32::MAX + 1,
        decreases tasks.len() - at,
    {
        let ghost seen = task_views(tasks@).take(at + 1);
        assert(seen.drop_last() =~= task_views(tasks@).take(at as int));
        assert(seen.last() == tasks@[at as int]@);
        let id: u64 = tasks[at].id() as u64;
        if id >= next_id {
            next_id = id + 1;
        }
        at += 1;
    }
    assert(task_views(tasks@).take(at as int) =~= task_views(tasks@));
    next_id
}

impl TaskManager {
    /// An empty store.
    pub fn new() -> (store: TaskManager)
        ensures
            store@ == ManagerView::empty(),
            store@.well_formed(),
    {
        let store = TaskManager { tasks: Vec::new(), next_id: 1 };
        assert(store@.tasks =~= Seq::empty());
        store
    }

    /// Adds a task that is still to be done and returns the identifier it got:
    /// the counter, which then moves on by one. The counter must not have run
    /// past the 32-bit identifiers.
    pub fn add_task(&mut self, description: String) -> (id: u32)
        requires
            old(self)@.next_id <= u32::MAX,
        ensures
            id == old(self)@.next_id,
            final(self)@ == old(self)@.add(description@),
            old(self)@.well_formed() ==> final(self)@.well_formed(),
            old(self)@.well_formed() ==> forall|i: int|
                0 <= i < old(self)@.tasks.len() ==> (#[trigger] old(self)@.tasks[i]).id != id,
    {
        proof {
            if self@.well_formed() {
                lemma_add_well_formed(self@, description@);
            }
        }
        let id: u32 = self.next_id as u32;
        let task = Task::new(id, description);
        self.next_id = self.next_id + 1;
        self.tasks.push(task);
        assert(self@.tasks =~= old(self)@.tasks.push(task@));
        id
    }

    /// The tasks, in the order in which they were added.
    pub fn list_tasks(&self) -> (tasks: &Vec<Task>)
        ensures
            task_views(tasks@) == self@.tasks,
    {
        &self.tasks
    }

    /// The identifier that the next task will get.
    pub fn next_id(&self) -> (next_id: u64)
        ensures
            next_id == self@.next_id,
    {
        self.next_id
    }

    /// Marks the first task with this identifier as done. Returns whether there
    /// is such a task; if there is none the store stays as it is.
    pub fn complete_task(&mut self, id: u32) -> (found: bool)
        ensures
            found <==> exists|i: int|
                0 <= i < old(self)@.tasks.len() && (#[trigger] old(self)@.tasks[i]).id == id,
            final(self)@ == old(self)@.complete(id as nat),
            !found ==> final(self)@ == old(self)@,
            old(self)@.well_formed() ==> final(self)@.well_formed(),
    {
        proof {
            lemma_complete(self@, id as nat);
        }
        let mut at: usize = 0;
        while at < self.tasks.len() && self.tasks[at].id() != id
            invariant
                at <= self.tasks.len(),
                forall|j: int| 0 <= j < at ==> (#[trigger] self@.tasks[j]).id != id,
            decreases self.tasks.len() - at,
        {
            at += 1;
        }
        proof {
            lemma_first_with_id(self@.tasks, id as nat, at as int);
        }
        if at < self.tasks.len() {
            assert(self@.tasks[at as int].id == id);
            self.tasks[at].complete();
            assert(self@.tasks =~= old(self)@.complete(id as nat).tasks);
            true
        } else {
            false
        }
    }

    /// The store that a task file holds. `None` stands for a file that does not
    /// exist, which is the empty store; a line that is no task is passed over.
    pub fn load(contents: Option<&str>) -> (store: TaskManager)
        ensures
            store@ == ManagerView::load(
                match contents {
                    Some(text) => Some(text@),
                    None => None,
                },
            ),
            store@.well_formed(),
    {
        match contents {
            Some(text) => {
                let tasks = read_tasks(text);
                let next_id = next_id_after(&tasks);
                TaskManager { tasks, next_id }
            },
            None => TaskManager::new(),
        }
    }

    /// The task file that keeps this store: a line for each task.
    pub fn save(&self) -> (text: String)
        ensures
            text@ == self@.save(),
    {
        write_tasks(&self.tasks)
    }
}

} // verus!
