//! A single to-do entry.

use vstd::prelude::*;

verus! {

/// What a task is, as a mathematical value.
pub struct TaskView {
    pub id: nat,
    pub description: Seq<char>,
    pub completed: bool,
}

/// A to-do entry: an identifier, a free-form description and a completion flag.
#[derive(Debug)]
pub struct Task {
    id: u32,
    description: String,
    completed: bool,
}

impl View for Task {
    type V = TaskView;

    closed spec fn view(&self) -> TaskView {
        TaskView { id: self.id as nat, description: self.description@, completed: self.completed }
    }
}

/// The identifier of a task fits in 32 bits.
pub proof fn lemma_id_fits(task: Task)
    ensures
        task@.id <= u32::MAX,
{
}

/// The tasks of a list as mathematical values, in the same order.
pub open spec fn task_views(tasks: Seq<Task>) -> Seq<TaskView> {
    tasks.map_values(|task: Task| task@)
}

impl Task {
    /// A task that is still to be done.
    pub fn new(id: u32, description: String) -> (task: Task)
        ensures
            task@ == (TaskView { id: id as nat, description: description@, completed: false }),
    {
        Task { id, description, completed: false }
    }

    /// The task's identifier.
    pub fn id(&self) -> (id: u32)
        ensures
            id == self@.id,
    {
        self.id
    }

    /// The task's description.
    pub fn description(&self) -> (description: &str)
        ensures
            description@ == self@.description,
    {
        self.description.as_str()
    }

    /// Whether the task is done.
    pub fn is_completed(&self) -> (completed: bool)
        ensures
            completed == self@.completed,
    {
        self.completed
    }

    /// Marks the task as done. A task that is done stays done.
    pub fn complete(&mut self)
        ensures
            final(self)@ == (TaskView { completed: true, ..old(self)@ }),
    {
        self.completed = true;
    }
}

} // verus!
