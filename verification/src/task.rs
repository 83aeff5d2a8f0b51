use vstd::prelude::*;

verus! {

/// Lowest priority a task may carry.
pub const PRIORITY_MIN: u8 = 1;

/// Highest priority a task may carry.
pub const PRIORITY_MAX: u8 = 3;

/// A single to-do record: a text label, a bounded priority, a completion
/// flag, and an optional category label.
pub struct Task {
    pub title: String,
    pub priority: u8,
    pub completed: bool,
    pub category: Option<String>,
}

/// The mathematical model of a task: its text fields as character sequences.
pub ghost struct TaskView {
    pub title: Seq<char>,
    pub priority: u8,
    pub completed: bool,
    pub category: Option<Seq<char>>,
}

/// The model of an optional text field.
pub open spec fn opt_text_view(c: Option<String>) -> Option<Seq<char>> {
    match c {
        Some(s) => Some(s@),
        None => None,
    }
}

impl View for Task {
    type V = TaskView;

    open spec fn view(&self) -> TaskView {
        TaskView {
            title: self.title@,
            priority: self.priority,
            completed: self.completed,
            category: opt_text_view(self.category),
        }
    }
}

/// A well-formed task has a non-empty title and a priority within bounds.
pub open spec fn task_wf(t: TaskView) -> bool {
    &&& t.title.len() > 0
    &&& PRIORITY_MIN <= t.priority <= PRIORITY_MAX
}

impl Clone for Task {
    fn clone(&self) -> (r: Self)
        ensures
            r@ == self@,
    {
        Task {
            title: self.title.clone(),
            priority: self.priority,
            completed: self.completed,
            category: match &self.category {
                Some(c) => Some(c.clone()),
                None => None,
            },
        }
    }
}

/// Why a task could not be added to the store.
#[derive(Clone, Copy, Debug, PartialEq, Eq, Structural)]
pub enum TodoError {
    /// The supplied title was empty.
    EmptyTitle,
    /// The supplied priority was outside the accepted bounds.
    InvalidPriority,
}

/// Why a persisted snapshot could not be loaded.
#[derive(Clone, Copy, Debug, PartialEq, Eq, Structural)]
pub enum LoadError {
    /// The persisted text was not a valid snapshot of a task collection.
    Malformed,
}

} // verus!
