use vstd::prelude::*;

verus! {

/// A single to-do entry: free-text description plus a completed flag.
pub struct TodoItem {
    pub description: String,
    pub completed: bool,
}

/// Mathematical model of a task: the description as a sequence of
/// characters together with the completed flag.
#[verifier::ext_equal]
pub struct TaskView {
    pub description: Seq<char>,
    pub completed: bool,
}

impl View for TodoItem {
    type V = TaskView;

    open spec fn view(&self) -> TaskView {
        TaskView { description: self.description@, completed: self.completed }
    }
}

/// The model of a task list: each stored task, in order, as its model.
pub open spec fn views_of(tasks: Seq<TodoItem>) -> Seq<TaskView> {
    tasks.map_values(|t: TodoItem| t@)
}

} // verus!
