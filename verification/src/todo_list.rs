use vstd::prelude::*;

use crate::todo_item::{TaskView, TodoItem, views_of};

verus! {

/// Which tasks the view shows; never affects the stored tasks.
#[derive(Debug, Clone, Copy, PartialEq, Eq, Structural)]
pub enum Filter {
    All,
    Active,
    Completed,
}

/// The events a user can raise; the only way the state ever changes.
#[derive(Debug, Clone)]
pub enum Message {
    NewTodoChanged(String),
    AddTodo,
    ToggleTodo(usize),
    FilterChanged(Filter),
    ClearCompleted,
}

/// The application state: pending text input, the ordered task list,
/// and the current display filter.
pub struct TodoList {
    new_todo: String,
    todos: Vec<TodoItem>,
    filter: Filter,
}

/// Mathematical model of the application state.
#[verifier::ext_equal]
pub struct TodoListView {
    pub new_todo: Seq<char>,
    pub todos: Seq<TaskView>,
    pub filter: Filter,
}

impl View for TodoList {
    type V = TodoListView;

    closed spec fn view(&self) -> TodoListView {
        TodoListView {
            new_todo: self.new_todo@,
            todos: views_of(self.todos@),
            filter: self.filter,
        }
    }
}

/// Whether a task with the given completed flag is shown under a filter:
/// `All` shows everything, `Active` the unfinished, `Completed` the finished.
pub open spec fn spec_matches_filter(f: Filter, completed: bool) -> bool {
    match f {
        Filter::All => true,
        Filter::Active => !completed,
        Filter::Completed => completed,
    }
}

/// Toggling flips the completed flag of the task at `index` and changes
/// nothing else; an out-of-range index leaves the list as it was.
pub open spec fn spec_toggle(tasks: Seq<TaskView>, index: int) -> Seq<TaskView> {
    if 0 <= index < tasks.len() {
        tasks.update(
            index,
            TaskView { description: tasks[index].description, completed: !tasks[index].completed },
        )
    } else {
        tasks
    }
}

/// The subsequence of tasks that are not completed, in their original order.
pub open spec fn spec_clear_completed(tasks: Seq<TaskView>) -> Seq<TaskView>
    decreases tasks.len(),
{
    if tasks.len() == 0 {
        Seq::empty()
    } else if tasks.last().completed {
        spec_clear_completed(tasks.drop_last())
    } else {
        spec_clear_completed(tasks.drop_last()).push(tasks.last())
    }
}

/// Submitting non-empty pending input appends it as a fresh, uncompleted
/// task and clears the input; empty input is a silent no-op.
pub open spec fn spec_add_todo(s: TodoListView) -> TodoListView {
    if s.new_todo.len() == 0 {
        s
    } else {
        TodoListView {
            new_todo: Seq::empty(),
            todos: s.todos.push(TaskView { description: s.new_todo, completed: false }),
            filter: s.filter,
        }
    }
}

/// The state transition function: the new state after one event is applied
/// to the current state. Every event either applies or is silently ignored;
/// there is no error path.
pub open spec fn spec_update(s: TodoListView, message: Message) -> TodoListView {
    match message {
        Message::NewTodoChanged(value) => TodoListView {
            new_todo: value@,
            todos: s.todos,
            filter: s.filter,
        },
        Message::AddTodo => spec_add_todo(s),
        Message::ToggleTodo(index) => TodoListView {
            new_todo: s.new_todo,
            todos: spec_toggle(s.todos, index as int),
            filter: s.filter,
        },
        Message::FilterChanged(f) => TodoListView {
            new_todo: s.new_todo,
            todos: s.todos,
            filter: f,
        },
        Message::ClearCompleted => TodoListView {
            new_todo: s.new_todo,
            todos: spec_clear_completed(s.todos),
            filter: s.filter,
        },
    }
}

/// The positions, in increasing order, of the tasks that the view shows
/// under the given filter.
pub open spec fn spec_visible_indices(tasks: Seq<TaskView>, f: Filter) -> Seq<int>
    decreases tasks.len(),
{
    if tasks.len() == 0 {
        Seq::empty()
    } else if spec_matches_filter(f, tasks.last().completed) {
        spec_visible_indices(tasks.drop_last(), f).push(tasks.len() - 1)
    } else {
        spec_visible_indices(tasks.drop_last(), f)
    }
}

/// A sequence of positions as mathematical integers.
pub open spec fn indices_of(s: Seq<usize>) -> Seq<int> {
    s.map_values(|u: usize| u as int)
}

/// Whether a task with the given completed flag is shown under a filter.
pub fn matches_filter(f: Filter, completed: bool) -> (r: bool)
    ensures
        r == spec_matches_filter(f, completed),
{
    match f {
        Filter::All => true,
        Filter::Active => !completed,
        Filter::Completed => completed,
    }
}

/// The freshly started state: no pending input, no tasks, filter `All`.
pub open spec fn spec_init() -> TodoListView {
    TodoListView {
        new_todo: Seq::empty(),
        todos: Seq::empty(),
        filter: Filter::All,
    }
}

impl TodoList {
    /// A fresh, empty to-do list.
    pub fn new() -> (r: Self)
        ensures
            r@ == spec_init(),
    {
        let r = TodoList {
            new_todo: String::new(),
            todos: Vec::new(),
            filter: Filter::All,
        };
        proof {
            assert(r@ =~~= spec_init());
        }
        r
    }

    /// Apply one user event to the state, exactly as `spec_update` describes.
    pub fn update(&mut self, message: Message)
        ensures
            final(self)@ == spec_update(old(self)@, message),
    {
        let ghost m = message;
        match message {
            Message::NewTodoChanged(value) => {
                self.new_todo = value;
                proof {
                    assert(self@ =~~= spec_update(old(self)@, m));
                }
            },
            Message::AddTodo => {
                if !self.new_todo.as_str().is_empty() {
                    let description = self.new_todo.clone();
                    self.todos.push(TodoItem { description, completed: false });
                    self.new_todo = String::new();
                    proof {
                        assert(self@ =~~= spec_update(old(self)@, m));
                    }
                } else {
                    proof {
                        assert(self@ =~~= spec_update(old(self)@, m));
                    }
                }
            },
            Message::ToggleTodo(index) => {
                if index < self.todos.len() {
                    let item = &mut self.todos[index];
                    item.completed = !item.completed;
                    proof {
                        assert(self@ =~~= spec_update(old(self)@, m));
                    }
                } else {
                    proof {
                        assert(self@ =~~= spec_update(old(self)@, m));
                    }
                }
            },
            Message::FilterChanged(f) => {
                self.filter = f;
                proof {
                    assert(self@ =~~= spec_update(old(self)@, m));
                }
            },
            Message::ClearCompleted => {
                let mut source: Vec<TodoItem> = Vec::new();
                core::mem::swap(&mut self.todos, &mut source);
                let ghost all = views_of(source@);
                let ghost mut done: int = 0;
                proof {
                    assert(views_of(self.todos@) =~= Seq::<TaskView>::empty());
                    assert(spec_clear_completed(all.subrange(0, 0)) =~= Seq::<TaskView>::empty());
                    assert(views_of(source@) =~= all.skip(0));
                }
                while source.len() > 0
                    invariant
                        0 <= done <= all.len(),
                        views_of(source@) == all.skip(done),
                        views_of(self.todos@) == spec_clear_completed(all.subrange(0, done)),
                        self.new_todo@ == old(self).new_todo@,
                        self.filter == old(self).filter,
                    decreases source@.len(),
                {
                    let ghost source_pre = source@;
                    let t = source.remove(0);
                    proof {
                        assert(views_of(source_pre).len() == source_pre.len());
                        assert(views_of(source_pre)[0] == source_pre[0]@);
                        assert(all.skip(done)[0] == all[done]);
                        assert(t@ == all[done]);
                        assert(source@ =~= source_pre.skip(1));
                        assert forall|j: int| 0 <= j < source@.len() implies views_of(source@)[j]
                            == all.skip(done + 1)[j] by {
                            assert(views_of(source@)[j] == source@[j]@);
                            assert(source@[j] == source_pre[j + 1]);
                            assert(views_of(source_pre)[j + 1] == source_pre[j + 1]@);
                            assert(all.skip(done)[j + 1] == all[done + j + 1]);
                            assert(all.skip(done + 1)[j] == all[done + 1 + j]);
                        };
                        assert(views_of(source@) =~= all.skip(done + 1));
                    }
                    if !t.completed {
                        self.todos.push(t);
                    }
                    proof {
                        let prefix1 = all.subrange(0, done + 1);
                        assert(prefix1.drop_last() =~= all.subrange(0, done));
                        assert(prefix1.last() == all[done]);
                        if t.completed {
                            assert(views_of(self.todos@) == spec_clear_completed(prefix1));
                        } else {
                            assert(views_of(self.todos@) =~= spec_clear_completed(
                                all.subrange(0, done),
                            ).push(t@));
                            assert(views_of(self.todos@) == spec_clear_completed(prefix1));
                        }
                        done = done + 1;
                    }
                }
                proof {
                    assert(all.skip(done).len() == 0);
                    assert(done == all.len());
                    assert(all.subrange(0, all.len() as int) =~= all);
                    assert(self@ =~~= spec_update(old(self)@, m));
                }
            },
        }
    }

    /// The window title; a fixed string.
    pub fn title(&self) -> (r: String)
        ensures
            r@ == "Iced Todo List"@,
    {
        "Iced Todo List".to_owned()
    }

    /// The positions of the tasks the view shows under the current filter,
    /// in increasing order. A pure read: the state is not changed.
    pub fn visible_indices(&self) -> (r: Vec<usize>)
        ensures
            indices_of(r@) == spec_visible_indices(self@.todos, self@.filter),
    {
        let mut r: Vec<usize> = Vec::new();
        let mut i: usize = 0;
        proof {
            assert(indices_of(r@) =~= Seq::<int>::empty());
            assert(self@.todos.subrange(0, 0) =~= Seq::<TaskView>::empty());
        }
        while i < self.todos.len()
            invariant
                i <= self.todos@.len(),
                indices_of(r@) == spec_visible_indices(
                    views_of(self.todos@).subrange(0, i as int),
                    self.filter,
                ),
            decreases self.todos@.len() - i,
        {
            let ghost r_pre = r@;
            if matches_filter(self.filter, self.todos[i].completed) {
                r.push(i);
            }
            proof {
                let tasks = views_of(self.todos@);
                let prefix1 = tasks.subrange(0, i + 1);
                assert(prefix1.drop_last() =~= tasks.subrange(0, i as int));
                assert(prefix1.last() == tasks[i as int]);
                assert(tasks[i as int].completed == self.todos@[i as int].completed);
                if spec_matches_filter(self.filter, tasks[i as int].completed) {
                    assert(indices_of(r@) =~= indices_of(r_pre).push(i as int));
                    assert(indices_of(r@) == spec_visible_indices(prefix1, self.filter));
                } else {
                    assert(indices_of(r@) == spec_visible_indices(prefix1, self.filter));
                }
            }
            i = i + 1;
        }
        proof {
            assert(views_of(self.todos@).subrange(0, self.todos@.len() as int) =~= views_of(
                self.todos@,
            ));
        }
        r
    }

    /// The text currently sitting in the input field.
    pub fn pending_input(&self) -> (r: &String)
        ensures
            r@ == self@.new_todo,
    {
        &self.new_todo
    }

    /// The current display filter.
    pub fn active_filter(&self) -> (r: Filter)
        ensures
            r == self@.filter,
    {
        self.filter
    }

    /// How many tasks are stored, whatever the filter shows.
    pub fn task_count(&self) -> (r: usize)
        ensures
            r == self@.todos.len(),
    {
        self.todos.len()
    }

    /// The description of the task at `index`.
    pub fn task_description(&self, index: usize) -> (r: &String)
        requires
            index < self@.todos.len(),
        ensures
            r@ == self@.todos[index as int].description,
    {
        &self.todos[index].description
    }

    /// The completed flag of the task at `index`.
    pub fn task_completed(&self, index: usize) -> (r: bool)
        requires
            index < self@.todos.len(),
        ensures
            r == self@.todos[index as int].completed,
    {
        self.todos[index].completed
    }
}

/// Law: submitting while the pending input is empty changes nothing at all;
/// in particular the number of stored tasks stays the same.
pub proof fn lemma_add_todo_empty_input(s: TodoListView)
    requires
        s.new_todo.len() == 0,
    ensures
        spec_update(s, Message::AddTodo) == s,
        spec_update(s, Message::AddTodo).todos.len() == s.todos.len(),
{
}

/// Law: toggling the same position twice restores the state exactly
/// (toggling is an involution).
pub proof fn lemma_toggle_involution(s: TodoListView, index: usize)
    ensures
        spec_update(spec_update(s, Message::ToggleTodo(index)), Message::ToggleTodo(index)) == s,
{
    let i = index as int;
    let once = spec_update(s, Message::ToggleTodo(index));
    let twice = spec_update(once, Message::ToggleTodo(index));
    if 0 <= i < s.todos.len() {
        assert(twice.todos =~~= s.todos);
    }
    assert(twice =~~= s);
}

/// Law: toggling an out-of-range position leaves the state unchanged.
pub proof fn lemma_toggle_out_of_range(s: TodoListView, index: usize)
    requires
        index >= s.todos.len(),
    ensures
        spec_update(s, Message::ToggleTodo(index)) == s,
{
    assert(spec_update(s, Message::ToggleTodo(index)) =~~= s);
}

/// Law: clearing keeps no completed task, keeps every active task, and
/// never grows the list. (That the survivors keep their relative order is
/// what `spec_clear_completed` itself states.)
pub proof fn lemma_clear_completed_active(tasks: Seq<TaskView>)
    ensures
        spec_clear_completed(tasks).len() <= tasks.len(),
        forall|k: int|
            0 <= k < spec_clear_completed(tasks).len() ==> !(#[trigger] spec_clear_completed(
                tasks,
            )[k]).completed,
        forall|i: int|
            0 <= i < tasks.len() && !(#[trigger] tasks[i]).completed ==> spec_clear_completed(
                tasks,
            ).contains(tasks[i]),
    decreases tasks.len(),
{
    let out = spec_clear_completed(tasks);
    if tasks.len() == 0 {
    } else {
        let prefix = tasks.drop_last();
        let rec = spec_clear_completed(prefix);
        lemma_clear_completed_active(prefix);
        assert forall|i: int|
            0 <= i < tasks.len() && !(#[trigger] tasks[i]).completed implies out.contains(
            tasks[i],
        ) by {
            if i < tasks.len() - 1 {
                assert(prefix[i] == tasks[i]);
                assert(rec.contains(tasks[i]));
                let w = choose|w: int| 0 <= w < rec.len() && rec[w] == tasks[i];
                assert(out[w] == tasks[i]);
            } else {
                assert(out[out.len() - 1] == tasks[i]);
            }
        };
    }
}

/// Law: the view shows exactly the tasks whose completed flag matches the
/// filter — every shown position is in range and matches, every matching
/// position is shown, and positions come out in increasing order.
pub proof fn lemma_visible_indices_characterize(tasks: Seq<TaskView>, f: Filter)
    ensures
        forall|k: int|
            0 <= k < spec_visible_indices(tasks, f).len() ==> 0 <= #[trigger] spec_visible_indices(
                tasks,
                f,
            )[k] < tasks.len(),
        forall|k: int|
            0 <= k < spec_visible_indices(tasks, f).len() ==> spec_matches_filter(
                f,
                tasks[#[trigger] spec_visible_indices(tasks, f)[k]].completed,
            ),
        forall|i: int|
            0 <= i < tasks.len() && spec_matches_filter(f, (#[trigger] tasks[i]).completed)
                ==> spec_visible_indices(tasks, f).contains(i),
        forall|k1: int, k2: int|
            0 <= k1 < k2 < spec_visible_indices(tasks, f).len() ==> #[trigger] spec_visible_indices(
                tasks,
                f,
            )[k1] < #[trigger] spec_visible_indices(tasks, f)[k2],
    decreases tasks.len(),
{
    let vis = spec_visible_indices(tasks, f);
    if tasks.len() == 0 {
    } else {
        let prefix = tasks.drop_last();
        let rec = spec_visible_indices(prefix, f);
        lemma_visible_indices_characterize(prefix, f);
        assert forall|i: int|
            0 <= i < tasks.len() && spec_matches_filter(
                f,
                (#[trigger] tasks[i]).completed,
            ) implies vis.contains(i) by {
            if i < tasks.len() - 1 {
                assert(prefix[i] == tasks[i]);
                assert(rec.contains(i));
                let w = choose|w: int| 0 <= w < rec.len() && rec[w] == i;
                assert(vis[w] == i);
            } else {
                assert(spec_matches_filter(f, tasks.last().completed));
                assert(vis[vis.len() - 1] == i);
            }
        };
    }
}

/// Law: changing the filter changes what is shown, never what is stored —
/// the task list and the pending input stay exactly as they were.
pub proof fn lemma_filter_changed_preserves_tasks(s: TodoListView, f: Filter)
    ensures
        spec_update(s, Message::FilterChanged(f)).todos == s.todos,
        spec_update(s, Message::FilterChanged(f)).new_todo == s.new_todo,
        spec_update(s, Message::FilterChanged(f)).filter == f,
{
}

} // verus!
