use iced_todo::todo_list::{matches_filter, Filter, Message, TodoList};

fn list_with(descriptions: &[&str]) -> TodoList {
    let mut list = TodoList::new();
    for d in descriptions {
        list.update(Message::NewTodoChanged(d.to_string()));
        list.update(Message::AddTodo);
    }
    list
}

#[test]
fn new_state_is_empty() {
    let list = TodoList::new();
    assert_eq!(list.task_count(), 0);
    assert_eq!(list.pending_input(), "");
    assert_eq!(list.active_filter(), Filter::All);
}

#[test]
fn title_is_fixed() {
    let list = TodoList::new();
    assert_eq!(list.title(), "Iced Todo List");
}

#[test]
fn new_todo_changed_replaces_input_verbatim() {
    let mut list = TodoList::new();
    list.update(Message::NewTodoChanged("  first ".to_string()));
    assert_eq!(list.pending_input(), "  first ");
    list.update(Message::NewTodoChanged("second".to_string()));
    assert_eq!(list.pending_input(), "second");
    assert_eq!(list.task_count(), 0);
}

#[test]
fn submit_empty_input_never_changes_task_count() {
    let mut list = TodoList::new();
    list.update(Message::AddTodo);
    assert_eq!(list.task_count(), 0);

    let mut list = list_with(&["Buy milk"]);
    list.update(Message::AddTodo);
    assert_eq!(list.task_count(), 1);
}

#[test]
fn submit_buy_milk_appends_task_and_clears_input() {
    let mut list = TodoList::new();
    list.update(Message::NewTodoChanged("Buy milk".to_string()));
    list.update(Message::AddTodo);
    assert_eq!(list.task_count(), 1);
    assert_eq!(list.task_description(0), "Buy milk");
    assert!(!list.task_completed(0));
    assert_eq!(list.pending_input(), "");
}

#[test]
fn toggle_twice_restores_completed_flag() {
    let mut list = list_with(&["Buy milk"]);
    assert!(!list.task_completed(0));
    list.update(Message::ToggleTodo(0));
    assert!(list.task_completed(0));
    list.update(Message::ToggleTodo(0));
    assert!(!list.task_completed(0));
}

#[test]
fn toggle_out_of_range_leaves_tasks_unchanged() {
    let mut list = list_with(&["A", "B"]);
    list.update(Message::ToggleTodo(1));
    list.update(Message::ToggleTodo(2));
    list.update(Message::ToggleTodo(usize::MAX));
    assert_eq!(list.task_count(), 2);
    assert_eq!(list.task_description(0), "A");
    assert_eq!(list.task_description(1), "B");
    assert!(!list.task_completed(0));
    assert!(list.task_completed(1));
}

#[test]
fn clear_completed_keeps_active_tasks_in_order() {
    let mut list = list_with(&["A", "B", "C"]);
    list.update(Message::ToggleTodo(1));
    list.update(Message::ClearCompleted);
    assert_eq!(list.task_count(), 2);
    assert_eq!(list.task_description(0), "A");
    assert_eq!(list.task_description(1), "C");
    assert!(!list.task_completed(0));
    assert!(!list.task_completed(1));
}

#[test]
fn clear_completed_on_empty_list_is_noop() {
    let mut list = TodoList::new();
    list.update(Message::ClearCompleted);
    assert_eq!(list.task_count(), 0);
}

#[test]
fn filter_selects_visible_tasks_without_mutating_them() {
    let mut list = list_with(&["A", "B", "C"]);
    list.update(Message::ToggleTodo(1));

    assert_eq!(list.visible_indices(), vec![0, 1, 2]);

    list.update(Message::FilterChanged(Filter::Active));
    assert_eq!(list.active_filter(), Filter::Active);
    assert_eq!(list.visible_indices(), vec![0, 2]);

    list.update(Message::FilterChanged(Filter::Completed));
    assert_eq!(list.active_filter(), Filter::Completed);
    assert_eq!(list.visible_indices(), vec![1]);

    assert_eq!(list.task_count(), 3);
    assert_eq!(list.task_description(0), "A");
    assert_eq!(list.task_description(1), "B");
    assert_eq!(list.task_description(2), "C");
    assert!(!list.task_completed(0));
    assert!(list.task_completed(1));
    assert!(!list.task_completed(2));
}

#[test]
fn matches_filter_exact_table() {
    assert!(matches_filter(Filter::All, false));
    assert!(matches_filter(Filter::All, true));
    assert!(matches_filter(Filter::Active, false));
    assert!(!matches_filter(Filter::Active, true));
    assert!(!matches_filter(Filter::Completed, false));
    assert!(matches_filter(Filter::Completed, true));
}
