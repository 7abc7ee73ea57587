use linux_notes::entities::{Note, TodoItem};
use linux_notes::store::AppData;

#[test]
fn add_note_appends_in_order() {
    let mut store = AppData::default();
    assert_eq!(store.notes.len(), 0);
    assert_eq!(store.todos.len(), 0);
    let a = Note::new(String::from("first"), String::from(""));
    let b = Note::new(String::from("second"), String::from(""));
    store.add_note(a);
    store.add_note(b);
    assert_eq!(store.notes.len(), 2);
    assert_eq!(store.notes[0].title, "first");
    assert_eq!(store.notes[1].title, "second");
}

#[test]
fn remove_note_drops_only_the_matching_record() {
    let mut store = AppData::default();
    let a = Note::new(String::from("keep"), String::from(""));
    let b = Note::new(String::from("drop"), String::from(""));
    let drop_id = b.id;
    store.add_note(a);
    store.add_note(b);
    store.remove_note(drop_id);
    assert_eq!(store.notes.len(), 1);
    assert_eq!(store.notes[0].title, "keep");
}

#[test]
fn miss_operations_leave_the_store_unchanged() {
    let mut store = AppData::default();
    store.add_note(Note::new(String::from("n"), String::from("c")));
    store.add_todo(TodoItem::new(String::from("t")));
    let unknown: u128 = 0xdead_beef;
    assert_ne!(store.notes[0].id, unknown);
    assert_ne!(store.todos[0].id, unknown);
    store.remove_note(unknown);
    store.toggle_todo(unknown);
    store.remove_todo(unknown);
    assert_eq!(store.notes.len(), 1);
    assert_eq!(store.todos.len(), 1);
    assert_eq!(store.notes[0].title, "n");
    assert_eq!(store.todos[0].text, "t");
    assert!(!store.todos[0].completed);
}

#[test]
fn toggle_todo_flips_the_matching_item_only() {
    let mut store = AppData::default();
    let a = TodoItem::new(String::from("a"));
    let b = TodoItem::new(String::from("b"));
    let b_id = b.id;
    store.add_todo(a);
    store.add_todo(b);
    store.toggle_todo(b_id);
    assert!(!store.todos[0].completed);
    assert!(store.todos[1].completed);
    assert!(store.todos[1].completed_at.is_some());
}

#[test]
fn three_todos_keep_order_and_removal_preserves_the_rest() {
    let mut store = AppData::default();
    let a = TodoItem::new(String::from("A"));
    let b = TodoItem::new(String::from("B"));
    let c = TodoItem::new(String::from("C"));
    let b_id = b.id;
    store.add_todo(a);
    store.add_todo(b);
    store.add_todo(c);
    assert_eq!(store.todos.len(), 3);
    assert_eq!(store.todos[0].text, "A");
    assert_eq!(store.todos[1].text, "B");
    assert_eq!(store.todos[2].text, "C");
    store.remove_todo(b_id);
    assert_eq!(store.todos.len(), 2);
    assert_eq!(store.todos[0].text, "A");
    assert_eq!(store.todos[1].text, "C");
}
