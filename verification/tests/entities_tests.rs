use linux_notes::entities::{Note, TodoItem};

#[test]
fn note_create_sets_equal_timestamps() {
    let n = Note::new(String::from("a"), String::from("b"));
    assert_eq!(n.title, "a");
    assert_eq!(n.content, "b");
    assert_eq!(n.created_at, n.updated_at);
}

#[test]
fn note_create_draws_distinct_ids() {
    let a = Note::new(String::from("x"), String::from(""));
    let b = Note::new(String::from("x"), String::from(""));
    assert_ne!(a.id, b.id);
}

#[test]
fn note_update_replaces_fields_and_keeps_identity() {
    let mut n = Note::new(String::from("old title"), String::from("old content"));
    let id = n.id;
    let created = n.created_at;
    let before = n.updated_at;
    n.update(String::from("new title"), String::from("new content"));
    assert_eq!(n.title, "new title");
    assert_eq!(n.content, "new content");
    assert_eq!(n.id, id);
    assert_eq!(n.created_at, created);
    assert!(n.updated_at >= before);
}

#[test]
fn note_update_at_stamps_given_instant() {
    let mut n = Note::new(String::from("t"), String::from("c"));
    n.update_at(String::from("t2"), String::from("c2"), 1_234_567);
    assert_eq!(n.updated_at, 1_234_567);
    assert_eq!(n.title, "t2");
    assert_eq!(n.content, "c2");
}

#[test]
fn todo_create_starts_open() {
    let t = TodoItem::new(String::from("chore"));
    assert_eq!(t.text, "chore");
    assert!(!t.completed);
    assert!(t.completed_at.is_none());
}

#[test]
fn todo_toggle_alternates_completion() {
    let mut t = TodoItem::new(String::from("chore"));
    t.toggle_completed();
    assert!(t.completed);
    assert!(t.completed_at.is_some());
    t.toggle_completed();
    assert!(!t.completed);
    assert!(t.completed_at.is_none());
    t.toggle_completed();
    assert!(t.completed);
    assert!(t.completed_at.is_some());
}

#[test]
fn todo_toggle_at_records_latest_transition() {
    let mut t = TodoItem::new(String::from("chore"));
    t.toggle_completed_at(50);
    assert_eq!(t.completed_at, Some(50));
    t.toggle_completed_at(60);
    assert_eq!(t.completed_at, None);
    t.toggle_completed_at(70);
    assert_eq!(t.completed_at, Some(70));
}
