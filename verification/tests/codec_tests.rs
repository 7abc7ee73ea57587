use linux_notes::entities::{Note, TodoItem};
use linux_notes::store::AppData;

fn notes_equal(a: &Note, b: &Note) -> bool {
    a.id == b.id && a.title == b.title && a.content == b.content && a.created_at == b.created_at
        && a.updated_at == b.updated_at
}

fn todos_equal(a: &TodoItem, b: &TodoItem) -> bool {
    a.id == b.id && a.text == b.text && a.completed == b.completed
        && a.created_at == b.created_at && a.completed_at == b.completed_at
}

#[test]
fn empty_store_serializes_to_the_bare_object() {
    let store = AppData::default();
    assert_eq!(store.to_json(), "{\"notes\":[],\"todos\":[]}");
}

#[test]
fn known_note_serializes_to_the_exact_text() {
    let mut store = AppData::default();
    store.add_note(Note {
        id: 0,
        title: String::from("t"),
        content: String::from("c"),
        created_at: 0,
        updated_at: 0,
    });
    let expected = "{\"notes\":[{\"id\":\"00000000-0000-0000-0000-000000000000\",\"title\":\"t\",\"content\":\"c\",\"created_at\":\"1970-01-01T00:00:00+00:00\",\"updated_at\":\"1970-01-01T00:00:00+00:00\"}],\"todos\":[]}";
    assert_eq!(store.to_json(), expected);
}

#[test]
fn known_text_parses_to_the_exact_fields() {
    let text = "{\"notes\":[{\"id\":\"00000000-0000-0000-0000-000000000001\",\"title\":\"a\",\"content\":\"b\",\"created_at\":\"1970-01-01T00:00:01+00:00\",\"updated_at\":\"1970-01-01T00:00:02+00:00\"}],\"todos\":[]}";
    let store = AppData::from_json(text).expect("well-formed text must parse");
    assert_eq!(store.notes.len(), 1);
    assert_eq!(store.notes[0].id, 1);
    assert_eq!(store.notes[0].title, "a");
    assert_eq!(store.notes[0].content, "b");
    assert_eq!(store.notes[0].created_at, 1000);
    assert_eq!(store.notes[0].updated_at, 2000);
}

#[test]
fn escapes_appear_in_the_text_and_survive_the_round_trip() {
    let mut store = AppData::default();
    store.add_note(Note {
        id: 7,
        title: String::from("quote \" backslash \\ done"),
        content: String::from("line\nbreak\ttab\rreturn"),
        created_at: 1_700_000_000_123,
        updated_at: 1_700_000_000_456,
    });
    let text = store.to_json();
    assert!(text.contains("quote \\\" backslash \\\\ done"));
    assert!(text.contains("line\\nbreak\\ttab\\rreturn"));
    let back = AppData::from_json(text.as_str()).expect("serialized store must parse");
    assert_eq!(back.notes.len(), 1);
    assert!(notes_equal(&store.notes[0], &back.notes[0]));
}

#[test]
fn save_then_load_reproduces_the_store() {
    let mut store = AppData::default();
    store.add_note(Note::new(String::from("Groceries"), String::from("milk, eggs")));
    store.add_note(Note::new(String::from("Ünïcódé ✓"), String::from("")));
    let mut done = TodoItem::new(String::from("water the plants"));
    done.toggle_completed();
    store.add_todo(done);
    store.add_todo(TodoItem::new(String::from("open item")));
    let text = store.to_json();
    let back = AppData::load_from_json(text.as_str());
    assert_eq!(back.notes.len(), store.notes.len());
    assert_eq!(back.todos.len(), store.todos.len());
    for k in 0..store.notes.len() {
        assert!(notes_equal(&store.notes[k], &back.notes[k]));
    }
    for k in 0..store.todos.len() {
        assert!(todos_equal(&store.todos[k], &back.todos[k]));
    }
}

#[test]
fn reload_is_the_identity_on_the_store() {
    let mut store = AppData::default();
    store.add_note(Note::new(String::from("n"), String::from("c")));
    store.add_todo(TodoItem::new(String::from("t")));
    let back = store.reload();
    assert_eq!(back.notes.len(), 1);
    assert_eq!(back.todos.len(), 1);
    assert!(notes_equal(&store.notes[0], &back.notes[0]));
    assert!(todos_equal(&store.todos[0], &back.todos[0]));
}

#[test]
fn invalid_text_yields_the_empty_default() {
    for bad in [
        "",
        "not json at all",
        "{\"notes\":[],\"todos\":[]",
        "{\"notes\":[{]},\"todos\":[]}",
        "{\"notes\":[],\"todos\":[]}trailing",
        "{\"todos\":[],\"notes\":[]}",
        "{\"notes\":[{\"id\":\"no-uuid-here\",\"title\":\"t\",\"content\":\"c\",\"created_at\":\"1970-01-01T00:00:00+00:00\",\"updated_at\":\"1970-01-01T00:00:00+00:00\"}],\"todos\":[]}",
        "{\"notes\":[{\"id\":\"00000000-0000-0000-0000-000000000000\",\"title\":\"t\",\"content\":\"c\",\"created_at\":\"not a date\",\"updated_at\":\"1970-01-01T00:00:00+00:00\"}],\"todos\":[]}",
    ] {
        assert!(AppData::from_json(bad).is_none());
        let store = AppData::load_from_json(bad);
        assert_eq!(store.notes.len(), 0);
        assert_eq!(store.todos.len(), 0);
    }
}

#[test]
fn grocery_scenario_runs_end_to_end() {
    let mut store = AppData::default();
    store.add_note(Note::new(String::from("Groceries"), String::from("milk, eggs")));
    assert_eq!(store.notes.len(), 1);
    let before = store.notes[0].updated_at;
    store.notes[0].update(String::from("Groceries"), String::from("milk, eggs, bread"));
    assert_eq!(store.notes[0].content, "milk, eggs, bread");
    assert!(store.notes[0].updated_at >= before);
    let text = store.to_json();
    let loaded = AppData::load_from_json(text.as_str());
    assert_eq!(loaded.notes.len(), 1);
    assert!(notes_equal(&store.notes[0], &loaded.notes[0]));
}

#[test]
fn completed_item_round_trips_with_its_completion_time() {
    let mut store = AppData::default();
    let mut t = TodoItem::new(String::from("done thing"));
    t.toggle_completed_at(123_456_789);
    store.add_todo(t);
    let text = store.to_json();
    assert!(text.contains("\"completed\":true"));
    let back = AppData::from_json(text.as_str()).expect("serialized store must parse");
    assert_eq!(back.todos[0].completed_at, Some(123_456_789));
    let mut open = store;
    open.todos[0].toggle_completed_at(123_456_790);
    let text2 = open.to_json();
    assert!(text2.contains("\"completed\":false"));
    assert!(text2.contains("\"completed_at\":null"));
    let back2 = AppData::from_json(text2.as_str()).expect("serialized store must parse");
    assert_eq!(back2.todos[0].completed_at, None);
}
