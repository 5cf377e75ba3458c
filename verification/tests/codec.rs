//! Tests of the document encoding and decoding: exact document text,
//! round trips, escaping, and rejection of malformed documents.

use todolib::task::{Status, Todo, TodoError};

fn task(name: &str, description: &str, status: Status) -> Todo {
    Todo { name: name.to_string(), description: description.to_string(), status }
}

#[test]
fn save_produces_exact_document() {
    let tasks = vec![task("a", "x", Status::ToDo)];
    let doc = todolib::todo::save_todos(&tasks);
    assert_eq!(doc, "[{\"name\":\"a\",\"description\":\"x\",\"status\":\"ToDo\"}]");
}

#[test]
fn save_empty_store() {
    let tasks: Vec<Todo> = Vec::new();
    assert_eq!(todolib::todo::save_todos(&tasks), "[]");
}

#[test]
fn save_two_tasks_in_order() {
    let tasks = vec![task("a", "x", Status::Done), task("b", "y", Status::ToDo)];
    let doc = todolib::todo::save_todos(&tasks);
    assert_eq!(
        doc,
        "[{\"name\":\"a\",\"description\":\"x\",\"status\":\"Done\"},\
         {\"name\":\"b\",\"description\":\"y\",\"status\":\"ToDo\"}]"
            .replace(" ", "")
    );
}

#[test]
fn save_escapes_quotes_backslashes_and_controls() {
    let tasks = vec![task("q\"b", "a\\b\nc\u{1}", Status::ToDo)];
    let doc = todolib::todo::save_todos(&tasks);
    assert_eq!(
        doc,
        "[{\"name\":\"q\\\"b\",\"description\":\"a\\\\b\\u000ac\\u0001\",\"status\":\"ToDo\"}]"
    );
}

#[test]
fn load_inverts_save() {
    let tasks = vec![
        task("first", "plain text", Status::ToDo),
        task("se\"cond", "with \\ and \t tab", Status::Done),
        task("third", "unicode \u{e9}\u{4e16} ok", Status::ToDo),
    ];
    let doc = todolib::todo::save_todos(&tasks);
    let back = todolib::todo::load_todos(Some(doc.as_str())).unwrap();
    assert_eq!(back.len(), tasks.len());
    for (a, b) in tasks.iter().zip(back.iter()) {
        assert_eq!(a.name, b.name);
        assert_eq!(a.description, b.description);
        assert_eq!(a.status, b.status);
    }
    // And saving again yields the same document text.
    assert_eq!(todolib::todo::save_todos(&back), doc);
}

#[test]
fn load_absent_document_is_empty() {
    let tasks = todolib::todo::load_todos(None).unwrap();
    assert_eq!(tasks.len(), 0);
}

#[test]
fn load_empty_list_document() {
    let tasks = todolib::todo::load_todos(Some("[]")).unwrap();
    assert_eq!(tasks.len(), 0);
}

#[test]
fn load_reads_both_status_tags() {
    let doc = "[{\"name\":\"a\",\"description\":\"\",\"status\":\"Done\"},\
                {\"name\":\"b\",\"description\":\"\",\"status\":\"ToDo\"}]"
        .replace(" ", "");
    let tasks = todolib::todo::load_todos(Some(doc.as_str())).unwrap();
    assert_eq!(tasks[0].status, Status::Done);
    assert_eq!(tasks[1].status, Status::ToDo);
}

#[test]
fn load_rejects_malformed_documents() {
    for bad in [
        "",
        "[",
        "]",
        "{}",
        "[{}]",
        "garbage",
        "[{\"name\":\"a\"}]",
        "[{\"name\":\"a\",\"description\":\"x\",\"status\":\"Open\"}]",
        "[{\"name\":\"a\",\"description\":\"x\",\"status\":\"ToDo\"}",
        "[{\"name\":\"a\",\"description\":\"x\",\"status\":\"ToDo\"}]extra",
        "[{\"name\":\"unterminated,\"description\":\"x\",\"status\":\"ToDo\"}]",
        "[{\"name\":\"bad\\escape\",\"description\":\"x\",\"status\":\"ToDo\"}]",
    ] {
        let r = todolib::todo::load_todos(Some(bad));
        assert_eq!(r.unwrap_err(), TodoError::DeserializationFailure, "input: {bad}");
    }
}

#[test]
fn load_accepts_escape_sequences() {
    let doc = "[{\"name\":\"q\\\"b\",\"description\":\"a\\\\b\\u000ac\",\"status\":\"ToDo\"}]";
    let tasks = todolib::todo::load_todos(Some(doc)).unwrap();
    assert_eq!(tasks[0].name, "q\"b");
    assert_eq!(tasks[0].description, "a\\b\nc");
}
