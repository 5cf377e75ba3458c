//! Tests of the store operations, run through the same load / modify / save
//! cycle that a caller performs: the "disk" is an optional document string.

use todolib::task::{Status, Todo, TodoError};

/// Loads the collection from an optional document, as a caller would.
fn load(doc: &Option<String>) -> Result<Vec<Todo>, TodoError> {
    todolib::todo::load_todos(doc.as_deref())
}

fn store(tasks: &Vec<Todo>) -> Option<String> {
    Some(todolib::todo::save_todos(tasks))
}

#[test]
fn test_list() {
    let doc: Option<String> = None;
    let tasks = load(&doc).unwrap();
    let todos = todolib::todo::list(&tasks);
    assert_eq!(todos.len(), 0);
}

#[test]
fn test_add() {
    let doc: Option<String> = None;
    let name = "test";
    let mut tasks = load(&doc).unwrap();
    let todo = todolib::todo::add(&mut tasks, name, "test").unwrap();
    let doc = store(&tasks);
    assert_eq!(todo.name, name);
    assert_eq!(todo.description, "test");
    assert_eq!(todo.status, Status::ToDo);

    let todos = todolib::todo::list(&load(&doc).unwrap());
    assert_eq!(todos.len(), 1);
    assert_eq!(todos[0].name, name);
    assert_eq!(todos[0].description, "test");
    assert_eq!(todos[0].status, Status::ToDo);
}

#[test]
fn test_add_duplicate() {
    let doc: Option<String> = None;
    let name = "test";
    let mut tasks = load(&doc).unwrap();
    let todo = todolib::todo::add(&mut tasks, name, "test").unwrap();
    let doc = store(&tasks);
    assert_eq!(todo.name, name);
    assert_eq!(todo.description, "test");
    assert_eq!(todo.status, Status::ToDo);

    let mut tasks = load(&doc).unwrap();
    let err = todolib::todo::add(&mut tasks, name, "test").unwrap_err();
    assert_eq!(err, TodoError::DuplicateName);
    // The failed call left the collection unchanged.
    assert_eq!(store(&tasks), doc);
}

#[test]
fn test_edit() {
    let doc: Option<String> = None;
    let name = "test";
    let mut tasks = load(&doc).unwrap();
    let todo = todolib::todo::add(&mut tasks, name, "test").unwrap();
    let doc = store(&tasks);
    assert_eq!(todo.name, name);
    assert_eq!(todo.description, "test");
    assert_eq!(todo.status, Status::ToDo);

    let mut tasks = load(&doc).unwrap();
    let todo = todolib::todo::edit(&mut tasks, name, "new test").unwrap();
    let doc = store(&tasks);
    assert_eq!(todo.name, name);
    assert_eq!(todo.description, "new test");
    assert_eq!(todo.status, Status::ToDo);

    let todos = todolib::todo::list(&load(&doc).unwrap());
    assert_eq!(todos.len(), 1);
    assert_eq!(todos[0].name, name);
    assert_eq!(todos[0].description, "new test");
    assert_eq!(todos[0].status, Status::ToDo);
}

#[test]
fn test_edit_not_found() {
    let doc: Option<String> = None;
    let name = "test";
    let mut tasks = load(&doc).unwrap();
    let err = todolib::todo::edit(&mut tasks, name, "new test").unwrap_err();
    assert_eq!(err, TodoError::NotFound);
}

#[test]
fn test_tick() {
    let doc: Option<String> = None;
    let name = "test";
    let mut tasks = load(&doc).unwrap();
    let todo = todolib::todo::add(&mut tasks, name, "test").unwrap();
    let doc = store(&tasks);
    assert_eq!(todo.name, name);
    assert_eq!(todo.description, "test");
    assert_eq!(todo.status, Status::ToDo);

    let mut tasks = load(&doc).unwrap();
    let todo = todolib::todo::tick(&mut tasks, name).unwrap();
    let doc = store(&tasks);
    assert_eq!(todo.name, name);
    assert_eq!(todo.description, "test");
    assert_eq!(todo.status, Status::Done);

    let todos = todolib::todo::list(&load(&doc).unwrap());
    assert_eq!(todos.len(), 1);
    assert_eq!(todos[0].name, name);
    assert_eq!(todos[0].description, "test");
    assert_eq!(todos[0].status, Status::Done);
}

#[test]
fn test_tick_not_found() {
    let doc: Option<String> = None;
    let name = "test";
    let mut tasks = load(&doc).unwrap();
    let err = todolib::todo::tick(&mut tasks, name).unwrap_err();
    assert_eq!(err, TodoError::NotFound);
}

#[test]
fn test_remove() {
    let doc: Option<String> = None;
    let name = "test";
    let mut tasks = load(&doc).unwrap();
    let todo = todolib::todo::add(&mut tasks, name, "test").unwrap();
    let doc = store(&tasks);
    assert_eq!(todo.name, name);
    assert_eq!(todo.description, "test");
    assert_eq!(todo.status, Status::ToDo);

    let mut tasks = load(&doc).unwrap();
    todolib::todo::remove(&mut tasks, name).unwrap();
    let doc = store(&tasks);

    let todos = todolib::todo::list(&load(&doc).unwrap());
    assert_eq!(todos.len(), 0);
}

#[test]
fn test_remove_not_found() {
    let doc: Option<String> = None;
    let name = "test";
    let mut tasks = load(&doc).unwrap();
    let err = todolib::todo::remove(&mut tasks, name).unwrap_err();
    assert_eq!(err, TodoError::NotFound);
}

#[test]
fn add_then_list_has_exactly_one_match() {
    let mut tasks: Vec<Todo> = Vec::new();
    todolib::todo::add(&mut tasks, "other", "o").unwrap();
    todolib::todo::add(&mut tasks, "mine", "d").unwrap();
    let todos = todolib::todo::list(&tasks);
    let matches: Vec<&Todo> = todos.iter().filter(|t| t.name == "mine").collect();
    assert_eq!(matches.len(), 1);
    assert_eq!(matches[0].description, "d");
    assert_eq!(matches[0].status, Status::ToDo);
}

#[test]
fn tick_twice_is_idempotent() {
    let mut tasks: Vec<Todo> = Vec::new();
    todolib::todo::add(&mut tasks, "a", "x").unwrap();
    let first = todolib::todo::tick(&mut tasks, "a").unwrap();
    assert_eq!(first.status, Status::Done);
    let snapshot = todolib::todo::save_todos(&tasks);
    let second = todolib::todo::tick(&mut tasks, "a").unwrap();
    assert_eq!(second.status, Status::Done);
    assert_eq!(todolib::todo::save_todos(&tasks), snapshot);
}

#[test]
fn remove_then_gone() {
    let mut tasks: Vec<Todo> = Vec::new();
    todolib::todo::add(&mut tasks, "a", "x").unwrap();
    todolib::todo::add(&mut tasks, "b", "y").unwrap();
    todolib::todo::remove(&mut tasks, "a").unwrap();
    let todos = todolib::todo::list(&tasks);
    assert!(todos.iter().all(|t| t.name != "a"));
    let err = todolib::todo::remove(&mut tasks, "a").unwrap_err();
    assert_eq!(err, TodoError::NotFound);
}

#[test]
fn scenario_add_add_tick_remove_list() {
    // Starting from no document, work through the full cycle for each step.
    let mut doc: Option<String> = None;

    let mut tasks = load(&doc).unwrap();
    todolib::todo::add(&mut tasks, "a", "x").unwrap();
    doc = store(&tasks);

    let mut tasks = load(&doc).unwrap();
    todolib::todo::add(&mut tasks, "b", "y").unwrap();
    doc = store(&tasks);

    let mut tasks = load(&doc).unwrap();
    todolib::todo::tick(&mut tasks, "a").unwrap();
    doc = store(&tasks);

    let mut tasks = load(&doc).unwrap();
    todolib::todo::remove(&mut tasks, "b").unwrap();
    doc = store(&tasks);

    let todos = todolib::todo::list(&load(&doc).unwrap());
    assert_eq!(todos.len(), 1);
    assert_eq!(todos[0].name, "a");
    assert_eq!(todos[0].description, "x");
    assert_eq!(todos[0].status, Status::Done);
}

#[test]
fn edit_missing_leaves_store_unchanged() {
    let mut tasks: Vec<Todo> = Vec::new();
    todolib::todo::add(&mut tasks, "a", "x").unwrap();
    let before = todolib::todo::save_todos(&tasks);
    let err = todolib::todo::edit(&mut tasks, "zzz", "new").unwrap_err();
    assert_eq!(err, TodoError::NotFound);
    assert_eq!(todolib::todo::save_todos(&tasks), before);
}
