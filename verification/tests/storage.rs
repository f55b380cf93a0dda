use rust_todo_cli::error::TodoError;
use rust_todo_cli::storage::{load_from_content, save_to_string};
use rust_todo_cli::task::Priority;
use rust_todo_cli::todo_list::TodoList;

#[test]
fn test_save_and_load() {
    let mut original_list = TodoList::new();
    original_list.add_task("任务1".to_string(), Priority::High, None);
    original_list.add_task("任务2".to_string(), Priority::Medium, None);

    let saved = save_to_string(&original_list);

    let loaded_list = load_from_content(Some(saved.as_str())).unwrap();

    assert_eq!(loaded_list.len(), 2);
    assert_eq!(loaded_list.list_tasks()[0].title, "任务1");
    assert_eq!(loaded_list.list_tasks()[1].title, "任务2");
}

#[test]
fn test_load_nonexistent_file() {
    let result = load_from_content(None);
    assert!(result.is_ok());

    let list = result.unwrap();
    assert_eq!(list.len(), 0);
    assert!(list.is_empty());
}

#[test]
fn test_load_empty_file() {
    let result = load_from_content(Some(""));
    assert!(result.is_ok());

    let list = result.unwrap();
    assert_eq!(list.len(), 0);
}

#[test]
fn test_load_blank_file() {
    let mut list = load_from_content(Some("  \n\t\r\n")).unwrap();
    assert_eq!(list.len(), 0);
    assert_eq!(list.add_task("x".to_string(), Priority::Low, None), 1);
}

#[test]
fn test_save_with_completed_tasks() {
    let mut list = TodoList::new();
    let id = list.add_task("已完成任务".to_string(), Priority::Medium, None);
    list.complete_task(id).unwrap();

    let saved = save_to_string(&list);
    let loaded = load_from_content(Some(saved.as_str())).unwrap();

    assert_eq!(loaded.len(), 1);
    assert!(loaded.list_tasks()[0].completed);
}

#[test]
fn test_json_format() {
    let mut list = TodoList::new();
    list.add_task("格式测试".to_string(), Priority::High, None);

    let content = save_to_string(&list);
    assert!(content.contains("格式测试"));
    assert!(content.contains("High"));
    assert!(content.contains("tasks"));

    assert!(content.contains('\n'));
}

#[test]
fn test_load_malformed_content() {
    let result = load_from_content(Some("{ this is not a task document"));
    match result {
        Err(TodoError::SerdeError(_)) => (),
        _ => panic!("Expected a serialization error"),
    }
}

fn task_line(id: u32, created: &str) -> String {
    format!(
        "{{\"id\": {}, \"title\": \"t\", \"completed\": false, \"priority\": \"Low\", \"created_at\": \"{}\", \"due_date\": null}}",
        id, created
    )
}

fn document(lines: &[String], next_id: u32) -> String {
    format!(
        "{{\n\"tasks\": [\n{}\n],\n\"next_id\": {}\n}}",
        lines.join(",\n"),
        next_id
    )
}

#[test]
fn test_load_rejects_broken_identifier_discipline() {
    let iso = "2020-01-01T00:00:00+00:00";

    // identifiers out of order
    let doc = document(&[task_line(2, iso), task_line(1, iso)], 3);
    assert!(matches!(
        load_from_content(Some(&doc)),
        Err(TodoError::SerdeError(_))
    ));

    // next_id not above every identifier
    let doc = document(&[task_line(5, iso)], 3);
    assert!(matches!(
        load_from_content(Some(&doc)),
        Err(TodoError::SerdeError(_))
    ));

    // identifier zero was never issued
    let doc = document(&[task_line(0, iso)], 1);
    assert!(matches!(
        load_from_content(Some(&doc)),
        Err(TodoError::SerdeError(_))
    ));
}

#[test]
fn test_load_rejects_unreadable_instant() {
    let doc = document(&[task_line(1, "sometime later")], 2);
    assert!(matches!(
        load_from_content(Some(&doc)),
        Err(TodoError::SerdeError(_))
    ));
}

#[test]
fn test_load_accepts_a_well_formed_document() {
    let iso = "2021-06-05T07:30:00+00:00";
    let doc = document(&[task_line(1, iso), task_line(4, iso)], 7);
    let mut list = load_from_content(Some(&doc)).unwrap();
    assert_eq!(list.len(), 2);
    assert_eq!(list.list_tasks()[1].id, 4);
    assert_eq!(list.add_task("next".to_string(), Priority::High, None), 7);
}
