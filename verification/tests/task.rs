use chrono::Duration;
use rust_todo_cli::task::{Priority, Task};
use std::str::FromStr;

#[test]
fn test_create_task() {
    let task = Task::new(1, "测试任务".to_string(), Priority::Medium, None);
    assert_eq!(task.id, 1);
    assert_eq!(task.title, "测试任务");
    assert!(!task.completed);
    assert_eq!(task.priority, Priority::Medium);
}

#[test]
fn task_test_complete_task() {
    let mut task = Task::new(1, "完成测试".to_string(), Priority::Low, None);
    assert!(!task.completed);
    task.complete();
    assert!(task.completed);
}

#[test]
fn test_priority_from_string() {
    assert_eq!(Priority::from_str("high").unwrap(), Priority::High);
    assert_eq!(Priority::from_str("H").unwrap(), Priority::High);
    assert_eq!(Priority::from_str("medium").unwrap(), Priority::Medium);
    assert!(Priority::from_str("invalid").is_err());
}

#[test]
fn test_is_overdue() {
    let future_date = chrono::Utc::now() + Duration::days(1);
    let task = Task::new(1, "未来任务".to_string(), Priority::High, Some(future_date.timestamp()));
    assert!(!task.is_overdue());

    let past_date = chrono::Utc::now() - Duration::days(1);
    let task = Task::new(2, "过期任务".to_string(), Priority::High, Some(past_date.timestamp()));
    assert!(task.is_overdue());

    let task = Task::new(3, "无期限".to_string(), Priority::Low, None);
    assert!(!task.is_overdue());
}

#[test]
fn test_priority_labels() {
    assert_eq!(Priority::High.label(), "High");
    assert_eq!(Priority::Medium.label(), "Medium");
    assert_eq!(Priority::Low.label(), "Low");
}
