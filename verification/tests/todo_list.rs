use chrono::Duration;
use rust_todo_cli::task::Priority;
use rust_todo_cli::todo_list::TodoList;

#[test]
fn test_new_todo_list() {
    let list = TodoList::new();
    assert_eq!(list.len(), 0);
    assert!(list.is_empty());
}

#[test]
fn test_add_task() {
    let mut list = TodoList::new();
    let id1 = list.add_task("任务1".to_string(), Priority::High, None);
    let id2 = list.add_task("任务2".to_string(), Priority::Low, None);

    assert_eq!(id1, 1);
    assert_eq!(id2, 2);
    assert_eq!(list.len(), 2);
}

#[test]
fn test_complete_task() {
    let mut list = TodoList::new();
    let id = list.add_task("测试完成".to_string(), Priority::Medium, None);

    assert!(list.complete_task(id).is_ok());
    let task = list.find_task(id).unwrap();
    assert!(task.completed);

    assert!(list.complete_task(999).is_err());
}

#[test]
fn test_delete_task() {
    let mut list = TodoList::new();
    let id = list.add_task("待删除".to_string(), Priority::Low, None);

    assert_eq!(list.len(), 1);
    assert!(list.delete_task(id).is_ok());
    assert_eq!(list.len(), 0);

    assert!(list.delete_task(999).is_err());
}

#[test]
fn test_list_pending_and_completed() {
    let mut list = TodoList::new();
    let _id1 = list.add_task("任务1".to_string(), Priority::High, None);
    let id2 = list.add_task("任务2".to_string(), Priority::Medium, None);
    let _id3 = list.add_task("任务3".to_string(), Priority::Low, None);

    list.complete_task(id2).unwrap();

    let pending = list.list_pending_tasks();
    let completed = list.list_completed_tasks();

    assert_eq!(pending.len(), 2);
    assert_eq!(completed.len(), 1);
    assert_eq!(completed[0].id, id2);
}

#[test]
fn test_tasks_by_priority() {
    let mut list = TodoList::new();
    list.add_task("低优先级".to_string(), Priority::Low, None);
    list.add_task("高优先级".to_string(), Priority::High, None);
    list.add_task("中优先级".to_string(), Priority::Medium, None);

    let sorted = list.tasks_by_priority();
    assert_eq!(sorted[0].priority, Priority::High);
    assert_eq!(sorted[1].priority, Priority::Medium);
    assert_eq!(sorted[2].priority, Priority::Low);
}

#[test]
fn test_overdue_tasks() {
    let mut list = TodoList::new();
    let past = chrono::Utc::now() - Duration::days(1);
    let future = chrono::Utc::now() + Duration::days(1);

    list.add_task("过期任务".to_string(), Priority::High, Some(past.timestamp()));
    list.add_task("未来任务".to_string(), Priority::Medium, Some(future.timestamp()));
    list.add_task("无期限".to_string(), Priority::Low, None);

    let overdue = list.overdue_tasks();
    assert_eq!(overdue.len(), 1);
    assert_eq!(overdue[0].title, "过期任务");
}

#[test]
fn test_clear_completed() {
    let mut list = TodoList::new();
    let id1 = list.add_task("a".to_string(), Priority::High, None);
    let _id2 = list.add_task("b".to_string(), Priority::Low, None);
    let id3 = list.add_task("c".to_string(), Priority::Medium, None);
    list.complete_task(id1).unwrap();
    list.complete_task(id3).unwrap();

    let cleared = list.clear_completed();
    assert_eq!(cleared, 2);
    assert_eq!(list.len(), 1);
    assert_eq!(list.list_tasks()[0].title, "b");
}
