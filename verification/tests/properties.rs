use rust_todo_cli::chars::{chars_of, parse_u32_chars};
use rust_todo_cli::clock::parse_date;
use rust_todo_cli::error::TodoError;
use rust_todo_cli::storage::{load_from_content, save_to_string};
use rust_todo_cli::task::{parse_priority, Priority};
use rust_todo_cli::todo_list::TodoList;

#[test]
fn test_ids_strictly_increase_and_never_recur() {
    let mut list = TodoList::new();
    let id1 = list.add_task("a".to_string(), Priority::Low, None);
    let id2 = list.add_task("b".to_string(), Priority::Low, None);
    list.delete_task(id1).unwrap();
    let id3 = list.add_task("c".to_string(), Priority::Low, None);
    assert!(id1 < id2 && id2 < id3);
    assert_eq!((id1, id2, id3), (1, 2, 3));
}

#[test]
fn test_delete_then_find_and_complete_then_find() {
    let mut list = TodoList::new();
    let id = list.add_task("gone".to_string(), Priority::High, None);
    list.delete_task(id).unwrap();
    assert!(list.find_task(id).is_none());

    let id2 = list.add_task("done".to_string(), Priority::High, None);
    list.complete_task(id2).unwrap();
    assert!(list.find_task(id2).unwrap().completed);
}

#[test]
fn test_not_found_carries_the_exact_id() {
    let mut list = TodoList::new();
    match list.complete_task(999) {
        Err(TodoError::TaskNotFound(id)) => assert_eq!(id, 999),
        _ => panic!("Expected TaskNotFound"),
    }
    match list.delete_task(7) {
        Err(TodoError::TaskNotFound(id)) => assert_eq!(id, 7),
        _ => panic!("Expected TaskNotFound"),
    }
}

#[test]
fn test_round_trip_preserves_everything() {
    let mut list = TodoList::new();
    let due = parse_date("2030-06-15").unwrap();
    list.add_task("plain".to_string(), Priority::Medium, None);
    let id2 = list.add_task("tricky \"title\" with \\ inside".to_string(), Priority::High, Some(due));
    list.add_task("第三".to_string(), Priority::Low, Some(due));
    list.complete_task(id2).unwrap();
    list.delete_task(1).unwrap();

    let saved = save_to_string(&list);
    let loaded = load_from_content(Some(saved.as_str())).unwrap();

    assert_eq!(loaded.len(), list.len());
    for (a, b) in loaded.list_tasks().iter().zip(list.list_tasks().iter()) {
        assert_eq!(a.id, b.id);
        assert_eq!(a.title, b.title);
        assert_eq!(a.completed, b.completed);
        assert_eq!(a.priority, b.priority);
        assert_eq!(a.created_at, b.created_at);
        assert_eq!(a.due_date, b.due_date);
    }

    // next_id survives the trip: the next add hands out the same number
    let mut loaded = loaded;
    let mut list = list;
    assert_eq!(
        loaded.add_task("probe".to_string(), Priority::Low, None),
        list.add_task("probe".to_string(), Priority::Low, None)
    );
}

#[test]
fn test_by_priority_is_a_stable_sort() {
    let mut list = TodoList::new();
    let t1 = list.add_task("T1".to_string(), Priority::Low, None);
    let t2 = list.add_task("T2".to_string(), Priority::High, None);
    let t3 = list.add_task("T3".to_string(), Priority::Medium, None);
    let t4 = list.add_task("T4".to_string(), Priority::High, None);

    let sorted = list.tasks_by_priority();
    let ids: Vec<u32> = sorted.iter().map(|t| t.id).collect();
    assert_eq!(ids, vec![t2, t4, t3, t1]);
}

#[test]
fn test_overdue_rule() {
    let mut list = TodoList::new();
    let past = chrono::Utc::now().timestamp() - 86400;
    let id = list.add_task("late".to_string(), Priority::High, Some(past));
    list.add_task("no deadline".to_string(), Priority::High, None);

    let overdue: Vec<u32> = list.overdue_tasks().iter().map(|t| t.id).collect();
    assert_eq!(overdue, vec![id]);

    list.complete_task(id).unwrap();
    assert!(list.overdue_tasks().is_empty());
}

#[test]
fn test_buy_milk_scenario() {
    let mut list = TodoList::new();
    let due = parse_date("2020-01-01").unwrap();

    let id1 = list.add_task("Buy milk".to_string(), Priority::Medium, None);
    assert_eq!(id1, 1);
    let id2 = list.add_task("File taxes".to_string(), Priority::High, Some(due));
    assert_eq!(id2, 2);

    let overdue: Vec<u32> = list.overdue_tasks().iter().map(|t| t.id).collect();
    assert_eq!(overdue, vec![2]);

    list.complete_task(2).unwrap();
    assert!(list.overdue_tasks().is_empty());
}

#[test]
fn test_priority_words_and_number_words() {
    assert_eq!(parse_priority("LOW").unwrap(), Priority::Low);
    assert_eq!(parse_priority("m").unwrap(), Priority::Medium);
    assert!(parse_priority("").is_err());
    assert_eq!(parse_priority("urgent").unwrap_err(), "Invalid priority: urgent");

    assert_eq!(parse_u32_chars(&chars_of("42")), Some(42));
    assert_eq!(parse_u32_chars(&chars_of("4294967295")), Some(u32::MAX));
    assert_eq!(parse_u32_chars(&chars_of("4294967296")), None);
    assert_eq!(parse_u32_chars(&chars_of("12a")), None);
    assert_eq!(parse_u32_chars(&chars_of("")), None);
}
