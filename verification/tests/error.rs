use rust_todo_cli::error::{TodoError, TodoResult};

#[test]
fn test_task_not_found_error() {
    let error = TodoError::TaskNotFound(42);
    let error_msg = error.message();
    assert!(error_msg.contains("42"));
    assert!(error_msg.contains("not found"));
}

#[test]
fn test_invalid_priority_error() {
    let error = TodoError::InvalidPriority("urgent".to_string());
    let error_msg = error.message();
    assert!(error_msg.contains("urgent"));
    assert!(error_msg.contains("high, medium, or low"));
}

#[test]
fn test_custom_error() {
    let error = TodoError::Custom("Something went wrong".to_string());
    let error_msg = error.message();
    assert!(error_msg.contains("Something went wrong"));
}

#[test]
fn test_result_type_alias() {
    let returns_error: TodoResult<()> = Err(TodoError::TaskNotFound(1));
    assert!(returns_error.is_err());
}

#[test]
fn test_exact_messages() {
    assert_eq!(TodoError::TaskNotFound(42).message(), "Task with ID 42 not found");
    assert_eq!(
        TodoError::InvalidDateFormat("soon".to_string()).message(),
        "Invalid date format 'soon'. Expected: YYYY-MM-DD"
    );
}
