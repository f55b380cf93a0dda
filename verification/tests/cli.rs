use rust_todo_cli::cli::{Cli, Commands};

fn argv(parts: &[&str]) -> Vec<String> {
    parts.iter().map(|s| s.to_string()).collect()
}

#[test]
fn test_cli_add_command() {
    let cli = Cli::parse_from(argv(&["todo", "add", "测试任务", "--priority", "high"])).unwrap();

    match cli.command {
        Commands::Add { title, priority, .. } => {
            assert_eq!(title, "测试任务");
            assert_eq!(priority, "high");
        }
        _ => panic!("Expected Add command"),
    }
}

#[test]
fn test_cli_list_command() {
    let cli = Cli::parse_from(argv(&["todo", "list", "pending"])).unwrap();

    match cli.command {
        Commands::List { filter } => {
            assert!(filter.is_some());
        }
        _ => panic!("Expected List command"),
    }
}

#[test]
fn test_cli_complete_command() {
    let cli = Cli::parse_from(argv(&["todo", "complete", "42"])).unwrap();

    match cli.command {
        Commands::Complete { id } => {
            assert_eq!(id, 42);
        }
        _ => panic!("Expected Complete command"),
    }
}

#[test]
fn test_cli_alias() {
    let cli = Cli::parse_from(argv(&["todo", "a", "任务"])).unwrap();
    assert!(matches!(cli.command, Commands::Add { .. }));

    let cli = Cli::parse_from(argv(&["todo", "ls"])).unwrap();
    assert!(matches!(cli.command, Commands::List { .. }));
}

#[test]
fn test_cli_due_flag_and_defaults() {
    let cli = Cli::parse_from(argv(&["todo", "add", "t", "--due", "2025-12-31"])).unwrap();
    match cli.command {
        Commands::Add { title, priority, due } => {
            assert_eq!(title, "t");
            assert_eq!(priority, "medium");
            assert_eq!(due.as_deref(), Some("2025-12-31"));
        }
        _ => panic!("Expected Add command"),
    }
}

#[test]
fn test_cli_rejects_unknown() {
    assert!(Cli::parse_from(argv(&["todo", "frobnicate"])).is_err());
    assert!(Cli::parse_from(argv(&["todo"])).is_err());
    assert!(Cli::parse_from(argv(&["todo", "complete", "nine"])).is_err());
    assert!(Cli::parse_from(argv(&["todo", "list", "bogus"])).is_err());
}

#[test]
fn test_cli_clear_force() {
    let cli = Cli::parse_from(argv(&["todo", "clear", "--force"])).unwrap();
    assert!(matches!(cli.command, Commands::Clear { force: true }));
    let cli = Cli::parse_from(argv(&["todo", "clear"])).unwrap();
    assert!(matches!(cli.command, Commands::Clear { force: false }));
}
