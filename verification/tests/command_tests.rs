// Tests for the command descriptor and its builder methods.

use cli_core::Command;

#[test]
fn command_test_command_creation() {
    let cmd = Command::new("echo".to_string(), vec!["hello".to_string()]);
    assert_eq!(cmd.name, "echo");
    assert_eq!(cmd.args, vec!["hello"]);
    assert!(cmd.stdin.is_none());
    assert!(cmd.stdout.is_none());
    assert!(!cmd.append_stdout);
}

#[test]
fn command_test_command_builder_pattern() {
    let cmd = Command::new("test".to_string(), vec!["arg1".to_string()])
        .with_stdin("input".to_string())
        .with_stdout("output.txt".to_string())
        .with_append_stdout(true);

    assert_eq!(cmd.name, "test");
    assert_eq!(cmd.args, vec!["arg1"]);
    assert_eq!(cmd.stdin.unwrap(), "input");
    assert_eq!(cmd.stdout.unwrap(), "output.txt");
    assert!(cmd.append_stdout);
    assert!(cmd.stderr.is_none());
    assert!(!cmd.append_stderr);
}

#[test]
fn test_command_with_stderr() {
    let cmd = Command::new("test".to_string(), vec!["arg".to_string()])
        .with_stderr("errors.log".to_string());

    assert_eq!(cmd.name, "test");
    assert_eq!(cmd.stderr.unwrap(), "errors.log");
    assert!(!cmd.append_stderr);
}

#[test]
fn test_command_with_stderr_append() {
    let cmd = Command::new("test".to_string(), vec![])
        .with_stderr("errors.log".to_string())
        .with_append_stderr(true);

    assert_eq!(cmd.stderr.unwrap(), "errors.log");
    assert!(cmd.append_stderr);
}

#[test]
fn test_command_full_redirection() {
    let cmd = Command::new("test".to_string(), vec!["arg".to_string()])
        .with_stdin("input.txt".to_string())
        .with_stdout("output.txt".to_string())
        .with_stderr("error.txt".to_string())
        .with_append_stdout(false)
        .with_append_stderr(true);

    assert_eq!(cmd.stdin.unwrap(), "input.txt");
    assert_eq!(cmd.stdout.unwrap(), "output.txt");
    assert_eq!(cmd.stderr.unwrap(), "error.txt");
    assert!(!cmd.append_stdout);
    assert!(cmd.append_stderr);
}

#[test]
fn test_command_creation_with_redirection() {
    // The command-building steps the interactive shell goes through
    let name = "cat".to_string();
    let args = vec![];
    let mut cmd = Command::new(name.clone(), args.clone());

    // Simulate stdin redirection
    let stdin_content = "file content".to_string();
    cmd = cmd.with_stdin(stdin_content.clone());

    // Simulate stdout redirection
    let stdout_file = "output.txt".to_string();
    cmd = cmd
        .with_stdout(stdout_file.clone())
        .with_append_stdout(false);

    assert_eq!(cmd.name, name);
    assert_eq!(cmd.args, args);
    assert_eq!(cmd.stdin, Some(stdin_content));
    assert_eq!(cmd.stdout, Some(stdout_file));
    assert!(!cmd.append_stdout);
}

#[test]
fn test_command_creation_with_append_redirection() {
    let name = "echo".to_string();
    let args = vec!["test".to_string()];
    let mut cmd = Command::new(name.clone(), args.clone());

    // Simulate stdout append redirection
    let stdout_file = "output.txt".to_string();
    cmd = cmd
        .with_stdout(stdout_file.clone())
        .with_append_stdout(true);

    assert_eq!(cmd.name, name);
    assert_eq!(cmd.args, args);
    assert!(cmd.stdin.is_none());
    assert_eq!(cmd.stdout, Some(stdout_file));
    assert!(cmd.append_stdout);
}
