// Tests for the runner's state and the command shapes handed to it.

use cli_core::runner::Runner;
use cli_core::Command;

#[test]
fn runner_test_command_creation() {
    let cmd = Command::new("echo".to_string(), vec!["hello".to_string()]);
    assert_eq!(cmd.name, "echo");
    assert_eq!(cmd.args, vec!["hello"]);
    assert!(cmd.stdin.is_none());
    assert!(cmd.stdout.is_none());
}

#[test]
fn test_command_with_stdin() {
    let cmd = Command::new("cat".to_string(), vec![]).with_stdin("input data".to_string());
    assert!(cmd.stdin.is_some());
    assert_eq!(cmd.stdin.unwrap(), "input data");
}

#[test]
fn test_command_with_stdout() {
    let cmd = Command::new("echo".to_string(), vec!["hello".to_string()])
        .with_stdout("output.txt".to_string());
    assert!(cmd.stdout.is_some());
    assert_eq!(cmd.stdout.unwrap(), "output.txt");
}

#[test]
fn runner_test_command_builder_pattern() {
    let cmd = Command::new("test".to_string(), vec!["arg1".to_string()])
        .with_stdin("input".to_string())
        .with_stdout("output.txt".to_string());

    assert_eq!(cmd.name, "test");
    assert_eq!(cmd.args, vec!["arg1"]);
    assert_eq!(cmd.stdin.unwrap(), "input");
    assert_eq!(cmd.stdout.unwrap(), "output.txt");
}

#[test]
fn test_runner_creation() {
    let bin_path = "/test/bin".to_string();
    let env_vars = vec![("TEST_VAR".to_string(), "test_value".to_string())];

    let runner = Runner::new(bin_path.clone(), env_vars.clone());
    assert_eq!(runner.bin_path, bin_path);
    assert_eq!(runner.env_vars, env_vars);
}

#[test]
fn test_runner_env_vars() {
    let mut runner = Runner::new("/test/bin".to_string(), vec![]);

    runner.set_env_var("TEST_VAR".to_string(), "test_value".to_string());
    assert_eq!(runner.get_env_var("TEST_VAR"), Some("test_value".to_string()));
    assert_eq!(runner.get_env_var("NONEXISTENT_VAR"), None);

    runner.set_env_var("TEST_VAR".to_string(), "other".to_string());
    assert_eq!(runner.get_env_var("TEST_VAR"), Some("other".to_string()));
}

#[test]
fn test_command_redirection_builder_pattern() {
    let cmd = Command::new("test".to_string(), vec!["arg".to_string()])
        .with_stdin("input data".to_string())
        .with_stdout("output.txt".to_string())
        .with_append_stdout(true);

    assert_eq!(cmd.name, "test");
    assert_eq!(cmd.args, vec!["arg"]);
    assert_eq!(cmd.stdin.as_deref(), Some("input data"));
    assert_eq!(cmd.stdout.as_deref(), Some("output.txt"));
    assert!(cmd.append_stdout);
}
