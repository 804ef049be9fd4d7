// Tests for stdin and stdout redirection parsing.

use cli_core::{Environment, InputProcessorBuilder};

#[test]
fn test_input_processor_stdin_parsing() {
    let env = Environment::new();
    let ip = InputProcessorBuilder::new(env).build();

    // Test basic stdin redirection parsing
    let cmds = ip.process("cat < input.txt").unwrap();
    assert_eq!(cmds.len(), 1);
    let cmd = &cmds[0];
    assert_eq!(cmd.name, "cat");
    assert_eq!(cmd.stdin.as_deref(), Some("input.txt"));
    assert!(cmd.stdout.is_none());
}

#[test]
fn test_input_processor_stdout_parsing() {
    let env = Environment::new();
    let ip = InputProcessorBuilder::new(env).build();

    // Test basic stdout redirection parsing
    let cmds = ip.process("echo hello > output.txt").unwrap();
    assert_eq!(cmds.len(), 1);
    let cmd = &cmds[0];
    assert_eq!(cmd.name, "echo");
    assert_eq!(cmd.args, vec!["hello"]);
    assert_eq!(cmd.stdout.as_deref(), Some("output.txt"));
    assert!(!cmd.append_stdout);
}

#[test]
fn test_input_processor_stdout_append_parsing() {
    let env = Environment::new();
    let ip = InputProcessorBuilder::new(env).build();

    // Test stdout append redirection parsing
    let cmds = ip.process("echo hello >> output.txt").unwrap();
    assert_eq!(cmds.len(), 1);
    let cmd = &cmds[0];
    assert_eq!(cmd.name, "echo");
    assert_eq!(cmd.args, vec!["hello"]);
    assert_eq!(cmd.stdout.as_deref(), Some("output.txt"));
    assert!(cmd.append_stdout);
}

#[test]
fn test_input_processor_combined_redirection_parsing() {
    let env = Environment::new();
    let ip = InputProcessorBuilder::new(env).build();

    // Test combined stdin and stdout redirection
    let cmds = ip.process("grep pattern < input.txt > output.txt").unwrap();
    assert_eq!(cmds.len(), 1);
    let cmd = &cmds[0];
    assert_eq!(cmd.name, "grep");
    assert_eq!(cmd.args, vec!["pattern"]);
    assert_eq!(cmd.stdin.as_deref(), Some("input.txt"));
    assert_eq!(cmd.stdout.as_deref(), Some("output.txt"));
    assert!(!cmd.append_stdout);
}

#[test]
fn test_input_processor_complex_redirection_with_quotes() {
    let env = Environment::new();
    let ip = InputProcessorBuilder::new(env).build();

    // Test redirection with quoted filenames
    let cmds = ip
        .process(r#"cat < "input file.txt" > "output file.txt""#)
        .unwrap();
    assert_eq!(cmds.len(), 1);
    let cmd = &cmds[0];
    assert_eq!(cmd.name, "cat");
    assert_eq!(cmd.stdin.as_deref(), Some("input file.txt"));
    assert_eq!(cmd.stdout.as_deref(), Some("output file.txt"));
}

#[test]
fn test_input_processor_multiple_redirections() {
    let env = Environment::new();
    let ip = InputProcessorBuilder::new(env).build();

    // Test multiple redirection operators (should use last one)
    let cmds = ip.process("echo test > file1.txt > file2.txt").unwrap();
    assert_eq!(cmds.len(), 1);
    let cmd = &cmds[0];
    assert_eq!(cmd.name, "echo");
    assert_eq!(cmd.args, vec!["test"]);
    assert_eq!(cmd.stdout.as_deref(), Some("file2.txt"));
}

#[test]
fn test_input_processor_redirection_with_environment_vars() {
    let vars = vec![
        ("OUTFILE".to_string(), "result.txt".to_string()),
        ("INFILE".to_string(), "source.txt".to_string()),
    ];
    let env = Environment::with_vars(vars);
    let ip = InputProcessorBuilder::new(env).build();

    let cmds = ip.process("cat < $INFILE > $OUTFILE").unwrap();
    assert_eq!(cmds.len(), 1);
    let cmd = &cmds[0];
    assert_eq!(cmd.name, "cat");
    assert_eq!(cmd.stdin.as_deref(), Some("source.txt"));
    assert_eq!(cmd.stdout.as_deref(), Some("result.txt"));
}
