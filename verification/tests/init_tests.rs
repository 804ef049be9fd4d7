// Tests for the shell's start-up configuration.

use cli_core::init::Init;

#[test]
fn test_with_config_init() {
    let env_vars = vec![("TEST_VAR".to_string(), "42".to_string())];
    let bin_path = "/test_path/bin".to_string();

    let init = Init::with_config(env_vars, bin_path.clone());
    assert_eq!(init.get_env("TEST_VAR"), Some("42".to_string()));
    assert_eq!(init.bin_path, bin_path);
}

#[test]
fn test_set_env() {
    let mut init = Init::with_config(vec![], "target/debug".to_string());
    init.set_env("NEW_VAR".to_string(), "new_value".to_string());
    assert_eq!(init.get_env("NEW_VAR"), Some("new_value".to_string()));
}

#[test]
fn test_env_vars_listing() {
    let pairs = vec![
        ("A".to_string(), "1".to_string()),
        ("B".to_string(), "2".to_string()),
    ];
    let init = Init::with_config(pairs.clone(), "bin".to_string());
    assert_eq!(init.env_vars(), &pairs);
    assert_eq!(init.get_env("MISSING"), None);
}
