// Tests for variable expansion: adjacency, longest match, raw tokens.

use cli_core::{Environment, Expander, Token, TokenMode};

#[test]
fn expander_test_adjacent_variable_expansion() {
    let mut env = Environment::new();
    env.set("x", "ex");
    env.set("y", "it");

    let exp = Expander::default();
    let tokens = vec![Token::new("$x$y".to_string(), TokenMode::Full)];
    let res = exp.expand_tokens(&env, tokens).expect("expand failed");
    assert_eq!(res, vec!["exit".to_string()]);
}

#[test]
fn test_mixed_adjacent_and_literal() {
    let mut env = Environment::new();
    env.set("A", "1");
    env.set("B", "2");

    let exp = Expander::default();
    // pre$A$Bp should expand to pre12p, not pre1 (where $Bp would be an
    // undefined variable)
    let tokens = vec![Token::new("pre$A$Bp".to_string(), TokenMode::Full)];
    let res = exp.expand_tokens(&env, tokens).expect("expand failed");
    assert_eq!(res, vec!["pre12p".to_string()]);

    // Also test braced variables to ensure deterministic behavior
    let tokens = vec![Token::new("pre${A}${B}post".to_string(), TokenMode::Full)];
    let res = exp.expand_tokens(&env, tokens).expect("expand failed");
    assert_eq!(res, vec!["pre12post".to_string()]);
}

#[test]
fn test_variable_with_trailing_text() {
    let mut env = Environment::new();
    env.set("VAR", "value");

    let exp = Expander::default();
    let tokens = vec![Token::new("$VARtext".to_string(), TokenMode::Full)];
    let res = exp.expand_tokens(&env, tokens).expect("expand failed");
    assert_eq!(res, vec!["valuetext".to_string()]);
}

#[test]
fn test_raw_token_never_expands() {
    let mut env = Environment::new();
    env.set("X", "42");

    let exp = Expander::default();
    let tokens = vec![Token::new("$X".to_string(), TokenMode::Raw)];
    let res = exp.expand_tokens(&env, tokens).expect("expand failed");
    assert_eq!(res, vec!["$X".to_string()]);
}

#[test]
fn test_braced_variables() {
    let mut env = Environment::new();
    env.set("A", "1");
    env.set("B", "2");

    let exp = Expander::default();
    let tokens = vec![Token::new("${A}${B}".to_string(), TokenMode::Full)];
    let res = exp.expand_tokens(&env, tokens).expect("expand failed");
    assert_eq!(res, vec!["12".to_string()]);
}

#[test]
fn test_undefined_variable_expands_empty() {
    let env = Environment::new();

    let exp = Expander::default();
    let tokens = vec![
        Token::new("a${GONE}b".to_string(), TokenMode::Full),
        Token::new("x$GONEy".to_string(), TokenMode::Weak),
    ];
    let res = exp.expand_tokens(&env, tokens).expect("expand failed");
    // ${GONE} is unambiguous and vanishes; $GONEy has no defined prefix,
    // so the dollar stays literal
    assert_eq!(res, vec!["ab".to_string(), "x$GONEy".to_string()]);
}

#[test]
fn test_escaped_dollar_survives_expansion() {
    let mut env = Environment::new();
    env.set("X", "42");

    let exp = Expander::default();
    let tokens = vec![Token::new("\\$X".to_string(), TokenMode::Weak)];
    let res = exp.expand_tokens(&env, tokens).expect("expand failed");
    assert_eq!(res, vec!["$X".to_string()]);
}

#[test]
fn test_expansion_identity_without_dollar() {
    let mut env = Environment::new();
    env.set("A", "1");

    let exp = Expander::default();
    let tokens = vec![Token::new("plain text, no references".to_string(), TokenMode::Full)];
    let res = exp.expand_tokens(&env, tokens).expect("expand failed");
    assert_eq!(res, vec!["plain text, no references".to_string()]);
}
