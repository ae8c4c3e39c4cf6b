use test_gates::guard::{env_value, run_guarded, skip_message, EnvEntry, GuardOutcome};

fn entry(name: &str, value: &str) -> EnvEntry {
    EnvEntry { name: name.to_string(), value: value.to_string() }
}

#[test]
fn it_works() {
    assert_eq!(2 + 2, 4);
}

#[test]
fn test_always_runs() {
    // No required variables: the guard sequence never fires.
    let vars: Vec<String> = Vec::new();
    let env: Vec<EnvEntry> = Vec::new();
    assert!(matches!(run_guarded(&vars, &env), GuardOutcome::RunBody));
    println!("This test always runs because it doesn't require any env vars");
    assert!(true);
}

#[test]
fn test_with_env_var() {
    let vars = vec!["TEST_ENV_VAR1".to_string()];
    let env = vec![entry("TEST_ENV_VAR1", "value1")];
    assert!(matches!(run_guarded(&vars, &env), GuardOutcome::RunBody));
    println!("Test with environment variable is running");
    assert!(true);
}

#[test]
fn test_single_env_var() {
    let vars = vec!["TEST_ENV_VAR1".to_string()];
    let env = vec![entry("TEST_ENV_VAR1", "value1")];
    assert!(matches!(run_guarded(&vars, &env), GuardOutcome::RunBody));
    let var = env_value(&env, &"TEST_ENV_VAR1".to_string()).unwrap();
    println!("TEST_ENV_VAR1 = {}", var);
    assert!(true);
}

#[test]
fn test_multiple_env_vars() {
    let vars = vec!["TEST_ENV_VAR1".to_string(), "TEST_ENV_VAR2".to_string()];
    let env = vec![entry("TEST_ENV_VAR1", "value1"), entry("TEST_ENV_VAR2", "value2")];
    assert!(matches!(run_guarded(&vars, &env), GuardOutcome::RunBody));
    let var1 = env_value(&env, &"TEST_ENV_VAR1".to_string()).unwrap();
    let var2 = env_value(&env, &"TEST_ENV_VAR2".to_string()).unwrap();
    println!("TEST_ENV_VAR1 = {}", var1);
    println!("TEST_ENV_VAR2 = {}", var2);
    assert!(true);
}

#[test]
fn skip_message_exact_text() {
    assert_eq!(
        skip_message("X"),
        "Skipping test: Required environment variable 'X' not found"
    );
}

#[test]
fn unset_variable_skips_with_exact_message() {
    // One required variable that is not in the environment: the guard
    // fires and the function does not reach its body.
    let vars = vec!["X".to_string()];
    let env: Vec<EnvEntry> = Vec::new();
    match run_guarded(&vars, &env) {
        GuardOutcome::Skip(msg) => {
            assert_eq!(msg, "Skipping test: Required environment variable 'X' not found");
        }
        GuardOutcome::RunBody => panic!("body must not run"),
    }
}

#[test]
fn set_to_empty_string_counts_as_present() {
    // An explicitly set empty value is present: the body runs.
    let vars = vec!["X".to_string()];
    let env = vec![entry("X", "")];
    assert!(matches!(run_guarded(&vars, &env), GuardOutcome::RunBody));
}

#[test]
fn first_missing_short_circuits() {
    // [A, B] with A unset and B set: the message names A alone.
    let vars = vec!["A".to_string(), "B".to_string()];
    let env = vec![entry("B", "set")];
    match run_guarded(&vars, &env) {
        GuardOutcome::Skip(msg) => {
            assert_eq!(msg, "Skipping test: Required environment variable 'A' not found");
            assert!(!msg.contains('B'));
        }
        GuardOutcome::RunBody => panic!("body must not run"),
    }
}

#[test]
fn missing_in_the_middle_names_it_alone() {
    // [A, B, C] with A and C set, B unset: the message names B only.
    let vars = vec!["A".to_string(), "B".to_string(), "C".to_string()];
    let env = vec![entry("A", "1"), entry("C", "3")];
    match run_guarded(&vars, &env) {
        GuardOutcome::Skip(msg) => {
            assert_eq!(msg, "Skipping test: Required environment variable 'B' not found");
        }
        GuardOutcome::RunBody => panic!("body must not run"),
    }
}

#[test]
fn all_present_runs_body() {
    let vars = vec!["A".to_string(), "B".to_string()];
    let env = vec![entry("A", "1"), entry("B", "2")];
    assert!(matches!(run_guarded(&vars, &env), GuardOutcome::RunBody));
}

#[test]
fn duplicate_names_are_checked_like_any_other() {
    let vars = vec!["A".to_string(), "A".to_string()];
    let env = vec![entry("A", "1")];
    assert!(matches!(run_guarded(&vars, &env), GuardOutcome::RunBody));
    let none: Vec<EnvEntry> = Vec::new();
    assert!(matches!(run_guarded(&vars, &none), GuardOutcome::Skip(_)));
}

#[test]
fn env_value_returns_first_binding() {
    let env = vec![entry("A", "first"), entry("A", "second")];
    assert_eq!(env_value(&env, &"A".to_string()).unwrap(), "first");
    assert!(env_value(&env, &"B".to_string()).is_none());
}
