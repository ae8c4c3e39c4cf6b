use test_gates::args::parse_env_vars;

#[test]
fn empty_payload_gives_empty_list() {
    let vars = parse_env_vars("");
    assert!(vars.is_empty());
}

#[test]
fn whitespace_only_payload_gives_empty_list() {
    let vars = parse_env_vars("  \t\n");
    assert!(vars.is_empty());
}

#[test]
fn single_literal() {
    let vars = parse_env_vars("\"HOME\"");
    assert_eq!(vars, vec!["HOME".to_string()]);
}

#[test]
fn several_literals_in_order() {
    let vars = parse_env_vars("\"A\", \"B\", \"C\"");
    assert_eq!(vars, vec!["A".to_string(), "B".to_string(), "C".to_string()]);
}

#[test]
fn trailing_comma_is_allowed() {
    let vars = parse_env_vars("\"A\", \"B\",");
    assert_eq!(vars, vec!["A".to_string(), "B".to_string()]);
}

#[test]
fn whitespace_between_tokens_is_ignored() {
    let vars = parse_env_vars("  \"A\"\t,\n  \"B\"  ");
    assert_eq!(vars, vec!["A".to_string(), "B".to_string()]);
}

#[test]
fn duplicates_are_kept() {
    let vars = parse_env_vars("\"A\", \"A\"");
    assert_eq!(vars, vec!["A".to_string(), "A".to_string()]);
}

#[test]
fn empty_literal_is_kept_as_empty_name() {
    let vars = parse_env_vars("\"\"");
    assert_eq!(vars, vec!["".to_string()]);
}

#[test]
fn escapes_are_decoded() {
    let vars = parse_env_vars("\"a\\\"b\", \"c\\\\d\", \"e\\nf\"");
    assert_eq!(
        vars,
        vec!["a\"b".to_string(), "c\\d".to_string(), "e\nf".to_string()]
    );
}

#[test]
fn bare_number_fails_open() {
    let vars = parse_env_vars("42");
    assert!(vars.is_empty());
}

#[test]
fn unterminated_literal_fails_open() {
    let vars = parse_env_vars("\"A");
    assert!(vars.is_empty());
}

#[test]
fn missing_comma_fails_open() {
    let vars = parse_env_vars("\"A\" \"B\"");
    assert!(vars.is_empty());
}

#[test]
fn leading_comma_fails_open() {
    let vars = parse_env_vars(", \"A\"");
    assert!(vars.is_empty());
}

#[test]
fn unknown_escape_fails_open() {
    let vars = parse_env_vars("\"a\\qb\"");
    assert!(vars.is_empty());
}

#[test]
fn trailing_garbage_fails_open() {
    let vars = parse_env_vars("\"A\", 7");
    assert!(vars.is_empty());
}

#[test]
fn hex_escape_is_decoded() {
    assert_eq!(parse_env_vars("\"\\x41\""), vec!["A".to_string()]);
    assert_eq!(parse_env_vars("\"\\x7f\""), vec!["\u{7F}".to_string()]);
}

#[test]
fn hex_escape_above_7f_fails_open() {
    assert!(parse_env_vars("\"\\x80\"").is_empty());
}

#[test]
fn hex_escape_bad_digit_fails_open() {
    assert!(parse_env_vars("\"\\xg1\"").is_empty());
    assert!(parse_env_vars("\"\\x4\"").is_empty());
}

#[test]
fn unicode_escape_is_decoded() {
    assert_eq!(parse_env_vars("\"\\u{48}\""), vec!["H".to_string()]);
    assert_eq!(parse_env_vars("\"\\u{1F600}\""), vec!["\u{1F600}".to_string()]);
}

#[test]
fn unicode_escape_allows_underscores_after_first_digit() {
    assert_eq!(parse_env_vars("\"\\u{4_1}\""), vec!["A".to_string()]);
    assert!(parse_env_vars("\"\\u{_41}\"").is_empty());
}

#[test]
fn unicode_escape_rejects_surrogates_and_bad_forms() {
    assert!(parse_env_vars("\"\\u{D800}\"").is_empty());
    assert!(parse_env_vars("\"\\u{}\"").is_empty());
    assert!(parse_env_vars("\"\\u{0000041}\"").is_empty());
    assert!(parse_env_vars("\"\\u41\"").is_empty());
    assert!(parse_env_vars("\"\\u{110000}\"").is_empty());
}

#[test]
fn line_continuation_skips_following_whitespace() {
    assert_eq!(parse_env_vars("\"a\\\n   b\""), vec!["ab".to_string()]);
    assert_eq!(parse_env_vars("\"a\\\r\t b\""), vec!["ab".to_string()]);
}

#[test]
fn crlf_inside_literal_folds_to_lf() {
    assert_eq!(parse_env_vars("\"a\r\nb\""), vec!["a\nb".to_string()]);
}

#[test]
fn bare_carriage_return_fails_open() {
    assert!(parse_env_vars("\"a\rb\"").is_empty());
}

#[test]
fn raw_string_is_taken_verbatim() {
    assert_eq!(parse_env_vars("r\"A\""), vec!["A".to_string()]);
    assert_eq!(parse_env_vars("r\"a\\nb\""), vec!["a\\nb".to_string()]);
}

#[test]
fn raw_string_with_pounds() {
    assert_eq!(parse_env_vars("r#\"a\"b\"#"), vec!["a\"b".to_string()]);
    assert_eq!(parse_env_vars("r##\"x\"#y\"##"), vec!["x\"#y".to_string()]);
}

#[test]
fn raw_and_cooked_literals_mix() {
    assert_eq!(
        parse_env_vars("r\"A\", \"B\","),
        vec!["A".to_string(), "B".to_string()]
    );
}

#[test]
fn raw_string_bad_forms_fail_open() {
    assert!(parse_env_vars("r#\"A\"").is_empty());
    assert!(parse_env_vars("rx").is_empty());
    assert!(parse_env_vars("r#A\"\"#").is_empty());
}
