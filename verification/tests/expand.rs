use dsh::expand::{expand_vars_into_arg, name_char, string_match};
use dsh::vars::VarMap;

fn overrides() -> VarMap {
    let mut overridemap = VarMap::new();
    overridemap.insert("VAR".to_string(), "Nothing".to_string());
    overridemap
}

#[test]
fn test_expand_var_simple() {
    let mut overridemap = VarMap::new();
    overridemap.insert("VAR".to_string(), "Nothing".to_string());
    let new_arg = expand_vars_into_arg(&overridemap, &VarMap::new(), "$VAR");

    assert_eq!(new_arg, "Nothing".to_string());
}

#[test]
fn test_expand_var_double() {
    let mut overridemap = VarMap::new();
    overridemap.insert("VAR".to_string(), "Nothing".to_string());
    let new_arg = expand_vars_into_arg(&overridemap, &VarMap::new(), "$VAR$VAR");

    assert_eq!(new_arg, "NothingNothing".to_string());
}

#[test]
fn test_expand_var_escape() {
    let mut overridemap = VarMap::new();
    overridemap.insert("VAR".to_string(), "Nothing".to_string());
    let new_arg = expand_vars_into_arg(&overridemap, &VarMap::new(), "$VAR\\$VAR");

    assert_eq!(new_arg, "Nothing$VAR".to_string());
}

#[test]
fn unset_variable_expands_to_nothing() {
    let new_arg = expand_vars_into_arg(&VarMap::new(), &VarMap::new(), "$UNSET");
    assert_eq!(new_arg, "".to_string());
}

#[test]
fn unset_variable_inside_text() {
    let new_arg = expand_vars_into_arg(&VarMap::new(), &VarMap::new(), "a$UNSET-b");
    assert_eq!(new_arg, "a-b".to_string());
}

#[test]
fn environment_is_the_fallback() {
    let mut env = VarMap::new();
    env.insert("HOME".to_string(), "/home/me".to_string());
    let new_arg = expand_vars_into_arg(&overrides(), &env, "$HOME:$VAR");
    assert_eq!(new_arg, "/home/me:Nothing".to_string());
}

#[test]
fn override_wins_over_environment() {
    let mut env = VarMap::new();
    env.insert("VAR".to_string(), "Something".to_string());
    let new_arg = expand_vars_into_arg(&overrides(), &env, "$VAR");
    assert_eq!(new_arg, "Nothing".to_string());
}

#[test]
fn character_that_ends_a_name_is_kept() {
    let new_arg = expand_vars_into_arg(&overrides(), &VarMap::new(), "$VAR/bin");
    assert_eq!(new_arg, "Nothing/bin".to_string());
}

#[test]
fn name_stops_at_non_ascii_letter() {
    let new_arg = expand_vars_into_arg(&overrides(), &VarMap::new(), "$VARé");
    assert_eq!(new_arg, "Nothingé".to_string());
}

#[test]
fn underscore_and_digits_belong_to_a_name() {
    let mut vars = VarMap::new();
    vars.insert("A_1".to_string(), "x".to_string());
    let new_arg = expand_vars_into_arg(&vars, &VarMap::new(), "$A_1.$A");
    assert_eq!(new_arg, "x.".to_string());
}

#[test]
fn plain_text_is_unchanged() {
    let new_arg = expand_vars_into_arg(&overrides(), &VarMap::new(), "ls -la /tmp");
    assert_eq!(new_arg, "ls -la /tmp".to_string());
}

#[test]
fn escaped_characters_are_literal() {
    let new_arg = expand_vars_into_arg(&overrides(), &VarMap::new(), "\\$VAR \\\\ \\a");
    assert_eq!(new_arg, "$VAR \\ a".to_string());
}

#[test]
fn dangling_escape_is_kept() {
    let new_arg = expand_vars_into_arg(&overrides(), &VarMap::new(), "abc\\");
    assert_eq!(new_arg, "abc\\".to_string());
}

#[test]
fn dangling_escape_after_a_name_is_kept() {
    let new_arg = expand_vars_into_arg(&overrides(), &VarMap::new(), "$VAR\\");
    assert_eq!(new_arg, "Nothing\\".to_string());
}

#[test]
fn lone_dollar_expands_the_empty_name() {
    let new_arg = expand_vars_into_arg(&overrides(), &VarMap::new(), "a$");
    assert_eq!(new_arg, "a".to_string());
}

#[test]
fn empty_argument_expands_to_itself() {
    let new_arg = expand_vars_into_arg(&overrides(), &VarMap::new(), "");
    assert_eq!(new_arg, "".to_string());
}

#[test]
fn name_characters() {
    assert!(name_char('a'));
    assert!(name_char('Z'));
    assert!(name_char('0'));
    assert!(name_char('_'));
    assert!(!name_char('-'));
    assert!(!name_char('$'));
    assert!(!name_char('é'));
}

#[test]
fn unquoted_text_is_kept() {
    assert_eq!(string_match("abc"), "abc".to_string());
    assert_eq!(string_match(&string_match("abc")), "abc".to_string());
}

#[test]
fn single_quotes_are_stripped() {
    assert_eq!(string_match("'abc'"), "abc".to_string());
}

#[test]
fn double_quotes_are_stripped() {
    assert_eq!(string_match("\"a b\""), "a b".to_string());
}

#[test]
fn only_one_layer_of_quotes_is_stripped() {
    assert_eq!(string_match("''abc''"), "'abc'".to_string());
}

#[test]
fn unmatched_quotes_are_kept() {
    assert_eq!(string_match("'abc\""), "'abc\"".to_string());
    assert_eq!(string_match("'abc"), "'abc".to_string());
    assert_eq!(string_match("abc'"), "abc'".to_string());
    assert_eq!(string_match("'"), "'".to_string());
}

#[test]
fn empty_quotes_strip_to_nothing() {
    assert_eq!(string_match("''"), "".to_string());
    assert_eq!(string_match(""), "".to_string());
}
