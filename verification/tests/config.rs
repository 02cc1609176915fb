use minigrep::config::{CASE_INSENSITIVE_VAR, MISSING_ARGUMENTS};
use minigrep::Config;

fn args(words: &[&str]) -> Vec<String> {
    let mut all = Vec::new();
    for word in words {
        all.push(String::from(*word));
    }
    all
}

#[test]
fn not_enough_args_err_when_new_config_with_empty_arg() {
    let args: Vec<String> = Vec::new();
    assert!(Config::new(&args, false).is_err());
}

#[test]
fn program_name_alone_is_not_enough() {
    assert_eq!(
        Some(MISSING_ARGUMENTS),
        Config::new(&args(&["executable"]), false).err()
    );
}

#[test]
fn query_without_path_is_not_enough() {
    assert_eq!(
        Some("not enough arguments."),
        Config::new(&args(&["executable", "query"]), false).err()
    );
    assert!(Config::new(&args(&["executable", "query"]), true).is_err());
}

#[test]
fn query_and_path_are_taken_verbatim() {
    let config = Config::new(&args(&["executable", "RuSt ", "./some dir/poem.txt"]), false).unwrap();
    assert_eq!("RuSt ", config.query);
    assert_eq!("./some dir/poem.txt", config.filename);
    assert!(config.case_sensitive);
}

#[test]
fn further_arguments_are_ignored() {
    let config = Config::new(&args(&["executable", "query", "file", "more", "else"]), false).unwrap();
    assert_eq!("query", config.query);
    assert_eq!("file", config.filename);
}

#[test]
fn empty_arguments_are_accepted() {
    let config = Config::new(&args(&["", "", ""]), false).unwrap();
    assert_eq!("", config.query);
    assert_eq!("", config.filename);
}

#[test]
fn flag_turns_case_sensitivity_off() {
    let words = args(&["executable", "query", "file"]);
    assert!(Config::new(&words, false).unwrap().case_sensitive);
    assert!(!Config::new(&words, true).unwrap().case_sensitive);
}

#[test]
fn variable_name_is_case_insensitive() {
    assert_eq!("CASE_INSENSITIVE", CASE_INSENSITIVE_VAR);
}
