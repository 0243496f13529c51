use minigrep::{matches_for, Config, ConfigError};

fn args(words: &[&str]) -> Vec<String> {
    words.iter().map(|w| w.to_string()).collect()
}

#[test]
fn three_arguments_without_variable_are_case_sensitive() {
    let c = Config::new(&args(&["prog", "to", "poem.txt"]), false).unwrap();
    assert_eq!("to", c.query);
    assert_eq!("poem.txt", c.filename);
    assert!(!c.case_insensitive);
}

#[test]
fn flag_true_turns_case_insensitive_on_whatever_the_variable() {
    let a = args(&["prog", "to", "poem.txt", "true"]);
    assert!(Config::new(&a, false).unwrap().case_insensitive);
    assert!(Config::new(&a, true).unwrap().case_insensitive);
}

#[test]
fn fewer_than_three_arguments_are_refused() {
    for words in [&[][..], &["prog"][..], &["prog", "to"][..]] {
        match Config::new(&args(words), true) {
            Err(e) => assert_eq!(ConfigError::InsufficientArguments, e),
            Ok(_) => panic!("accepted too few arguments"),
        }
    }
}

#[test]
fn variable_decides_without_flag() {
    let c = Config::new(&args(&["prog", "to", "poem.txt"]), true).unwrap();
    assert!(c.case_insensitive);
}

#[test]
fn flag_other_than_true_turns_it_off() {
    for flag in ["True", "TRUE", "1", "false", "", "true "] {
        let c = Config::new(&args(&["prog", "to", "poem.txt", flag]), true).unwrap();
        assert!(!c.case_insensitive, "flag {:?}", flag);
    }
}

#[test]
fn arguments_are_taken_verbatim() {
    let c = Config::new(&args(&["prog", " a b ", "", "true", "extra"]), false).unwrap();
    assert_eq!(" a b ", c.query);
    assert_eq!("", c.filename);
    assert!(c.case_insensitive);
}

#[test]
fn error_has_a_message() {
    assert_eq!("Not enough arguments enterd", ConfigError::InsufficientArguments.message());
}

#[test]
fn config_picks_the_mode() {
    let contents = "Rust\nrust\ntrust";
    let sensitive = Config::new(&args(&["prog", "Rust", "f"]), false).unwrap();
    assert_eq!(vec!["Rust"], matches_for(&sensitive, contents));
    let insensitive = Config::new(&args(&["prog", "Rust", "f", "true"]), false).unwrap();
    assert_eq!(vec!["Rust", "rust", "trust"], matches_for(&insensitive, contents));
}
