use minigrep::{contains_str, search, search_case_insensitive};

#[test]
fn case_sensitive() {
    let query = "duct";
    let contents = "\
Rust:
safe, fast, productive.
Pick three.
DuctDuctDuct";

    assert_eq!(vec!["safe, fast, productive."], search(query, contents));
}

#[test]
fn case_insensitive() {
    let query = "rUsT";

    let contents = "\
Rust
safe, fast, prodrustive.
Pick three.
DuctDuctDuct";

    assert_eq!(
        vec!["Rust", "safe, fast, prodrustive."],
        search_case_insensitive(query, contents)
    );
}

#[test]
fn sensitive_results_hold_the_query_in_order() {
    let contents = "ab\nb\nxbx\nc\nbb";
    let r = search("b", contents);
    assert_eq!(vec!["ab", "b", "xbx", "bb"], r);
    for line in &r {
        assert!(line.contains("b"));
    }
}

#[test]
fn insensitive_finds_at_least_what_sensitive_finds() {
    let contents = "Rust\nrust\nRUST\nsafe";
    let sensitive = search("rust", contents);
    let insensitive = search_case_insensitive("rust", contents);
    assert_eq!(vec!["rust"], sensitive);
    assert_eq!(vec!["Rust", "rust", "RUST"], insensitive);
    assert!(sensitive.len() <= insensitive.len());
    for line in &sensitive {
        assert!(insensitive.contains(line));
    }
}

#[test]
fn searching_twice_gives_the_same_lines() {
    let contents = "one\ntwo\nthree\ntwone";
    assert_eq!(search("one", contents), search("one", contents));
    assert_eq!(search("one", contents), vec!["one", "twone"]);
    assert_eq!(
        search_case_insensitive("ONE", contents),
        search_case_insensitive("ONE", contents)
    );
}

#[test]
fn empty_query_matches_every_line() {
    let contents = "a\n\nb\nc";
    assert_eq!(vec!["a", "", "b", "c"], search("", contents));
    assert_eq!(vec!["a", "", "b", "c"], search_case_insensitive("", contents));
}

#[test]
fn no_match_gives_no_lines() {
    let empty: Vec<&str> = Vec::new();
    assert_eq!(empty, search("zebra", "a\nb\nc"));
    assert_eq!(empty, search_case_insensitive("ZEBRA", "a\nb\nc"));
}

#[test]
fn empty_text_has_no_lines() {
    let empty: Vec<&str> = Vec::new();
    assert_eq!(empty, search("", ""));
    assert_eq!(empty, search("x", ""));
}

#[test]
fn final_newline_adds_no_line() {
    assert_eq!(vec!["a", "b"], search("", "a\nb\n"));
    assert_eq!(vec!["", ""], search("", "\n\n"));
}

#[test]
fn carriage_return_before_newline_is_dropped() {
    assert_eq!(vec!["one", "two"], search("", "one\r\ntwo\r\n"));
    assert_eq!(vec!["a", "b\r"], search("", "a\r\nb\r"));
    assert_eq!(vec!["x\ry"], search("x\ry", "x\ry\nz"));
}

#[test]
fn lines_match_once_each() {
    assert_eq!(vec!["DuctDuctDuct"], search("Duct", "DuctDuctDuct\nduct"));
}

#[test]
fn query_longer_than_line_does_not_match() {
    let empty: Vec<&str> = Vec::new();
    assert_eq!(empty, search("abcdef", "abc\nde"));
}

#[test]
fn lowercasing_reaches_the_matching() {
    assert_eq!(vec!["rust is here"], search_case_insensitive("RUST", "rust is here\nnothing"));
    assert_eq!(vec!["ÄPFEL"], search_case_insensitive("äpfel", "ÄPFEL\nbirne"));
}

#[test]
fn non_ascii_text_is_sliced_by_characters() {
    assert_eq!(vec!["grüße dich", "süß"], search("ß", "grüße dich\nhallo\nsüß"));
}

#[test]
fn contains_str_finds_parts() {
    assert!(contains_str("productive", "duct"));
    assert!(contains_str("abc", ""));
    assert!(contains_str("", ""));
    assert!(!contains_str("", "a"));
    assert!(!contains_str("Duct", "duct"));
    assert!(contains_str("aab", "ab"));
}
