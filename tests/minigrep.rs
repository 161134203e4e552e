use exercises::minigrep::{contains, search, search_case_insensitive};

#[test]
fn case_sensitive() {
    let query = "duct";
    let contents = "\
Rust:
safe, fast, productive.
Pick three.";

    assert_eq!(vec!["safe, fast, productive."], search(query, contents));
}

#[test]
fn case_insensitive() {
    let query = "rUsT";
    let contents = "\
Rust:
safe, fast, productive.
Pick three.
Trust me.";

    assert_eq!(
        vec!["Rust:", "Trust me."],
        search_case_insensitive(query, contents)
    );
}

#[test]
fn search_strips_carriage_returns_and_final_newline() {
    let contents = "one fish\r\ntwo fish\r\nred\n";
    assert_eq!(vec!["one fish", "two fish"], search("fish", contents));
    assert_eq!(vec!["red"], search("red", contents));
}

#[test]
fn search_with_empty_query_returns_every_line() {
    assert_eq!(vec!["a", "", "b"], search("", "a\n\nb"));
    assert!(search("x", "").is_empty());
}

#[test]
fn search_keeps_case() {
    assert!(search("rust", "Rust:\nTrust me.").len() == 1);
    assert_eq!(vec!["Trust me."], search("rust", "Rust:\nTrust me."));
}

#[test]
fn case_insensitive_lowers_the_line_too() {
    assert_eq!(vec!["ÉCOLE"], search_case_insensitive("école", "ÉCOLE\nschool"));
}

#[test]
fn contains_finds_runs_of_characters() {
    assert!(contains("productive", "duct"));
    assert!(contains("abc", ""));
    assert!(!contains("abc", "abcd"));
    assert!(!contains("abc", "ac"));
}
