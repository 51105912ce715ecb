use minigrep::{contains, search, search_case_insensitive};

#[test]
fn case_sensitive() {
    let query = "duct";
    let contents = "
Rust: 
safe, fast, productive.
Pick three.
Duct tape.";
    assert_eq!("safe, fast, productive.", search(query, contents)[0].0)
}

#[test]
fn case_insensitive() {
    let query = "RuSt";
    let contents = "\
Rust:
safe, fast, productive
Trust me.";
    assert_eq!(
        vec![("Rust:", 1), ("Trust me.", 3)],
        search_case_insensitive(query, contents),
    );
}

#[test]
fn case_sensitive_exact_result() {
    let contents = "\nRust:\nsafe, fast, productive.\nPick three.\nDuct tape.";
    assert_eq!(vec![("safe, fast, productive.", 3)], search("duct", contents));
}

#[test]
fn case_sensitive_rejects_other_case() {
    let contents = "Rust:\nsafe, fast, productive\nTrust me.";
    assert_eq!(Vec::<(&str, i32)>::new(), search("RuSt", contents));
    assert_eq!(vec![("Rust:", 1)], search("Rust", contents));
}

#[test]
fn case_insensitive_finds_case_variants() {
    let contents = "HELLO\nhello\nHeLlO world\nbye";
    assert_eq!(
        vec![("HELLO", 1), ("hello", 2), ("HeLlO world", 3)],
        search_case_insensitive("hello", contents),
    );
}

#[test]
fn empty_query_finds_every_line() {
    let contents = "one\n\nthree";
    let all = vec![("one", 1), ("", 2), ("three", 3)];
    assert_eq!(all, search("", contents));
    assert_eq!(all, search_case_insensitive("", contents));
}

#[test]
fn absent_query_finds_nothing() {
    let contents = "alpha\nbeta\ngamma";
    assert!(search("delta", contents).is_empty());
    assert!(search_case_insensitive("DELTA", contents).is_empty());
}

#[test]
fn empty_contents_finds_nothing() {
    assert!(search("", "").is_empty());
    assert!(search_case_insensitive("a", "").is_empty());
}

#[test]
fn numbers_rise_from_one() {
    let contents = "ab\nb\nab\nc\nab";
    let found = search("ab", contents);
    assert_eq!(vec![("ab", 1), ("ab", 3), ("ab", 5)], found);
    for w in found.windows(2) {
        assert!(w[0].1 < w[1].1);
    }
}

#[test]
fn line_endings() {
    let contents = "first\r\nsecond\n\nlast\n";
    assert_eq!(
        vec![("first", 1), ("second", 2), ("", 3), ("last", 4)],
        search("", contents),
    );
    assert_eq!(vec![("first", 1)], search("first", contents));
    assert!(search("\r", contents).is_empty());
    assert_eq!(vec![("a\r", 1)], search("a", "a\r"));
}

#[test]
fn lines_are_views_of_the_text() {
    let contents = String::from("x\nyx\nz");
    let found = search("x", &contents);
    let base = contents.as_ptr() as usize;
    assert_eq!(found[1].0.as_ptr() as usize, base + 2);
}

#[test]
fn case_insensitive_beyond_ascii() {
    let contents = "ÜBER\nüber\nuber";
    assert_eq!(
        vec![("ÜBER", 1), ("über", 2)],
        search_case_insensitive("Über", contents),
    );
}

#[test]
fn contains_on_given_values() {
    assert!(contains("safe, fast, productive.", "duct"));
    assert!(!contains("Duct tape.", "duct"));
    assert!(contains("anything", ""));
    assert!(!contains("", "a"));
    assert!(contains("abc", "abc"));
    assert!(!contains("ab", "abc"));
}
