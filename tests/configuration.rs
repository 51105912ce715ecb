use minigrep::{Config, ConfigError};

fn args(v: &[&str]) -> Vec<String> {
    v.iter().map(|s| s.to_string()).collect()
}

#[test]
fn missing_filename_fails() {
    let r = Config::new(args(&["minigrep", "needle"]), None, None);
    assert!(matches!(r, Err(ConfigError::MissingFilename)));
}

#[test]
fn missing_query_fails() {
    assert!(matches!(Config::new(args(&["minigrep"]), None, None), Err(ConfigError::MissingQuery)));
    assert!(matches!(Config::new(Vec::new(), None, None), Err(ConfigError::MissingQuery)));
}

#[test]
fn error_messages() {
    assert_eq!("Didn't get a query string!", ConfigError::MissingQuery.message());
    assert_eq!("Didn't get a file name!", ConfigError::MissingFilename.message());
}

#[test]
fn defaults_without_variables() {
    let c = Config::new(args(&["minigrep", "to", "poem.txt", "extra"]), None, None).unwrap();
    assert_eq!("to", c.query);
    assert_eq!("poem.txt", c.filename);
    assert!(c.case_sensitive);
    assert!(!c.case_skip_space);
}

#[test]
fn case_insensitive_variable_polarity() {
    let a = args(&["minigrep", "to", "poem.txt"]);
    assert!(Config::new(a.clone(), Some("0"), None).unwrap().case_sensitive);
    assert!(!Config::new(a.clone(), Some("1"), None).unwrap().case_sensitive);
    assert!(!Config::new(a.clone(), Some(""), None).unwrap().case_sensitive);
    assert!(!Config::new(a, Some("00"), None).unwrap().case_sensitive);
}

#[test]
fn case_skip_space_variable() {
    let a = args(&["minigrep", "to", "poem.txt"]);
    assert!(!Config::new(a.clone(), None, Some("0")).unwrap().case_skip_space);
    assert!(Config::new(a.clone(), None, Some("1")).unwrap().case_skip_space);
    assert!(Config::new(a, None, Some("")).unwrap().case_skip_space);
}

#[test]
fn find_in_follows_the_configuration() {
    let contents = "Rust:\nsafe, fast, productive\nTrust me.";
    let a = args(&["minigrep", "RuSt", "poem.txt"]);
    let sensitive = Config::new(a.clone(), None, None).unwrap();
    assert!(sensitive.find_in(contents).is_empty());
    let insensitive = Config::new(a, Some("1"), None).unwrap();
    assert_eq!(vec![("Rust:", 1), ("Trust me.", 3)], insensitive.find_in(contents));
}
