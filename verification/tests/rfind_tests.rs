use rutils::error::ConfigError;
use rutils::rfind::keeps;
use rutils::rfind::list_walk;
use rutils::rfind::run;
use rutils::rfind::Config;
use rutils::rfind::Entry;
use rutils::rfind::EntryType;
use rutils::rfind::NamePattern;
use rutils::rfind::Visit;

fn strings(items: &[&str]) -> Vec<String> {
    items.iter().map(|s| s.to_string()).collect()
}

fn config(names: &[&str], types: &[&str]) -> Config {
    match Config::new(strings(&["."]), &strings(names), &strings(types)) {
        Ok(config) => config,
        Err(error) => panic!("refused: {}", error.message()),
    }
}

fn found(path: &str, name: &str, kind: Option<EntryType>) -> Visit {
    Visit::Found(Entry { path: path.to_string(), file_name: name.to_string(), kind })
}

fn tree() -> Vec<Visit> {
    vec![
        found("root", "root", Some(EntryType::Dir)),
        found("root/a.txt", "a.txt", Some(EntryType::File)),
    ]
}

fn larger_tree() -> Vec<Visit> {
    vec![
        found("top", "top", Some(EntryType::Dir)),
        found("top/a.txt", "a.txt", Some(EntryType::File)),
        found("top/sub", "sub", Some(EntryType::Dir)),
        Visit::Failed("top/locked: Permission denied".to_string()),
        found("top/sub/b.csv", "b.csv", Some(EntryType::File)),
        found("top/sub/link.txt", "link.txt", Some(EntryType::Link)),
        found("top/pipe", "pipe", None),
    ]
}

#[test]
fn tags_name_entry_types() {
    assert_eq!(EntryType::from_tag("f"), Some(EntryType::File));
    assert_eq!(EntryType::from_tag("d"), Some(EntryType::Dir));
    assert_eq!(EntryType::from_tag("l"), Some(EntryType::Link));
    assert_eq!(EntryType::from_tag("x"), None);
    assert_eq!(EntryType::from_tag(""), None);
    assert_eq!(EntryType::from_tag("ff"), None);
    assert_eq!(EntryType::from_tag("F"), None);
}

#[test]
fn name_pattern_compiles_or_is_refused() {
    match NamePattern::new("^a.*\\.txt$") {
        Ok(pattern) => assert_eq!(pattern.as_str(), "^a.*\\.txt$"),
        Err(_) => panic!("a valid pattern was refused"),
    }
    match NamePattern::new("(unclosed") {
        Err(ConfigError::InvalidName(name)) => assert_eq!(name, "(unclosed"),
        _ => panic!("an invalid pattern was accepted"),
    }
    assert!(NamePattern::new("*").is_err());
    assert!(NamePattern::new("").is_ok());
}

#[test]
fn name_pattern_matches_anywhere() {
    let pattern = match NamePattern::new("b.d") {
        Ok(pattern) => pattern,
        Err(_) => panic!("refused"),
    };
    assert!(pattern.is_match("abcd"));
    assert!(pattern.is_match("bad"));
    assert!(!pattern.is_match("bd"));
    assert!(!pattern.is_match("BAD"));
    let anchored = match NamePattern::new("^a") {
        Ok(pattern) => pattern,
        Err(_) => panic!("refused"),
    };
    assert!(anchored.is_match("abc"));
    assert!(!anchored.is_match("bca"));
}

#[test]
fn find_config_keeps_its_arguments() {
    let made = Config::new(strings(&["x", "y"]), &strings(&["a", "b$"]), &strings(&["f", "l"]));
    let config = match made {
        Ok(config) => config,
        Err(_) => panic!("refused"),
    };
    assert_eq!(config.paths(), &strings(&["x", "y"]));
    let names: Vec<&str> = config.names().iter().map(|p| p.as_str()).collect();
    assert_eq!(names, vec!["a", "b$"]);
    assert_eq!(config.entry_types(), &vec![EntryType::File, EntryType::Link]);
}

#[test]
fn find_config_refuses_the_first_invalid_name() {
    let made = Config::new(strings(&["."]), &strings(&["ok", "(", "["]), &strings(&["q"]));
    match made {
        Err(error) => {
            assert!(matches!(&error, ConfigError::InvalidName(name) if name == "("));
            assert_eq!(error.message(), "Invalid --name \"(\"");
        }
        Ok(_) => panic!("accepted"),
    }
}

#[test]
fn find_config_refuses_the_first_invalid_type() {
    let made = Config::new(strings(&["."]), &strings(&["ok"]), &strings(&["f", "x", "y"]));
    match made {
        Err(error) => assert!(matches!(&error, ConfigError::InvalidType(tag) if tag == "x")),
        Ok(_) => panic!("accepted"),
    }
}

#[test]
fn keeps_combines_the_filters() {
    let none: Vec<EntryType> = vec![];
    let dirs = vec![EntryType::Dir];
    let files_and_links = vec![EntryType::File, EntryType::Link];
    assert!(keeps(Some(EntryType::File), &none, &vec![]));
    assert!(keeps(None, &none, &vec![]));
    assert!(keeps(Some(EntryType::Dir), &dirs, &vec![]));
    assert!(!keeps(Some(EntryType::File), &dirs, &vec![]));
    assert!(!keeps(None, &dirs, &vec![]));
    assert!(keeps(Some(EntryType::Link), &files_and_links, &vec![]));
    assert!(keeps(Some(EntryType::File), &none, &vec![false, true]));
    assert!(!keeps(Some(EntryType::File), &none, &vec![false, false]));
    assert!(!keeps(Some(EntryType::File), &dirs, &vec![true]));
    assert!(!keeps(Some(EntryType::Dir), &dirs, &vec![false]));
    assert!(keeps(Some(EntryType::Dir), &dirs, &vec![false, false, true]));
}

#[test]
fn directory_filter_lists_only_directories() {
    let outcome = list_walk(&config(&[], &["d"]), &tree());
    assert_eq!(outcome.stdout, "root\n");
}

#[test]
fn empty_filters_list_every_entry() {
    let outcome = list_walk(&config(&[], &[]), &tree());
    assert_eq!(outcome.stdout, "root\nroot/a.txt\n");
    let outcome = list_walk(&config(&[], &[]), &larger_tree());
    assert_eq!(
        outcome.stdout,
        "top\ntop/a.txt\ntop/sub\ntop/sub/b.csv\ntop/sub/link.txt\ntop/pipe\n"
    );
}

#[test]
fn type_and_name_must_both_pass() {
    let outcome = list_walk(&config(&["\\.txt$"], &["f"]), &tree());
    assert_eq!(outcome.stdout, "root/a.txt\n");
    let outcome = list_walk(&config(&["\\.txt$"], &["d"]), &tree());
    assert_eq!(outcome.stdout, "\n");
    let outcome = list_walk(&config(&["\\.txt$"], &["f"]), &larger_tree());
    assert_eq!(outcome.stdout, "top/a.txt\n");
}

#[test]
fn several_types_and_names_are_alternatives() {
    let outcome = list_walk(&config(&["\\.csv$", "^sub$"], &["f", "d"]), &larger_tree());
    assert_eq!(outcome.stdout, "top/sub\ntop/sub/b.csv\n");
    let outcome = list_walk(&config(&[], &["l", "f"]), &larger_tree());
    assert_eq!(outcome.stdout, "top/a.txt\ntop/sub/b.csv\ntop/sub/link.txt\n");
}

#[test]
fn name_filter_reads_the_base_name() {
    let outcome = list_walk(&config(&["top"], &[]), &larger_tree());
    assert_eq!(outcome.stdout, "top\n");
}

#[test]
fn traversal_errors_go_to_the_diagnostic_channel() {
    let outcome = list_walk(&config(&[], &["d"]), &larger_tree());
    assert_eq!(outcome.stdout, "top\ntop/sub\n");
    assert_eq!(outcome.stderr, "top/locked: Permission denied");
    assert_eq!(outcome.failure, None);
}

#[test]
fn each_root_has_its_block() {
    let walks = vec![tree(), vec![], larger_tree()];
    let outcome = run(&config(&[], &["f"]), &walks);
    assert_eq!(outcome.stdout, "root/a.txt\n\ntop/a.txt\ntop/sub/b.csv\n");
    assert_eq!(outcome.stderr, "top/locked: Permission denied");
    assert_eq!(outcome.failure, None);
}

#[test]
fn listing_twice_gives_the_same() {
    let walks = vec![tree(), larger_tree()];
    let c = config(&["a"], &["f", "d"]);
    let first = run(&c, &walks);
    let second = run(&c, &walks);
    assert_eq!(first.stdout, second.stdout);
    assert_eq!(first.stderr, second.stderr);
    assert_eq!(first.failure, second.failure);
}
