use minigrep::grep_config::{ConfigError, GrepConfig, GrepOption, OptionSet};
use minigrep::wildcard::{has_wildcard, matching_paths, Candidate};

fn args(words: &[&str]) -> Vec<String> {
    words.iter().map(|w| w.to_string()).collect()
}

fn found(files: &[&str]) -> Option<Vec<String>> {
    Some(files.iter().map(|f| f.to_string()).collect())
}

fn entries(names: &[&str]) -> Vec<Candidate> {
    names
        .iter()
        .map(|n| Candidate { file_name: n.to_string(), path: format!("dir/{}", n) })
        .collect()
}

#[test]
fn option_set_starts_empty() {
    let set = OptionSet::new();
    for option in [GrepOption::CaseInsensitive, GrepOption::Word, GrepOption::Invert, GrepOption::LineNumber, GrepOption::Count] {
        assert!(!set.contains(option));
    }
}

#[test]
fn option_set_holds_what_was_inserted() {
    let mut set = OptionSet::new();
    assert!(set.insert(GrepOption::Word));
    assert!(!set.insert(GrepOption::Word));
    assert!(set.contains(GrepOption::Word));
    assert!(!set.contains(GrepOption::Count));
    assert_eq!(set, OptionSet::from_options(&vec![GrepOption::Word, GrepOption::Word]));
}

#[test]
fn query_and_file() {
    let config = GrepConfig::new(&args(&["prog", "needle", "hay.txt"]), found(&["hay.txt"])).unwrap();
    assert_eq!(config, GrepConfig {
        options: OptionSet::new(),
        queries: vec!["needle".to_string()],
        filenames: vec!["hay.txt".to_string()],
        num_pre_lines: 0,
        num_post_lines: 0,
    });
}

#[test]
fn switches_in_one_argument() {
    let config = GrepConfig::new(&args(&["prog", "-ivn", "-c", "-w", "q", "f"]), found(&["f"])).unwrap();
    assert_eq!(config.options, OptionSet::from_options(&vec![
        GrepOption::CaseInsensitive, GrepOption::Invert, GrepOption::LineNumber, GrepOption::Count, GrepOption::Word]));
    assert_eq!(config.queries, vec!["q"]);
}

#[test]
fn lines_after_before_and_around() {
    let after = GrepConfig::new(&args(&["prog", "-A", "2", "q", "f"]), found(&["f"])).unwrap();
    assert_eq!((after.num_pre_lines, after.num_post_lines), (0, 2));
    let before = GrepConfig::new(&args(&["prog", "-B", "3", "q", "f"]), found(&["f"])).unwrap();
    assert_eq!((before.num_pre_lines, before.num_post_lines), (3, 0));
    let around = GrepConfig::new(&args(&["prog", "-C", "+4", "q", "f"]), found(&["f"])).unwrap();
    assert_eq!((around.num_pre_lines, around.num_post_lines), (4, 4));
    let both = GrepConfig::new(&args(&["prog", "-C", "4", "-A", "1", "q", "f"]), found(&["f"])).unwrap();
    assert_eq!((both.num_pre_lines, both.num_post_lines), (4, 1));
}

#[test]
fn queries_by_option_and_by_position() {
    let config = GrepConfig::new(&args(&["prog", "-e", "one", "-e", "two", "three", "f"]), found(&["f"])).unwrap();
    assert_eq!(config.queries, vec!["one", "two", "three"]);
    let config = GrepConfig::new(&args(&["prog", "-e", "one", "f"]), found(&["f"])).unwrap();
    assert_eq!(config.queries, vec!["one"]);
}

#[test]
fn letters_that_take_values_take_them_in_turn() {
    let config = GrepConfig::new(&args(&["prog", "-ieA", "pat", "3", "f"]), found(&["f"])).unwrap();
    assert_eq!(config.queries, vec!["pat"]);
    assert_eq!(config.num_post_lines, 3);
    assert!(config.options.contains(GrepOption::CaseInsensitive));
}

#[test]
fn a_query_may_start_with_a_dash_behind_e() {
    let config = GrepConfig::new(&args(&["prog", "-e", "-x", "f"]), found(&["f"])).unwrap();
    assert_eq!(config.queries, vec!["-x"]);
}

#[test]
fn files_are_those_that_were_found() {
    let config = GrepConfig::new(&args(&["prog", "q", "*.txt"]), found(&["b.txt", "a.txt"])).unwrap();
    assert_eq!(config.filenames, vec!["b.txt", "a.txt"]);
}

#[test]
fn no_arguments_miss_the_query() {
    let missing = Err(ConfigError::MissingArg("query".to_string()));
    assert_eq!(GrepConfig::new(&args(&[]), None), missing);
    assert_eq!(GrepConfig::new(&args(&["prog"]), None), missing);
    assert_eq!(GrepConfig::new(&args(&["prog", "-i"]), None), missing);
    assert_eq!(GrepConfig::new(&args(&["prog", "-e", "pat"]), None), missing);
}

#[test]
fn file_without_query_misses_the_query() {
    let r = GrepConfig::new(&args(&["prog", "f"]), found(&["f"]));
    assert_eq!(r, Err(ConfigError::MissingArg("query".to_string())));
}

#[test]
fn letter_without_its_value() {
    assert_eq!(GrepConfig::new(&args(&["prog", "-e"]), None), Err(ConfigError::MissingArg("query".to_string())));
    assert_eq!(GrepConfig::new(&args(&["prog", "-A"]), None), Err(ConfigError::MissingArg("number".to_string())));
    assert_eq!(GrepConfig::new(&args(&["prog", "-ee", "p"]), None), Err(ConfigError::MissingArg("query".to_string())));
}

#[test]
fn unknown_letter() {
    let r = GrepConfig::new(&args(&["prog", "-ix", "q", "f"]), found(&["f"]));
    assert_eq!(r, Err(ConfigError::UnknownOption("x".to_string())));
    let r = GrepConfig::new(&args(&["prog", "--", "q", "f"]), found(&["f"]));
    assert_eq!(r, Err(ConfigError::UnknownOption("-".to_string())));
}

#[test]
fn unknown_letter_is_read_byte_by_byte() {
    let r = GrepConfig::new(&args(&["prog", "-\u{e9}", "q", "f"]), found(&["f"]));
    assert_eq!(r, Err(ConfigError::UnknownOption("\u{c3}".to_string())));
}

#[test]
fn value_that_is_no_number() {
    let r = GrepConfig::new(&args(&["prog", "-B", "two", "q", "f"]), found(&["f"]));
    assert_eq!(r, Err(ConfigError::IllegalOptionValue("two".to_string())));
    let r = GrepConfig::new(&args(&["prog", "-C", "-1", "q", "f"]), found(&["f"]));
    assert_eq!(r, Err(ConfigError::IllegalOptionValue("-1".to_string())));
}

#[test]
fn file_that_was_not_found() {
    let r = GrepConfig::new(&args(&["prog", "q", "nothing"]), None);
    assert_eq!(r, Err(ConfigError::Filename("nothing".to_string())));
}

#[test]
fn arguments_behind_the_file() {
    let r = GrepConfig::new(&args(&["prog", "q", "f", "g"]), found(&["f"]));
    assert_eq!(r, Err(ConfigError::TooManyArgs));
}

#[test]
fn file_not_found_comes_before_too_many_arguments() {
    let r = GrepConfig::new(&args(&["prog", "q", "nothing", "g"]), None);
    assert_eq!(r, Err(ConfigError::Filename("nothing".to_string())));
}

#[test]
fn empty_argument_holds_no_options() {
    let config = GrepConfig::new(&args(&["prog", "", "f"]), found(&["f"])).unwrap();
    assert_eq!(config.queries, vec![""]);
}

#[test]
fn parse_names_the_file_operand() {
    let line = GrepConfig::parse(&args(&["prog", "-n", "q", "src/*.rs"])).unwrap();
    assert_eq!(line.file_operand, "src/*.rs");
    assert!(!line.too_many);
    assert_eq!(line.config.queries, vec!["q"]);
    assert_eq!(line.config.filenames, Vec::<String>::new());
    let line = GrepConfig::parse(&args(&["prog", "q", "f", "g"])).unwrap();
    assert_eq!(line.file_operand, "f");
    assert!(line.too_many);
    let line = GrepConfig::parse(&args(&["prog", "f"])).unwrap();
    assert_eq!(line.file_operand, "f");
    assert_eq!(line.config.queries, Vec::<String>::new());
}

#[test]
fn finish_puts_the_files_in() {
    let line = GrepConfig::parse(&args(&["prog", "q", "f"])).unwrap();
    let config = GrepConfig::finish(line, found(&["x", "y"])).unwrap();
    assert_eq!(config.filenames, vec!["x", "y"]);
}

#[test]
fn wildcard_characters() {
    assert!(has_wildcard("*.txt"));
    assert!(has_wildcard("file?"));
    assert!(!has_wildcard("file.txt"));
    assert!(!has_wildcard(""));
}

#[test]
fn wildcard_selects_paths_in_order() {
    let dir = entries(&["b.txt", "a.rs", "a.txt", "txt", ".txt"]);
    assert_eq!(matching_paths("*.txt", &dir), vec!["dir/b.txt", "dir/a.txt", "dir/.txt"]);
    assert_eq!(matching_paths("?.txt", &dir), vec!["dir/b.txt", "dir/a.txt"]);
    assert_eq!(matching_paths("a.*", &dir), vec!["dir/a.rs", "dir/a.txt"]);
    assert_eq!(matching_paths("*", &dir).len(), 5);
    assert_eq!(matching_paths("", &dir), Vec::<String>::new());
    assert_eq!(matching_paths("txt", &dir), vec!["dir/txt"]);
}

#[test]
fn wildcard_matches_the_whole_name() {
    let dir = entries(&["abc", "xabc", "abcx", "a*c"]);
    assert_eq!(matching_paths("abc", &dir), vec!["dir/abc"]);
    assert_eq!(matching_paths("a?c", &dir), vec!["dir/abc", "dir/a*c"]);
    assert_eq!(matching_paths("*b*", &dir), vec!["dir/abc", "dir/xabc", "dir/abcx"]);
    assert_eq!(matching_paths("a**c", &dir), vec!["dir/abc", "dir/a*c"]);
    assert_eq!(matching_paths("ABC", &dir), Vec::<String>::new());
}
