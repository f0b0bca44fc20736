// The demo files follow
// https://www.thegeekstuff.com/2009/03/15-practical-unix-grep-command-examples/

use minigrep::grep::{GrepResult, SourceFile};
use minigrep::grep_config::{GrepConfig, GrepOption, OptionSet};
use minigrep::wildcard::{matching_paths, Candidate};

const DEMO_FILE: &str = "THIS LINE IS THE 1ST UPPER CASE LINE IN THIS FILE.
this line is the 1st lower case line in this file.
This Line Has All Its First Character Of The Word With Upper Case.

Two lines above this line is empty.
And this is the last line.
";

const DEMO_TEXT: &str = "4. Vim Word Navigation

You may want to do several navigation in relation to the words, such as:

 * e - go to the end of the current word.
 * E - go to the end of the current WORD.
 * b - go to the previous (before) word.
 * B - go to the previous (before) WORD.
 * w - go to the next word.
 * W - go to the next WORD.

WORD - WORD consists of a sequence of non-blank characters, separated with white space.
word - word consists of a sequence of letters, digits and underscores.

Example to show the difference between WORD and word

 * 192.168.1.1 - single WORD
 * 192.168.1.1 - seven words.
";

const TEST_FILE: &str = "a\nb\nc\nd\n";

fn content_of(name: &str) -> Option<Vec<u8>> {
    match name {
        "demo_file.txt" | "demo_file1.txt" => Some(DEMO_FILE.as_bytes().to_vec()),
        "demo_text.txt" => Some(DEMO_TEXT.as_bytes().to_vec()),
        "test-file.txt" => Some(TEST_FILE.as_bytes().to_vec()),
        _ => None,
    }
}

fn sources_of(config: &GrepConfig) -> Vec<SourceFile> {
    config
        .filenames
        .iter()
        .map(|name| SourceFile { name: name.clone(), content: content_of(name) })
        .collect()
}

fn grep(config: &GrepConfig) -> GrepResult {
    GrepResult::new(config, &sources_of(config)).unwrap()
}

fn directory() -> Vec<Candidate> {
    ["demo_file.txt", "demo_file1.txt", "demo_text.txt", "test-file.txt"]
        .iter()
        .map(|name| Candidate { file_name: name.to_string(), path: name.to_string() })
        .collect()
}

#[test]
fn test_grep_literal_string_single_file1() {
    let queries = vec!["this".to_string()];
    let filenames = vec!["demo_file.txt".to_string()];
    let config = GrepConfig {
        queries,
        filenames,
        options: OptionSet::new(),
        num_pre_lines: 0,
        num_post_lines: 0,
    };
    let matches = grep(&config).to_lines(false);
    assert_eq!("this line is the 1st lower case line in this file.".to_string(), matches[0]);
    assert_eq!("Two lines above this line is empty.".to_string(), matches[1]);
    assert_eq!("And this is the last line.".to_string(), matches[2]);
}

#[test]
fn test_grep_literal_string_single_file2() {
    let args = vec![
        "./minigrep".to_string(),
        "this".to_string(),
        "demo_file.txt".to_string()];
    let config = GrepConfig::new(&args, Some(vec!["demo_file.txt".to_string()])).unwrap();
    let matches = grep(&config).to_lines(false);
    assert_eq!("this line is the 1st lower case line in this file.".to_string(), matches[0]);
    assert_eq!("Two lines above this line is empty.".to_string(), matches[1]);
    assert_eq!("And this is the last line.".to_string(), matches[2]);
}

#[test]
fn test_grep_literal_string_single_file3() {
    let args = vec![
        "./minigrep".to_string(),
        "-e".to_string(),
        "this".to_string(),
        "demo_file.txt".to_string()];
    let config = GrepConfig::new(&args, Some(vec!["demo_file.txt".to_string()])).unwrap();
    let matches = grep(&config).to_lines(false);
    assert_eq!("this line is the 1st lower case line in this file.".to_string(), matches[0]);
    assert_eq!("Two lines above this line is empty.".to_string(), matches[1]);
    assert_eq!("And this is the last line.".to_string(), matches[2]);
}

#[test]
fn test_grep_literal_string_multiple_files1() {
    let queries = vec!["this".to_string()];
    let filenames = vec![
        "demo_file.txt".to_string(),
        "demo_file1.txt".to_string()];
    let config = GrepConfig {
        queries,
        filenames,
        options: OptionSet::new(),
        num_pre_lines: 0,
        num_post_lines: 0,
    };
    let matches = grep(&config).to_lines(false);
    assert_eq!("demo_file.txt:this line is the 1st lower case line in this file.".to_string(), matches[0]);
    assert_eq!("demo_file.txt:Two lines above this line is empty.".to_string(), matches[1]);
    assert_eq!("demo_file.txt:And this is the last line.".to_string(), matches[2]);
    assert_eq!("demo_file1.txt:this line is the 1st lower case line in this file.".to_string(), matches[3]);
    assert_eq!("demo_file1.txt:Two lines above this line is empty.".to_string(), matches[4]);
    assert_eq!("demo_file1.txt:And this is the last line.".to_string(), matches[5]);
}

#[test]
fn test_grep_literal_string_multiple_files2() {
    let args = vec![
        "./minigrep".to_string(),
        "this".to_string(),
        "demo_*.txt".to_string()];
    let found = matching_paths("demo_*.txt", &directory());
    let config = GrepConfig::new(&args, Some(found)).unwrap();
    let matches = grep(&config).to_lines(false);
    assert_eq!("demo_file.txt:this line is the 1st lower case line in this file.".to_string(), matches[0]);
    assert_eq!("demo_file.txt:Two lines above this line is empty.".to_string(), matches[1]);
    assert_eq!("demo_file.txt:And this is the last line.".to_string(), matches[2]);
    assert_eq!("demo_file1.txt:this line is the 1st lower case line in this file.".to_string(), matches[3]);
    assert_eq!("demo_file1.txt:Two lines above this line is empty.".to_string(), matches[4]);
    assert_eq!("demo_file1.txt:And this is the last line.".to_string(), matches[5]);
}

#[test]
fn test_grep_case_insensitive() {
    let queries = vec!["the".to_string()];
    let filenames = vec![
        "demo_file.txt".to_string()];
    let options = OptionSet::from_options(&vec![
        GrepOption::CaseInsensitive]);
    let config = GrepConfig {
        queries,
        filenames,
        options,
        num_pre_lines: 0,
        num_post_lines: 0,
    };
    let matches = grep(&config).to_lines(false);
    assert_eq!("THIS LINE IS THE 1ST UPPER CASE LINE IN THIS FILE.".to_string(), matches[0]);
    assert_eq!("this line is the 1st lower case line in this file.".to_string(), matches[1]);
    assert_eq!("This Line Has All Its First Character Of The Word With Upper Case.".to_string(), matches[2]);
    assert_eq!("And this is the last line.".to_string(), matches[3]);
}

#[test]
fn test_grep_regex() {
    let queries = vec!["lines.*empty".to_string()];
    let filenames = vec![
        "demo_file.txt".to_string()];
    let options = OptionSet::new();
    let config = GrepConfig {
        queries,
        filenames,
        options,
        num_pre_lines: 0,
        num_post_lines: 0,
    };
    let matches = grep(&config).to_lines(false);
    assert_eq!("Two lines above this line is empty.".to_string(), matches[0]);
}

#[test]
fn test_grep_word() {
    let queries = vec!["is".to_string()];
    let filenames = vec![
        "demo_file.txt".to_string()];
    let options = OptionSet::from_options(&vec![
        GrepOption::CaseInsensitive,
        GrepOption::Word]);
    let config = GrepConfig {
        queries,
        filenames,
        options,
        num_pre_lines: 0,
        num_post_lines: 0,
    };
    let matches = grep(&config).to_lines(false);
    assert_eq!("THIS LINE IS THE 1ST UPPER CASE LINE IN THIS FILE.".to_string(), matches[0]);
    assert_eq!("this line is the 1st lower case line in this file.".to_string(), matches[1]);
    assert_eq!("Two lines above this line is empty.".to_string(), matches[2]);
    assert_eq!("And this is the last line.".to_string(), matches[3]);
}

#[test]
fn test_grep_invert() {
    let queries = vec![
        "a".to_string(),
        "b".to_string(),
        "c".to_string()];
    let filenames = vec![
        "test-file.txt".to_string()];
    let options = OptionSet::from_options(&vec![
        GrepOption::Invert]);
    let config = GrepConfig {
        queries,
        filenames,
        options,
        num_pre_lines: 0,
        num_post_lines: 0,
    };
    let matches = grep(&config).to_lines(false);
    assert_eq!("d".to_string(), matches[0]);
}

#[test]
fn test_grep_line_number() {
    let queries = vec![
        "go".to_string()];
    let filenames = vec![
        "demo_text.txt".to_string()];
    let options = OptionSet::from_options(&vec![
        GrepOption::LineNumber]);
    let config = GrepConfig {
        queries,
        filenames,
        options,
        num_pre_lines: 0,
        num_post_lines: 0,
    };
    let s = grep(&config).to_string(&config);
    assert_eq!("5: * e - go to the end of the current word.
6: * E - go to the end of the current WORD.
7: * b - go to the previous (before) word.
8: * B - go to the previous (before) WORD.
9: * w - go to the next word.
10: * W - go to the next WORD.".to_string(), s);
}

#[test]
fn test_grep_count1() {
    let queries = vec![
        "this".to_string()];
    let filenames = vec![
        "demo_file.txt".to_string()];
    let options = OptionSet::from_options(&vec![
        GrepOption::Count]);
    let config = GrepConfig {
        queries,
        filenames,
        options,
        num_pre_lines: 0,
        num_post_lines: 0,
    };
    let s = grep(&config).to_string(&config);
    assert_eq!("3".to_string(), s);
}

#[test]
fn test_grep_count2() {
    let queries = vec![
        "is".to_string()];
    let filenames = vec![
        "demo_file.txt".to_string()];
    let options = OptionSet::from_options(&vec![
        GrepOption::Invert,
        GrepOption::Count]);
    let config = GrepConfig {
        queries,
        filenames,
        options,
        num_pre_lines: 0,
        num_post_lines: 0,
    };
    let s = grep(&config).to_string(&config);
    assert_eq!("2".to_string(), s);
}

#[test]
fn test_grep_after() {
    let queries = vec![
        "example".to_string()];
    let filenames = vec![
        "demo_text.txt".to_string()];
    let options = OptionSet::from_options(&vec![
        GrepOption::CaseInsensitive]);
    let config = GrepConfig {
        queries,
        filenames,
        options,
        num_pre_lines: 0,
        num_post_lines: 3,
    };
    let s = grep(&config).to_string(&config);
    assert_eq!("Example to show the difference between WORD and word

 * 192.168.1.1 - single WORD
 * 192.168.1.1 - seven words.".to_string(), s);
}

#[test]
fn test_grep_before() {
    let queries = vec![
        "single WORD".to_string()];
    let filenames = vec![
        "demo_text.txt".to_string()];
    let options = OptionSet::new();
    let config = GrepConfig {
        queries,
        filenames,
        options,
        num_pre_lines: 2,
        num_post_lines: 0,
    };
    let s = grep(&config).to_string(&config);
    assert_eq!("Example to show the difference between WORD and word

 * 192.168.1.1 - single WORD".to_string(), s);
}

#[test]
fn test_grep_around() {
    let queries = vec![
        "Example".to_string()];
    let filenames = vec![
        "demo_text.txt".to_string()];
    let options = OptionSet::new();
    let config = GrepConfig {
        queries,
        filenames,
        options,
        num_pre_lines: 2,
        num_post_lines: 2,
    };
    let s = grep(&config).to_string(&config);
    assert_eq!("word - word consists of a sequence of letters, digits and underscores.

Example to show the difference between WORD and word

 * 192.168.1.1 - single WORD".to_string(), s);
}

#[test]
fn literal_query_shows_exactly_the_lines_that_hold_it() {
    let config = GrepConfig {
        queries: vec!["this".to_string()],
        filenames: vec!["demo_file.txt".to_string()],
        options: OptionSet::new(),
        num_pre_lines: 0,
        num_post_lines: 0,
    };
    let matches = grep(&config).to_lines(false);
    assert_eq!(matches, vec![
        "this line is the 1st lower case line in this file.",
        "Two lines above this line is empty.",
        "And this is the last line."]);
}

#[test]
fn whole_word_query_leaves_out_the_line_without_the_word() {
    let config = GrepConfig {
        queries: vec!["is".to_string()],
        filenames: vec!["demo_file.txt".to_string()],
        options: OptionSet::from_options(&vec![GrepOption::CaseInsensitive, GrepOption::Word]),
        num_pre_lines: 0,
        num_post_lines: 0,
    };
    let result = grep(&config);
    let numbers: Vec<usize> = result.file_results[0].lines.iter().map(|l| l.line_number).collect();
    assert_eq!(numbers, vec![1, 2, 5, 6]);
}

#[test]
fn inverted_queries_show_exactly_the_line_that_matches_none() {
    let config = GrepConfig {
        queries: vec!["a".to_string(), "b".to_string(), "c".to_string()],
        filenames: vec!["test-file.txt".to_string()],
        options: OptionSet::from_options(&vec![GrepOption::Invert]),
        num_pre_lines: 0,
        num_post_lines: 0,
    };
    assert_eq!(grep(&config).to_lines(false), vec!["d"]);
}

#[test]
fn wildcard_finds_every_demo_file() {
    let found = matching_paths("demo_*.txt", &directory());
    assert_eq!(found, vec!["demo_file.txt", "demo_file1.txt", "demo_text.txt"]);
}
