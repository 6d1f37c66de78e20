use linekit::matcher::Matcher;
use linekit::search::{exit_code, search_lines, search_sources, wants_prefix, RunOutcome,
    SearchConfig, SearchOutcome, Source};

fn lines_of(s: &str) -> Vec<String> {
    s.lines().map(|l| l.to_string()).collect()
}

fn default_config() -> SearchConfig {
    SearchConfig { invert: false, line_number: false, count_only: false, names_only: false }
}

fn run_search(
    input: &str,
    name: Option<&str>,
    pattern: &str,
    ignore_case: bool,
    cfg: &SearchConfig,
    show_prefix: bool,
) -> SearchOutcome {
    let matcher = Matcher::compile(pattern, ignore_case).unwrap();
    let lines = lines_of(input);
    let owned = name.map(|n| n.to_string());
    search_lines(&lines, owned.as_ref(), &matcher, cfg, show_prefix)
}

#[test]
fn basic_match() {
    let cfg = default_config();
    let r = run_search("hello world\nfoo\n", None, "hello", false, &cfg, false);
    assert!(r.found);
    assert_eq!(r.output, "hello world\n");
}

#[test]
fn no_match() {
    let cfg = default_config();
    let r = run_search("hello\nworld\n", None, "xyz", false, &cfg, false);
    assert!(!r.found);
    assert_eq!(r.output, "");
}

#[test]
fn case_insensitive() {
    let cfg = default_config();
    let r = run_search("HELLO\nworld\n", None, "hello", true, &cfg, false);
    assert!(r.found);
    assert_eq!(r.output, "HELLO\n");
}

#[test]
fn line_numbers() {
    let mut cfg = default_config();
    cfg.line_number = true;
    let r = run_search("foo\nbar\nboo\n", None, "o", false, &cfg, false);
    assert_eq!(r.output, "1:foo\n3:boo\n");
}

#[test]
fn invert_match() {
    let mut cfg = default_config();
    cfg.invert = true;
    let r = run_search("foo\nbar\nbaz\n", None, "foo", false, &cfg, false);
    assert_eq!(r.output, "bar\nbaz\n");
}

#[test]
fn count_mode() {
    let mut cfg = default_config();
    cfg.count_only = true;
    let r = run_search("abc\ndef\nabc\n", None, "a", false, &cfg, false);
    assert_eq!(r.output, "2\n");
}

#[test]
fn files_with_matches_mode() {
    let mut cfg = default_config();
    cfg.names_only = true;
    let r = run_search("hello world\nfoo\n", Some("test.txt"), "hello", false, &cfg, true);
    assert!(r.found);
    assert_eq!(r.output, "test.txt\n");
}

#[test]
fn multi_file_prefix() {
    let cfg = default_config();
    let r = run_search("ax\nby\n", Some("f1.txt"), "x", false, &cfg, true);
    assert_eq!(r.output, "f1.txt:ax\n");
}

#[test]
fn count_with_prefix() {
    let mut cfg = default_config();
    cfg.count_only = true;
    let r = run_search("abc\ndef\nabc\n", Some("f.txt"), "a", false, &cfg, true);
    assert_eq!(r.output, "f.txt:2\n");
}

#[test]
fn invalid_regex() {
    let result = Matcher::compile("[invalid", false);
    assert!(result.is_err());
}

#[test]
fn compile_error_carries_pattern_and_diagnostic() {
    let err = match Matcher::compile("[invalid", false) {
        Ok(_) => panic!("pattern should be refused"),
        Err(e) => e,
    };
    assert_eq!(err.pattern, "[invalid");
    assert!(!err.message.is_empty());
}

#[test]
fn names_only_stops_at_first_match() {
    let mut cfg = default_config();
    cfg.names_only = true;
    let r = run_search("match one\nmatch two\nother\n", Some("f.txt"), "match", false, &cfg, false);
    assert!(r.found);
    assert_eq!(r.output, "f.txt\n");
    assert_eq!(r.count, 1);
    assert_eq!(r.lines_read, 1);
}

#[test]
fn names_only_without_match_reads_everything() {
    let mut cfg = default_config();
    cfg.names_only = true;
    let r = run_search("aaa\nbbb\n", Some("f.txt"), "zzz", false, &cfg, false);
    assert!(!r.found);
    assert_eq!(r.output, "");
    assert_eq!(r.lines_read, 2);
}

#[test]
fn count_zero_is_still_emitted() {
    let mut cfg = default_config();
    cfg.count_only = true;
    let r = run_search("aaa\nbbb\n", None, "zzz", false, &cfg, false);
    assert!(!r.found);
    assert_eq!(r.output, "0\n");
}

#[test]
fn invert_complements_selection() {
    let input = "foo\nbar\nfoo baz\nqux\n";
    let plain_cfg = default_config();
    let mut invert_cfg = default_config();
    invert_cfg.invert = true;
    let plain = run_search(input, None, "foo", false, &plain_cfg, false);
    let inverted = run_search(input, None, "foo", false, &invert_cfg, false);
    assert_eq!(plain.output, "foo\nfoo baz\n");
    assert_eq!(inverted.output, "bar\nqux\n");
    assert_eq!(plain.count + inverted.count, 4);
}

#[test]
fn scenario_single_pattern() {
    let cfg = default_config();
    let r = run_search(
        "the quick brown fox\njumps over\nthe lazy dog\n",
        None,
        "quick",
        false,
        &cfg,
        false,
    );
    assert_eq!(r.output, "the quick brown fox\n");
    assert_eq!(exit_code(false, r.found), 0);
}

#[test]
fn scenario_count_only() {
    let mut cfg = default_config();
    cfg.count_only = true;
    let r = run_search(
        "the quick brown fox\njumps over\nthe lazy dog\n",
        None,
        "the",
        false,
        &cfg,
        false,
    );
    assert_eq!(r.output, "2\n");
    assert_eq!(exit_code(false, r.found), 0);
}

#[test]
fn scenario_no_match_exits_one() {
    let cfg = default_config();
    let r = run_search(
        "the quick brown fox\njumps over\nthe lazy dog\n",
        None,
        "zzz",
        false,
        &cfg,
        false,
    );
    assert_eq!(r.output, "");
    assert_eq!(exit_code(false, r.found), 1);
}

#[test]
fn scenario_malformed_pattern_exits_two() {
    let result = Matcher::compile("[invalid", false);
    assert!(result.is_err());
    assert_eq!(exit_code(true, false), 2);
}

#[test]
fn scenario_two_files_prefixed() {
    let matcher = Matcher::compile("the", false).unwrap();
    let cfg = default_config();
    let sources = vec![
        Source { name: "one.txt".to_string(), lines: lines_of("the quick\nnothing\n") },
        Source { name: "two.txt".to_string(), lines: lines_of("all quiet\n") },
    ];
    let r: RunOutcome = search_sources(&sources, &matcher, &cfg);
    assert!(r.any_match);
    assert_eq!(r.output, "one.txt:the quick\n");
    assert_eq!(exit_code(false, r.any_match), 0);
}

#[test]
fn single_source_never_prefixed() {
    let matcher = Matcher::compile("the", false).unwrap();
    let cfg = default_config();
    let sources = vec![Source {
        name: "only.txt".to_string(),
        lines: lines_of("the quick\n"),
    }];
    let r = search_sources(&sources, &matcher, &cfg);
    assert_eq!(r.output, "the quick\n");
    assert!(!wants_prefix(sources.len()));
    assert!(wants_prefix(2));
}

#[test]
fn exit_codes_follow_match_and_fatal_state() {
    assert_eq!(exit_code(false, true), 0);
    assert_eq!(exit_code(false, false), 1);
    assert_eq!(exit_code(true, true), 2);
}
