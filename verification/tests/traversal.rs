use linekit::matcher::Matcher;
use linekit::search::{search_sources, SearchConfig, Source};
use linekit::walk::{looks_binary, name_is_hidden, plan_directory, route_input, sample_has_nul,
    DirEntry, InputDisposition, PlanStep};

fn file_entry(name: &str, content: &str) -> DirEntry {
    DirEntry { name: name.to_string(), is_dir: false, sample: content.as_bytes().to_vec() }
}

fn dir_entry(name: &str) -> DirEntry {
    DirEntry { name: name.to_string(), is_dir: true, sample: Vec::new() }
}

fn step_name(step: &PlanStep) -> &str {
    match step {
        PlanStep::SearchFile(n) => n,
        PlanStep::EnterDir(n) => n,
    }
}

#[test]
fn plan_skips_hidden_entries() {
    let entries = vec![
        file_entry("a.txt", "hello"),
        file_entry(".hidden.txt", "hello"),
        file_entry("b.txt", "hello"),
        dir_entry(".git"),
    ];
    let plan = plan_directory(entries);
    let names: Vec<&str> = plan.iter().map(step_name).collect();
    assert_eq!(names, vec!["a.txt", "b.txt"]);
}

#[test]
fn plan_skips_binary_files() {
    let entries = vec![
        file_entry("text.txt", "plain text"),
        DirEntry { name: "image.bin".to_string(), is_dir: false, sample: vec![1, 2, 0, 4] },
    ];
    let plan = plan_directory(entries);
    let names: Vec<&str> = plan.iter().map(step_name).collect();
    assert_eq!(names, vec!["text.txt"]);
}

#[test]
fn plan_sorts_by_name_and_keeps_kinds() {
    let entries = vec![file_entry("c.txt", "x"), dir_entry("b"), file_entry("a.txt", "y")];
    let plan = plan_directory(entries);
    assert_eq!(plan.len(), 3);
    assert!(matches!(&plan[0], PlanStep::SearchFile(n) if n == "a.txt"));
    assert!(matches!(&plan[1], PlanStep::EnterDir(n) if n == "b"));
    assert!(matches!(&plan[2], PlanStep::SearchFile(n) if n == "c.txt"));
}

#[test]
fn unreadable_sample_counts_as_text() {
    assert!(!looks_binary(&None));
    assert!(looks_binary(&Some(vec![0])));
    assert!(!looks_binary(&Some(b"all text".to_vec())));
}

#[test]
fn nul_byte_detection() {
    assert!(sample_has_nul(&vec![65, 0, 66]));
    assert!(!sample_has_nul(&b"plain".to_vec()));
    assert!(!sample_has_nul(&Vec::new()));
}

#[test]
fn hidden_name_detection() {
    assert!(name_is_hidden(".bashrc"));
    assert!(!name_is_hidden("notes.txt"));
    assert!(!name_is_hidden(""));
}

#[test]
fn operands_are_routed_by_kind_and_recursion() {
    assert_eq!(route_input(false, false), InputDisposition::Search);
    assert_eq!(route_input(false, true), InputDisposition::Search);
    assert_eq!(route_input(true, true), InputDisposition::Expand);
    assert_eq!(route_input(true, false), InputDisposition::SkipDirectory);
}

#[test]
fn scenario_recursive_search_excludes_hidden() {
    let entries = vec![
        file_entry("a.txt", "hello"),
        file_entry("b.txt", "hello"),
        file_entry(".hidden.txt", "hello"),
    ];
    let plan = plan_directory(entries);
    let names: Vec<&str> = plan.iter().map(step_name).collect();
    assert_eq!(names, vec!["a.txt", "b.txt"]);

    let matcher = Matcher::compile("hello", false).unwrap();
    let cfg = SearchConfig { invert: false, line_number: false, count_only: false,
        names_only: false };
    let sources: Vec<Source> = names
        .iter()
        .map(|n| Source { name: n.to_string(), lines: vec!["hello".to_string()] })
        .collect();
    let r = search_sources(&sources, &matcher, &cfg);
    assert!(r.any_match);
    assert_eq!(r.output, "a.txt:hello\nb.txt:hello\n");
    assert!(!r.output.contains(".hidden.txt"));
}
