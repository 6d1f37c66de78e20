use linekit::args::expand_dash_n;
use linekit::textops::{cat_numbered, file_header, fill_buffer, head_bytes, head_lines, tac,
    tail_bytes_buffered, tail_lines_buffered};

fn lines_of(s: &str) -> Vec<String> {
    s.lines().map(|l| l.to_string()).collect()
}

#[test]
fn numbered_output() {
    let input = "alpha\nbeta\ngamma\n";
    let mut n: usize = 1;
    let output = cat_numbered(&lines_of(input), &mut n);
    assert!(output.contains("     1\talpha"));
    assert!(output.contains("     2\tbeta"));
    assert!(output.contains("     3\tgamma"));
    assert_eq!(n, 4);
}

#[test]
fn continuous_numbering() {
    let mut n: usize = 1;
    let mut output = cat_numbered(&lines_of("a\nb\n"), &mut n);
    output.push_str(&cat_numbered(&lines_of("c\nd\n"), &mut n));
    assert!(output.contains("     3\tc"));
    assert!(output.contains("     4\td"));
}

#[test]
fn empty_file_numbered() {
    let mut n: usize = 1;
    let output = cat_numbered(&lines_of(""), &mut n);
    assert!(output.is_empty());
    assert_eq!(n, 1);
}

#[test]
fn main_default_10_lines() {
    let input = (1..=20).map(|i| format!("line {i}")).collect::<Vec<_>>().join("\n");
    let output = head_lines(&lines_of(&input), 10);
    assert_eq!(output.lines().count(), 10);
    assert!(output.starts_with("line 1\n"));
    assert!(output.contains("line 10\n"));
}

#[test]
fn main_custom_line_count() {
    let input = (1..=10).map(|i| format!("line {i}")).collect::<Vec<_>>().join("\n");
    let output = head_lines(&lines_of(&input), 5);
    assert_eq!(output.lines().count(), 5);
    assert!(output.ends_with("line 5\n"));
}

#[test]
fn main_byte_mode() {
    let input = "hello world\n";
    let out = head_bytes(&input.as_bytes().to_vec(), 5);
    assert_eq!(out, b"hello");
}

#[test]
fn main_empty_file() {
    let output = head_lines(&lines_of(""), 10);
    assert!(output.is_empty());
}

#[test]
fn fewer_lines_than_n() {
    let input = "one\ntwo\nthree\n";
    let output = head_lines(&lines_of(input), 10);
    assert_eq!(output.lines().count(), 3);
}

#[test]
fn basic_reversal() {
    let input = "one\ntwo\nthree\nfour\nfive\n";
    let output = tac(&lines_of(input));
    let lines: Vec<&str> = output.lines().collect();
    assert_eq!(lines, vec!["five", "four", "three", "two", "one"]);
}

#[test]
fn single_line() {
    let input = "only\n";
    let output = tac(&lines_of(input));
    assert_eq!(output.trim(), "only");
}

#[test]
fn tac_empty_file() {
    let output = tac(&lines_of(""));
    assert!(output.is_empty());
}

#[test]
fn main_no_trailing_newline() {
    let input = "a\nb\nc";
    let output = tac(&lines_of(input));
    let lines: Vec<&str> = output.lines().collect();
    assert_eq!(lines, vec!["c", "b", "a"]);
}

#[test]
fn default_10_lines() {
    let input = (1..=20).map(|i| format!("line {i}")).collect::<Vec<_>>().join("\n");
    let output = tail_lines_buffered(&lines_of(&input), 10);
    assert_eq!(output.lines().count(), 10);
    assert!(output.starts_with("line 11\n"));
    assert!(output.contains("line 20\n"));
}

#[test]
fn custom_line_count() {
    let input = (1..=10).map(|i| format!("line {i}")).collect::<Vec<_>>().join("\n");
    let output = tail_lines_buffered(&lines_of(&input), 3);
    assert_eq!(output.lines().count(), 3);
    assert!(output.starts_with("line 8\n"));
}

#[test]
fn byte_mode() {
    let input = "hello world\n";
    let out = tail_bytes_buffered(&input.as_bytes().to_vec(), 6);
    assert_eq!(out, b"world\n");
}

#[test]
fn small_file() {
    let input = "one\ntwo\n";
    let output = tail_lines_buffered(&lines_of(input), 10);
    assert_eq!(output.lines().count(), 2);
}

#[test]
fn empty_file() {
    let output = tail_lines_buffered(&lines_of(""), 10);
    assert!(output.is_empty());
}

#[test]
fn expand_dash_number() {
    let args = vec!["-5".to_string(), "file.txt".to_string()];
    let expanded = expand_dash_n(args);
    assert_eq!(expanded, vec!["-n", "5", "file.txt"]);
}

#[test]
fn expand_dash_number_no_transform_flags() {
    let args = vec!["-n".to_string(), "10".to_string()];
    let expanded = expand_dash_n(args);
    assert_eq!(expanded, vec!["-n", "10"]);
}

#[test]
fn stdin_ring_buffer() {
    let input = (1..=100).map(|i| format!("line {i}")).collect::<Vec<_>>().join("\n");
    let output = tail_lines_buffered(&lines_of(&input), 5);
    assert_eq!(output.lines().count(), 5);
    assert!(output.starts_with("line 96\n"));
}

#[test]
fn fill_buffer_default() {
    let line = b"y\n";
    let mut buf = Vec::with_capacity(8192);
    fill_buffer(line, &mut buf);
    assert!(buf.len() <= 8192 + line.len());
    assert!(buf.len() >= 8192);
    assert!(buf.starts_with(b"y\n"));
    assert!(buf.ends_with(b"y\n"));
}

#[test]
fn fill_buffer_custom() {
    let line = b"hello world\n";
    let mut buf = Vec::with_capacity(8192);
    fill_buffer(line, &mut buf);
    assert!(buf.len() > 0);
    assert!(buf.len() % line.len() == 0);
    for chunk in buf.chunks_exact(line.len()) {
        assert_eq!(chunk, line);
    }
}

#[test]
fn fill_buffer_large_line() {
    let line = vec![b'x'; 10000];
    let mut buf = Vec::new();
    fill_buffer(&line, &mut buf);
    assert_eq!(buf.len(), 10000);
}

#[test]
fn multi_file_banner() {
    assert_eq!(file_header("a.txt", true), "==> a.txt <==\n");
    assert_eq!(file_header("b.txt", false), "\n==> b.txt <==\n");
}
