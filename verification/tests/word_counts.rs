use linekit::counts::{add_counts, count, format_counts, max_count, Counts, Flags};
use linekit::render::decimal_width;

#[test]
fn basic_counts() {
    let input = "hello world\nfoo bar baz\n";
    let c = count(&input.as_bytes().to_vec());
    assert_eq!(c.lines, 2);
    assert_eq!(c.words, 5);
    assert_eq!(c.bytes, 24);
}

#[test]
fn wc_empty_file() {
    let c = count(&Vec::new());
    assert_eq!(c.lines, 0);
    assert_eq!(c.words, 0);
    assert_eq!(c.bytes, 0);
}

#[test]
fn no_trailing_newline() {
    let input = "hello";
    let c = count(&input.as_bytes().to_vec());
    assert_eq!(c.lines, 0);
    assert_eq!(c.words, 1);
    assert_eq!(c.bytes, 5);
}

#[test]
fn utf8_multibyte() {
    let input = "cafe\u{0301}\n";
    let c = count(&input.as_bytes().to_vec());
    assert_eq!(c.bytes, 7); // c-a-f-e + 2-byte combining accent + \n
    assert_eq!(c.chars, 6); // c-a-f-e-combining-\n
}

#[test]
fn format_default_flags() {
    let flags = Flags { lines: true, words: true, bytes: true, chars: false };
    let counts = Counts { lines: 5, words: 10, bytes: 50, chars: 45 };
    let result = format_counts(&counts, &flags, 3);
    assert_eq!(result, "  5  10  50");
}

#[test]
fn format_single_flag() {
    let flags = Flags { lines: true, words: false, bytes: false, chars: false };
    let counts = Counts { lines: 42, ..Default::default() };
    let result = format_counts(&counts, &flags, 3);
    assert_eq!(result, " 42");
}

#[test]
fn word_count_multiple_spaces() {
    let input = "  hello   world  \n";
    let c = count(&input.as_bytes().to_vec());
    assert_eq!(c.words, 2);
}

#[test]
fn default_mode_fills_in_conventional_counts() {
    let unset = Flags::default();
    assert!(!unset.any_set());
    let effective = unset.default_mode();
    assert!(effective.lines && effective.words && effective.bytes && !effective.chars);

    let chosen = Flags { lines: false, words: false, bytes: false, chars: true };
    assert!(chosen.any_set());
    let kept = chosen.default_mode();
    assert!(!kept.lines && !kept.words && !kept.bytes && kept.chars);
}

#[test]
fn format_counts_pads_each_column() {
    let flags = Flags { lines: true, words: true, bytes: false, chars: false };
    let counts = Counts { lines: 7, words: 1234, bytes: 0, chars: 0 };
    assert_eq!(format_counts(&counts, &flags, 4), "   7 1234");
}

#[test]
fn report_width_follows_largest_count() {
    let a = count(&b"one two\n".to_vec());
    let b = count(&b"three four five six\n".to_vec());
    let mut total = Counts::default();
    add_counts(&mut total, &a);
    add_counts(&mut total, &b);
    assert_eq!(total.lines, 2);
    assert_eq!(total.words, 6);
    assert_eq!(total.bytes, a.bytes + b.bytes);
    let widest = max_count(&total);
    assert_eq!(widest, total.bytes);
    assert_eq!(decimal_width(widest), 2);
    assert_eq!(decimal_width(0), 1);
    assert_eq!(decimal_width(205), 3);
}
