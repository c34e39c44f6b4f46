use rustwc::info::FileInfo;
use rustwc::run::{error_line, input_names, is_stdin, Selection, Tally};

const TEXT: &str = "Hello, world!\nHello, world!\nHello, world!\n";
const LINES: usize = 3;
const WORDS: usize = 6;
const CHARS: usize = 42;

#[test]
fn format_all_fields() {
    let info = FileInfo::from_text(TEXT);
    let expected = format!("{:8}{:8}{:8}", LINES, WORDS, CHARS);
    assert_eq!(info.format(true, true, true), expected);
    assert_eq!(info.format(true, true, true), "       3       6      42");
}

#[test]
fn format_lines_only() {
    let info = FileInfo::from_text(TEXT);
    assert_eq!(info.format(true, false, false), format!("{:8}", LINES));
}

#[test]
fn format_none() {
    let info = FileInfo { lines: 1, words: 2, chars: 3 };
    assert_eq!(info.format(false, false, false), "");
}

#[test]
fn format_zero_and_wide_values() {
    let info = FileInfo { lines: 0, words: 12345678, chars: 123456789 };
    assert_eq!(info.format(true, true, true), "       012345678123456789");
    let big = FileInfo { lines: usize::MAX, words: 10, chars: 100 };
    assert_eq!(big.format(true, true, true), format!("{:8}{:8}{:8}", usize::MAX, 10, 100));
}

#[test]
fn report_line_with_name() {
    let info = FileInfo { lines: 3, words: 6, chars: 42 };
    let sel = Selection { lines: false, words: true, chars: false };
    assert_eq!(info.report_line(sel, "test.txt"), "       6 test.txt");
    assert_eq!(info.report_line(sel, "-"), "       6 -");
}

#[test]
fn selection_defaults_to_all() {
    let none = Selection { lines: false, words: false, chars: false };
    assert_eq!(none.resolved(), Selection { lines: true, words: true, chars: true });
    let some = Selection { lines: true, words: false, chars: true };
    assert_eq!(some.resolved(), some);
}

#[test]
fn stdin_name() {
    assert!(is_stdin("-"));
    assert!(!is_stdin("--"));
    assert!(!is_stdin(""));
    assert!(!is_stdin("a"));
}

#[test]
fn no_names_reads_stdin() {
    assert_eq!(input_names(Vec::new()), vec!["-".to_string()]);
    let names = vec!["a.txt".to_string(), "b.txt".to_string()];
    assert_eq!(input_names(names.clone()), names);
}

#[test]
fn error_line_names_path() {
    assert_eq!(
        error_line("nonexistent.txt", "No such file or directory (os error 2)"),
        "nonexistent.txt: No such file or directory (os error 2)"
    );
}

#[test]
fn total_of_two_inputs() {
    let a = FileInfo::from_text("Hello, world!");
    let b = FileInfo::from_text("Hello, world!\n\n\n");
    let sel = Selection { lines: true, words: true, chars: true };
    let mut tally = Tally::new();
    tally.record(a);
    tally.record(b);
    assert_eq!(tally.total, FileInfo { lines: 4, words: 4, chars: 29 });
    assert_eq!(tally.summary(sel), Some("       4       4      29 total".to_string()));
}

#[test]
fn failed_input_leaves_total() {
    let a = FileInfo::from_text("one two\n");
    let sel = Selection { lines: true, words: false, chars: false };
    let mut tally = Tally::new();
    tally.record_failure();
    tally.record(a);
    assert_eq!(tally.total, a);
    assert_eq!(tally.inputs, 2);
    assert_eq!(tally.summary(sel), Some("       1 total".to_string()));
}

#[test]
fn single_input_has_no_total() {
    let mut tally = Tally::new();
    assert_eq!(tally.summary(Selection { lines: true, words: true, chars: true }), None);
    tally.record(FileInfo::from_text("x"));
    assert_eq!(tally.summary(Selection { lines: true, words: true, chars: true }), None);
}

#[test]
fn add_assign_and_can_add() {
    let mut a = FileInfo { lines: 1, words: 2, chars: 3 };
    let b = FileInfo { lines: 10, words: 20, chars: 30 };
    assert!(a.can_add(b));
    a.add_assign(b);
    assert_eq!(a, FileInfo { lines: 11, words: 22, chars: 33 });
    let full = FileInfo { lines: usize::MAX, words: 0, chars: 0 };
    assert!(!full.can_add(FileInfo { lines: 1, words: 0, chars: 0 }));
    assert!(full.can_add(FileInfo::new()));
}
