use std::cell::RefCell;

use rw::args::args_argument;
use rw::memory::MemReader;
use rw::processor::{collect_lines, process_lines};
use rw::stream_error::StreamErrorKind;

#[test]
fn four_lines_with_unterminated_tail() {
    // "a\nb\n\nc" has four lines: "a", "b", "", "c" — the last unterminated
    let mut r = MemReader::from_string("a\nb\n\nc");
    let seen: RefCell<Vec<String>> = RefCell::new(Vec::new());
    let outcome = process_lines(&mut r, |s: String| {
        seen.borrow_mut().push(s);
    });
    assert!(outcome.is_ok());
    assert_eq!(
        *seen.borrow(),
        vec!["a".to_owned(), "b".to_owned(), "".to_owned(), "c".to_owned()]
    );
}

#[test]
fn collect_yields_lines_in_order() {
    let mut r = MemReader::from_string("a\nb\n\nc");
    let (lines, err) = collect_lines(&mut r);
    assert!(err.is_none());
    assert_eq!(
        lines,
        vec!["a".to_owned(), "b".to_owned(), "".to_owned(), "c".to_owned()]
    );
}

#[test]
fn empty_input_has_no_lines() {
    let mut r = MemReader::memory(None);
    let (lines, err) = collect_lines(&mut r);
    assert!(err.is_none());
    assert!(lines.is_empty());
}

#[test]
fn terminated_input_counts_lines_by_newlines() {
    let mut r = MemReader::from_string("one\ntwo\n");
    let (lines, err) = collect_lines(&mut r);
    assert!(err.is_none());
    assert_eq!(lines, vec!["one".to_owned(), "two".to_owned()]);
}

#[test]
fn fail_fast_reports_first_bad_line() {
    // line 3 is not valid text; lines 1 and 2 are still handed out,
    // nothing past line 3 is
    let mut bytes = b"ok\nalso ok\n".to_vec();
    bytes.push(0xff);
    bytes.extend_from_slice(b"\nnever seen");
    let mut r = MemReader::from_bytes(bytes);
    let seen: RefCell<Vec<String>> = RefCell::new(Vec::new());
    let outcome = process_lines(&mut r, |s: String| {
        seen.borrow_mut().push(s);
    });
    let e = outcome.unwrap_err();
    assert_eq!(*seen.borrow(), vec!["ok".to_owned(), "also ok".to_owned()]);
    assert_eq!(e.line(), Some(3));
    assert_eq!(e.cause().kind(), StreamErrorKind::InvalidData);
    assert_eq!(
        e.display_message(),
        "Error in line 3: stream did not contain valid UTF-8".to_owned()
    );
}

#[test]
fn collect_keeps_lines_before_the_failure() {
    let mut bytes = b"first\n".to_vec();
    bytes.push(0xc0);
    let mut r = MemReader::from_bytes(bytes);
    let (lines, err) = collect_lines(&mut r);
    assert_eq!(lines, vec!["first".to_owned()]);
    assert_eq!(err.unwrap().line(), Some(2));
}

#[test]
fn invalid_first_line_is_line_one() {
    let mut r = MemReader::from_bytes(vec![0x80u8, b'\n', b'x']);
    let (lines, err) = collect_lines(&mut r);
    assert!(lines.is_empty());
    assert_eq!(err.unwrap().line(), Some(1));
}

#[test]
fn flag_value_is_the_following_argument() {
    let args = vec!["in.txt".to_owned(), "-f".to_owned(), "notes.txt".to_owned(), "x".to_owned()];
    let prefixes = vec!["-f".to_owned(), "--file".to_owned()];
    assert_eq!(args_argument(&args, &prefixes), Some("notes.txt".to_owned()));
}

#[test]
fn flag_without_value_yields_nothing() {
    let args = vec!["a".to_owned(), "--file".to_owned()];
    let prefixes = vec!["-f".to_owned(), "--file".to_owned()];
    assert_eq!(args_argument(&args, &prefixes), None);
}

#[test]
fn first_flag_wins() {
    let args = vec!["-f".to_owned(), "a".to_owned(), "--file".to_owned(), "b".to_owned()];
    let prefixes = vec!["-f".to_owned(), "--file".to_owned()];
    assert_eq!(args_argument(&args, &prefixes), Some("a".to_owned()));
}

#[test]
fn lone_newline_is_one_empty_line() {
    let mut r = MemReader::from_string("\n");
    let (lines, err) = collect_lines(&mut r);
    assert!(err.is_none());
    assert_eq!(lines, vec!["".to_owned()]);
}

#[test]
fn no_flag_yields_nothing() {
    let args = vec!["a".to_owned(), "b".to_owned()];
    let prefixes = vec!["-f".to_owned(), "--file".to_owned()];
    assert_eq!(args_argument(&args, &prefixes), None);
}
