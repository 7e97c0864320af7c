use rw::line_error::{decimal_string, error_line, LineError};
use rw::stream_error::{StreamError, StreamErrorKind};

#[test]
fn display_with_line_number() {
    // a LineError with line 3 and cause "permission denied"
    let cause = StreamError::new(
        StreamErrorKind::PermissionDenied,
        "permission denied".to_owned(),
    );
    let e = LineError::new(Some(3), cause);
    assert_eq!(
        e.display_message(),
        "Error in line 3: permission denied".to_owned()
    );
    assert_eq!(e.debug_message(), "Line 3 permission denied".to_owned());
}

#[test]
fn display_without_line_number() {
    let cause = StreamError::new(StreamErrorKind::NotFound, "no buffer".to_owned());
    let e = LineError::new(None, cause);
    assert_eq!(e.display_message(), "Error: no buffer".to_owned());
    assert_eq!(e.debug_message(), "no buffer".to_owned());
}

#[test]
fn error_line_closes_over_the_number() {
    let wrap = error_line(Some(7));
    let e = wrap(StreamError::new(StreamErrorKind::BrokenPipe, "broken pipe".to_owned()));
    assert_eq!(e.line(), Some(7));
    assert_eq!(e.cause().kind(), StreamErrorKind::BrokenPipe);
    assert_eq!(e.cause().message(), "broken pipe");

    let bare = error_line(None);
    let e = bare(StreamError::new(StreamErrorKind::Other, "odd".to_owned()));
    assert_eq!(e.line(), None);
}

#[test]
fn cause_is_preserved_for_inspection() {
    let cause = StreamError::new(StreamErrorKind::Unsupported, "not supported".to_owned());
    let e = LineError::new(Some(1), cause);
    assert_eq!(e.cause().kind(), StreamErrorKind::Unsupported);
    assert_eq!(e.cause().message(), "not supported");
    assert_eq!(e.line(), Some(1));
}

#[test]
fn decimal_rendering_is_exact() {
    assert_eq!(decimal_string(0), "0".to_owned());
    assert_eq!(decimal_string(9), "9".to_owned());
    assert_eq!(decimal_string(10), "10".to_owned());
    assert_eq!(decimal_string(305), "305".to_owned());
    assert_eq!(decimal_string(usize::MAX), usize::MAX.to_string());
}

#[test]
fn kinds_are_distinct() {
    assert_ne!(StreamErrorKind::NotFound, StreamErrorKind::PermissionDenied);
    assert_ne!(StreamErrorKind::InvalidData, StreamErrorKind::Other);
    assert_eq!(StreamErrorKind::BrokenPipe, StreamErrorKind::BrokenPipe);
}
