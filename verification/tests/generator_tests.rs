use ddgen::generator::access::Access;
use ddgen::generator::bit_range::{BitRange, BitRangeError};
use ddgen::generator::doc_comment::DocComment;
use ddgen::generator::error_reporting::{error_report, ContentSpans, ErrorLocation, Span};
use ddgen::generator::flow_control::FlowControl;
use ddgen::xtask::XtaskErrors;

#[test]
fn conversion() {
    let s = "This is a comment";

    let d = DocComment::from_string(&s.to_string());

    assert_eq!(d.as_string(), "/// This is a comment");
}

#[test]
fn conversion_multi_line() {
    let s = "This is a comment\nAnother line.\nFinal line.";
    let expected = "/// This is a comment\n/// Another line.\n/// Final line.";

    let d = DocComment::from_string(&s.to_string());

    assert_eq!(d.as_string(), expected);
}

#[test]
fn iterate() {
    let s = "This is a comment.\nA new lne of comment.\nMore comments.";
    let expected = [
        &"/// This is a comment.".to_string(),
        &"/// A new lne of comment.".to_string(),
        &"/// More comments.".to_string(),
    ];

    let doc_comment = DocComment::from_string(&s.to_string());

    let v: Vec<&String> = doc_comment.lines().collect();

    assert_eq!(v, expected);
}

#[test]
fn doc_comment_counts_lines_and_empty_is_empty() {
    let d = DocComment::from_string("one\r\ntwo\n");
    assert_eq!(d.number_lines(), 2);
    assert_eq!(d.as_string(), "/// one\n/// two");
    assert_eq!(DocComment::empty(), "///");
    assert_eq!(DocComment::from_string("").number_lines(), 0);
}

#[test]
fn test_load_content() {
    let content = "This is\nsome content\nwith many lines.";

    let spans = ContentSpans::from(content);

    assert_eq!(spans.spans().len(), 3);

    assert_eq!(spans.spans()[0], Span { start: 1, end: 8 });
    assert_eq!(spans.spans()[1], Span { start: 9, end: 21 });
    assert_eq!(spans.spans()[2], Span { start: 22, end: 38 });
}

#[test]
fn test_location() {
    let content = "This is\nsome content\nwith many lines.";

    let spans = ContentSpans::from(content);

    let search_range = Span { start: 12, end: 20 };
    let location = spans.location(search_range).unwrap();

    assert_eq!(
        location,
        ErrorLocation {
            line: 2,
            start_column: 4,
            end_column: 12
        }
    );
}

#[test]
fn test_location_not_found() {
    let content = "This is\nsome content\nwith many lines.";

    let spans = ContentSpans::from(content);

    let search_range = Span { start: 30, end: 39 };
    assert!(spans.location(search_range).is_none());

    let search_range = Span { start: 40, end: 50 };
    assert!(spans.location(search_range).is_none());
}

#[test]
fn test_location_spans_lines() {
    let content = "This is\nsome content\nwith many lines.";

    let spans = ContentSpans::from(content);

    let search_range = Span { start: 18, end: 24 };
    assert!(spans.location(search_range).is_none());
}

#[test]
fn test_sub_range() {
    let span = Span { start: 4, end: 9 };
    let sub_span = Span { start: 5, end: 7 };

    assert!(span.envelopes(sub_span));
}

#[test]
fn spans_count_bytes_not_characters() {
    let spans = ContentSpans::from("é\nab");
    assert_eq!(spans.spans()[0], Span { start: 1, end: 3 });
    assert_eq!(spans.spans()[1], Span { start: 4, end: 6 });
    assert_eq!(ContentSpans::from("").spans().len(), 0);
}

#[test]
fn error_report_texts() {
    let content = "This is\nsome content\nwith many lines.";
    assert_eq!(
        error_report(content, "Bad field", Some(12..20)),
        "Bad field at line: 2, columns: 4..12"
    );
    assert_eq!(error_report(content, "Bad field", Some(18..24)), "Bad field");
    assert_eq!(error_report(content, "Bad field", None), "Bad field");
}

#[test]
fn single_bound() {
    let bit_range = BitRange::from_text("2").unwrap();

    assert_eq!(bit_range.start(), 2);
    assert_eq!(bit_range.end(), 2);
}

#[test]
fn range() {
    let bit_range = BitRange::from_text("2..5").unwrap();

    assert_eq!(bit_range.start(), 2);
    assert_eq!(bit_range.end(), 5);
}

#[test]
fn range_descending_error() {
    assert!(BitRange::from_text("5..1").is_err());
}

#[test]
fn single_bit_range() {
    let bit_range = BitRange::from_text("2..6").unwrap();

    assert_eq!(bit_range.start(), 2);
    assert_eq!(bit_range.end(), 6);
}

#[test]
fn bit_range_errors_and_edges() {
    assert_eq!(BitRange::from_text("5..1"), Err(BitRangeError::ReversedRange));
    assert_eq!(BitRange::from_text("x"), Err(BitRangeError::InvalidRangeFormat));
    assert_eq!(BitRange::from_text(""), Err(BitRangeError::InvalidRangeFormat));
    assert_eq!(BitRange::from_text("2.."), Err(BitRangeError::InvalidRangeFormat));
    assert_eq!(BitRange::from_text("..2"), Err(BitRangeError::InvalidRangeFormat));
    assert_eq!(BitRange::from_text("256"), Err(BitRangeError::InvalidRangeFormat));
    assert_eq!(BitRange::from_text("-1"), Err(BitRangeError::InvalidRangeFormat));
    assert_eq!(BitRange::from_text("+7"), Ok(BitRange(7, 7)));
    assert_eq!(BitRange::from_text("007"), Ok(BitRange(7, 7)));
    assert_eq!(BitRange::from_text("255"), Ok(BitRange(255, 255)));
    assert_eq!(BitRange::from_text("1..2..9"), Ok(BitRange(1, 2)));
    assert_eq!(BitRange::from_text("3..3"), Ok(BitRange(3, 3)));
    assert!(BitRange::from_text("3..3").unwrap().is_single_bit());
    assert!(!BitRange::from_text("3..4").unwrap().is_single_bit());
}

#[test]
fn defaults() {
    assert_eq!(Access::default(), Access::ReadWrite);
    assert_eq!(FlowControl::default(), FlowControl::Direct);
}

#[test]
fn xtask_error_message() {
    let e = XtaskErrors::WorkspaceNotFound("/tmp/Cargo.toml".to_string());
    assert_eq!(e.message(), "No workspace path found in /tmp/Cargo.toml");
}
