use grip::sniff::is_binary_content;
use grip::lines::split_lines;
use grip::span::{MatchSpan, check_spans_wf};
use grip::highlight::{highlight, strip_markers};
use grip::render::{format_number, render_record};
use grip::scan::MatchRecord;

#[test]
fn empty_content_is_not_binary() {
    assert!(!is_binary_content(&Vec::new()));
}

#[test]
fn text_is_not_binary() {
    assert!(!is_binary_content(&b"plain text, no nul".to_vec()));
}

#[test]
fn nul_in_prefix_is_binary() {
    assert!(is_binary_content(&b"ab\0cd".to_vec()));
    let mut data = vec![1u8; 1024];
    data[1023] = 0;
    assert!(is_binary_content(&data));
}

#[test]
fn nul_after_prefix_is_not_binary() {
    let mut data = vec![1u8; 1025];
    data[1024] = 0;
    assert!(!is_binary_content(&data));
}

#[test]
fn split_plain_lines() {
    let got = split_lines(&b"a\nbc".to_vec());
    assert_eq!(got, vec![b"a".to_vec(), b"bc".to_vec()]);
}

#[test]
fn split_trailing_newline_adds_no_line() {
    let got = split_lines(&b"a\n".to_vec());
    assert_eq!(got, vec![b"a".to_vec()]);
}

#[test]
fn split_strips_carriage_return_before_newline() {
    let got = split_lines(&b"a\r\nb".to_vec());
    assert_eq!(got, vec![b"a".to_vec(), b"b".to_vec()]);
}

#[test]
fn split_keeps_final_carriage_return() {
    let got = split_lines(&b"a\r".to_vec());
    assert_eq!(got, vec![b"a\r".to_vec()]);
}

#[test]
fn split_empty_content() {
    let got = split_lines(&Vec::new());
    assert_eq!(got, Vec::<Vec<u8>>::new());
}

#[test]
fn split_empty_lines() {
    let got = split_lines(&b"\n\n".to_vec());
    assert_eq!(got, vec![Vec::<u8>::new(), Vec::<u8>::new()]);
}

#[test]
fn spans_wf_decider() {
    let ok = vec![MatchSpan { start: 0, end: 3 }, MatchSpan { start: 8, end: 11 }];
    assert!(check_spans_wf(&ok, 11));
    assert!(!check_spans_wf(&ok, 10));
    let overlapping = vec![MatchSpan { start: 0, end: 4 }, MatchSpan { start: 3, end: 6 }];
    assert!(!check_spans_wf(&overlapping, 10));
    let unsorted = vec![MatchSpan { start: 5, end: 6 }, MatchSpan { start: 0, end: 1 }];
    assert!(!check_spans_wf(&unsorted, 10));
}

#[test]
fn highlight_wraps_spans_in_markers() {
    let line = b"foo bar foo".to_vec();
    let spans = vec![MatchSpan { start: 0, end: 3 }, MatchSpan { start: 8, end: 11 }];
    let rendered = highlight(&line, &spans);
    assert_eq!(rendered, b"\x1b[31mfoo\x1b[0m bar \x1b[31mfoo\x1b[0m".to_vec());
}

#[test]
fn highlight_without_spans_is_identity() {
    let line = b"nothing here".to_vec();
    let rendered = highlight(&line, &Vec::new());
    assert_eq!(rendered, line);
}

#[test]
fn highlight_round_trip() {
    let line = b"foo bar foo".to_vec();
    let spans = vec![MatchSpan { start: 0, end: 3 }, MatchSpan { start: 8, end: 11 }];
    let rendered = highlight(&line, &spans);
    assert_eq!(strip_markers(&rendered), line);
}

#[test]
fn numbers_render_in_decimal() {
    assert_eq!(format_number(0), b"0".to_vec());
    assert_eq!(format_number(7), b"7".to_vec());
    assert_eq!(format_number(907), b"907".to_vec());
    assert_eq!(format_number(120010), b"120010".to_vec());
}

#[test]
fn record_renders_as_match_line() {
    let rec = MatchRecord {
        path: String::from("root/a.txt"),
        line_number: 12,
        line_text: b"foo bar".to_vec(),
        spans: vec![MatchSpan { start: 0, end: 3 }],
    };
    assert_eq!(render_record(&rec, false), b"root/a.txt:12: foo bar".to_vec());
    assert_eq!(
        render_record(&rec, true),
        b"root/a.txt:12: \x1b[31mfoo\x1b[0m bar".to_vec()
    );
}

#[test]
fn highlight_round_trip_empty_and_adjacent_spans() {
    let line = b"abcd".to_vec();
    let spans = vec![MatchSpan { start: 1, end: 1 }, MatchSpan { start: 1, end: 3 }];
    let rendered = highlight(&line, &spans);
    assert_eq!(rendered, b"a\x1b[31m\x1b[0m\x1b[31mbc\x1b[0md".to_vec());
    assert_eq!(strip_markers(&rendered), line);
}
