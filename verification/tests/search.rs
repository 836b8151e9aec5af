use grip::pattern::Pattern;
use grip::classify::{SearchRequest, FileEntry, EntryKind, classify, within_depth};
use grip::engine::{
    EntryInput, ReadResult, FileOutcome, FileError, SearchStats, run_entries, process_file,
    record_outcome,
};
use grip::scan::scan_file;
use grip::span::MatchSpan;
use grip::lines::split_lines;

fn request(
    filename_pattern: &str,
    content_pattern: &str,
    include_binary: bool,
    max_depth: Option<usize>,
) -> SearchRequest {
    SearchRequest {
        root: String::from("root"),
        filename_pattern: Pattern::new(filename_pattern).unwrap(),
        content_pattern: Pattern::new(content_pattern).unwrap(),
        include_binary,
        max_depth,
    }
}

fn file_entry(path: &str, name: &str, depth: usize) -> FileEntry {
    FileEntry {
        path: String::from(path),
        name: String::from(name),
        depth,
        kind: EntryKind::File,
    }
}

fn content(data: &[u8]) -> ReadResult {
    ReadResult::Content { data: data.to_vec(), interrupted: None }
}

#[test]
fn invalid_pattern_is_rejected() {
    assert!(Pattern::new("(").is_none());
    assert!(Pattern::new("foo").is_some());
}

#[test]
fn classify_matches_basename_substring() {
    let req = request(".txt$", "foo", false, None);
    assert!(classify(&req, &file_entry("root/a.txt", "a.txt", 1)));
    assert!(!classify(&req, &file_entry("root/a.txt.bak", "a.txt.bak", 1)));
    let substring = request("txt", "foo", false, None);
    assert!(classify(&substring, &file_entry("root/a.txt.bak", "a.txt.bak", 1)));
}

#[test]
fn classify_rejects_directories_and_others() {
    let req = request("", "foo", false, None);
    let mut dir = file_entry("root/sub", "sub", 1);
    dir.kind = EntryKind::Directory;
    assert!(!classify(&req, &dir));
    let mut link = file_entry("root/link", "link", 1);
    link.kind = EntryKind::Other;
    assert!(!classify(&req, &link));
}

#[test]
fn classify_honours_depth_bound() {
    let req = request("", "foo", false, Some(2));
    assert!(classify(&req, &file_entry("root/a", "a", 2)));
    assert!(!classify(&req, &file_entry("root/s/s/a", "a", 3)));
    assert!(within_depth(&req, 2));
    assert!(!within_depth(&req, 3));
    let unbounded = request("", "foo", false, None);
    assert!(within_depth(&unbounded, 100000));
}

#[test]
fn scan_reports_all_spans_left_to_right() {
    let pat = Pattern::new("o+").unwrap();
    let lines = split_lines(&b"foo boo\nxyz".to_vec());
    let records = scan_file(&pat, &String::from("p"), &lines);
    assert_eq!(records.len(), 1);
    assert_eq!(records[0].line_number, 1);
    assert_eq!(records[0].spans, vec![
        MatchSpan { start: 1, end: 3 },
        MatchSpan { start: 5, end: 7 },
    ]);
}

#[test]
fn scan_skips_non_utf8_lines_only() {
    let pat = Pattern::new("foo").unwrap();
    let lines = split_lines(&b"foo\n\xff-foo\nfoo".to_vec());
    let records = scan_file(&pat, &String::from("p"), &lines);
    assert_eq!(records.len(), 2);
    assert_eq!(records[0].line_number, 1);
    assert_eq!(records[1].line_number, 3);
}

#[test]
fn scenario_one_file_two_matches_on_one_line() {
    let req = request(".txt$", "foo", false, None);
    let inputs = vec![EntryInput {
        entry: file_entry("root/a.txt", "a.txt", 1),
        read: content(b"foo bar foo"),
    }];
    let (records, stats) = run_entries(&req, &inputs);
    assert_eq!(records.len(), 1);
    assert_eq!(records[0].path, String::from("root/a.txt"));
    assert_eq!(records[0].line_number, 1);
    assert_eq!(records[0].line_text, b"foo bar foo".to_vec());
    assert_eq!(records[0].spans, vec![
        MatchSpan { start: 0, end: 3 },
        MatchSpan { start: 8, end: 11 },
    ]);
    assert_eq!(stats.files_scanned, 1);
    assert_eq!(stats.matches_found, 1);
    assert_eq!(stats.files_skipped_binary, 0);
    assert_eq!(stats.files_errored, 0);
}

#[test]
fn scenario_binary_file_is_skipped() {
    let req = request("", "foo", false, None);
    let inputs = vec![EntryInput {
        entry: file_entry("root/blob", "blob", 1),
        read: content(b"foo\0foo"),
    }];
    let (records, stats) = run_entries(&req, &inputs);
    assert_eq!(records.len(), 0);
    assert_eq!(stats.files_skipped_binary, 1);
    assert_eq!(stats.files_scanned, 0);
}

#[test]
fn included_binary_file_is_scanned() {
    let req = request("", "foo", true, None);
    let inputs = vec![EntryInput {
        entry: file_entry("root/blob", "blob", 1),
        read: content(b"foo\0foo"),
    }];
    let (records, stats) = run_entries(&req, &inputs);
    assert_eq!(records.len(), 1);
    assert_eq!(stats.files_scanned, 1);
    assert_eq!(stats.files_skipped_binary, 0);
}

#[test]
fn scenario_deep_entries_are_never_classified_eligible() {
    let req = request("", "foo", false, Some(2));
    let mut inputs = Vec::new();
    for i in 0..10000usize {
        inputs.push(EntryInput {
            entry: file_entry("root/deep/file", &format!("file{}", i), 5),
            read: content(b"foo"),
        });
    }
    let (records, stats) = run_entries(&req, &inputs);
    assert_eq!(records.len(), 0);
    assert_eq!(stats.files_scanned, 0);
    assert_eq!(stats.files_errored, 0);
    assert_eq!(stats.files_skipped_binary, 0);
}

#[test]
fn scenario_read_error_keeps_prior_records_and_other_files() {
    let req = request("", "foo", false, None);
    let inputs = vec![
        EntryInput {
            entry: file_entry("root/cut", "cut", 1),
            read: ReadResult::Content {
                data: b"foo first\n".to_vec(),
                interrupted: Some(FileError::PermissionDenied),
            },
        },
        EntryInput {
            entry: file_entry("root/whole", "whole", 1),
            read: content(b"foo second"),
        },
    ];
    let (records, stats) = run_entries(&req, &inputs);
    assert_eq!(records.len(), 2);
    assert_eq!(records[0].path, String::from("root/cut"));
    assert_eq!(records[0].line_text, b"foo first".to_vec());
    assert_eq!(records[1].path, String::from("root/whole"));
    assert_eq!(stats.files_scanned, 2);
    assert_eq!(stats.files_errored, 1);
    assert_eq!(stats.matches_found, 2);
}

#[test]
fn open_failure_is_counted_not_fatal() {
    let req = request("", "foo", false, None);
    let entry = file_entry("root/locked", "locked", 1);
    let outcome = process_file(&req, &entry, &ReadResult::Failed(FileError::OpenFailed));
    assert!(matches!(outcome, FileOutcome::Failed { cause: FileError::OpenFailed }));
    let mut stats = SearchStats::new();
    record_outcome(&mut stats, &outcome);
    assert_eq!(stats.files_errored, 1);
    assert_eq!(stats.files_scanned, 0);
}

#[test]
fn ineligible_entry_is_skipped_before_anything_else() {
    let req = request("never-matches-x9", "foo", false, None);
    let entry = file_entry("root/a", "a", 1);
    let outcome = process_file(&req, &entry, &content(b"foo"));
    assert!(matches!(outcome, FileOutcome::Skipped));
}

#[test]
fn counters_saturate_at_the_top() {
    let mut stats = SearchStats::new();
    stats.files_errored = u64::MAX;
    record_outcome(&mut stats, &FileOutcome::Failed { cause: FileError::ReadFailed });
    assert_eq!(stats.files_errored, u64::MAX);
}

#[test]
fn elapsed_setter_touches_only_elapsed() {
    let mut stats = SearchStats::new();
    stats.files_scanned = 7;
    stats.set_elapsed_ms(1234);
    assert_eq!(stats.elapsed_ms, 1234);
    assert_eq!(stats.files_scanned, 7);
}

#[test]
fn runs_are_idempotent_up_to_nothing() {
    let req = request("", "o+", false, None);
    let inputs = vec![
        EntryInput { entry: file_entry("root/a", "a", 1), read: content(b"foo\nboo") },
        EntryInput { entry: file_entry("root/b", "b", 2), read: content(b"zoo") },
    ];
    let (r1, s1) = run_entries(&req, &inputs);
    let (r2, s2) = run_entries(&req, &inputs);
    assert_eq!(r1.len(), r2.len());
    for (a, b) in r1.iter().zip(r2.iter()) {
        assert_eq!(a.path, b.path);
        assert_eq!(a.line_number, b.line_number);
        assert_eq!(a.line_text, b.line_text);
        assert_eq!(a.spans, b.spans);
    }
    assert_eq!(s1, s2);
    assert_eq!(r1.len(), 3);
    assert_eq!(r1[0].line_number, 1);
    assert_eq!(r1[1].line_number, 2);
}

#[test]
fn input_order_changes_no_record_multiset() {
    let req = request("", "o+", false, None);
    let forward = vec![
        EntryInput { entry: file_entry("root/a", "a", 1), read: content(b"foo\nboo") },
        EntryInput { entry: file_entry("root/b", "b", 2), read: content(b"zoo") },
    ];
    let backward = vec![
        EntryInput { entry: file_entry("root/b", "b", 2), read: content(b"zoo") },
        EntryInput { entry: file_entry("root/a", "a", 1), read: content(b"foo\nboo") },
    ];
    let (r1, s1) = run_entries(&req, &forward);
    let (r2, s2) = run_entries(&req, &backward);
    let mut k1: Vec<(String, usize)> =
        r1.iter().map(|r| (r.path.clone(), r.line_number)).collect();
    let mut k2: Vec<(String, usize)> =
        r2.iter().map(|r| (r.path.clone(), r.line_number)).collect();
    k1.sort();
    k2.sort();
    assert_eq!(k1, k2);
    assert_eq!(s1, s2);
}
