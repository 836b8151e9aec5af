use vstd::prelude::*;
use crate::span::{MatchSpan, span_seq, spans_wf};
use crate::pattern::{Pattern, find_spans_of, is_utf8};
use crate::lines::{lines_view, push_range};

verus! {

/// The mathematical content of one match record.
pub ghost struct RecordModel {
    pub path: Seq<char>,
    pub line_number: int,
    pub line_text: Seq<u8>,
    pub spans: Seq<(int, int)>,
}

/// One matching line of one file: the file's path, the 1-based line number,
/// the line's bytes, and the spans the content pattern matched in it.
pub struct MatchRecord {
    pub path: String,
    pub line_number: usize,
    pub line_text: Vec<u8>,
    pub spans: Vec<MatchSpan>,
}

impl View for MatchRecord {
    type V = RecordModel;

    open spec fn view(&self) -> RecordModel {
        RecordModel {
            path: self.path@,
            line_number: self.line_number as int,
            line_text: self.line_text@,
            spans: span_seq(self.spans@),
        }
    }
}

/// The views of a vector of records.
pub open spec fn records_view(v: Seq<MatchRecord>) -> Seq<RecordModel> {
    v.map(|i: int, r: MatchRecord| r@)
}

/// A line is yielded exactly when it decodes as UTF-8 and the content
/// pattern matches in it at least once.
pub open spec fn line_matches(pat: Seq<char>, line: Seq<u8>) -> bool {
    is_utf8(line) && find_spans_of(pat, line).len() > 0
}

/// The record produced for one matching line.
pub open spec fn record_for(pat: Seq<char>, path: Seq<char>, lineno: int, line: Seq<u8>) -> RecordModel {
    RecordModel { path, line_number: lineno, line_text: line, spans: find_spans_of(pat, line) }
}

/// The records of scanning `lines` in order, numbering them from `first_no`:
/// one record per matching line, lines that do not match or do not decode are
/// passed over.
pub open spec fn scan_lines_spec(
    pat: Seq<char>,
    path: Seq<char>,
    lines: Seq<Seq<u8>>,
    first_no: int,
) -> Seq<RecordModel>
    decreases lines.len(),
{
    if lines.len() == 0 {
        Seq::empty()
    } else {
        let rest = scan_lines_spec(pat, path, lines.drop_first(), first_no + 1);
        if line_matches(pat, lines[0]) {
            seq![record_for(pat, path, first_no, lines[0])] + rest
        } else {
            rest
        }
    }
}

/// Every record of a scan keeps the path it was scanned under, and its line
/// number lies in the numbered range.
pub proof fn lemma_scan_fields(pat: Seq<char>, path: Seq<char>, lines: Seq<Seq<u8>>, first_no: int)
    ensures
        forall|k: int| 0 <= k < scan_lines_spec(pat, path, lines, first_no).len()
            ==> (#[trigger] scan_lines_spec(pat, path, lines, first_no)[k]).path == path
                && first_no <= scan_lines_spec(pat, path, lines, first_no)[k].line_number
                    < first_no + lines.len(),
    decreases lines.len(),
{
    if lines.len() == 0 {
    } else {
        lemma_scan_fields(pat, path, lines.drop_first(), first_no + 1);
        let res = scan_lines_spec(pat, path, lines, first_no);
        let rest = scan_lines_spec(pat, path, lines.drop_first(), first_no + 1);
        assert forall|k: int| 0 <= k < res.len() implies (#[trigger] res[k]).path == path
            && first_no <= res[k].line_number < first_no + lines.len() by {
            if line_matches(pat, lines[0]) {
                if k == 0 {
                    assert(res[0] == record_for(pat, path, first_no, lines[0]));
                } else {
                    assert(res[k] == rest[k - 1]);
                }
            } else {
                assert(res[k] == rest[k]);
            }
        }
    }
}

/// Within one file the records come in strictly increasing line-number
/// order.
pub proof fn lemma_scan_ordered(pat: Seq<char>, path: Seq<char>, lines: Seq<Seq<u8>>, first_no: int)
    ensures
        forall|a: int, b: int|
            0 <= a < b < scan_lines_spec(pat, path, lines, first_no).len()
                ==> (#[trigger] scan_lines_spec(pat, path, lines, first_no)[a]).line_number
                    < (#[trigger] scan_lines_spec(pat, path, lines, first_no)[b]).line_number,
    decreases lines.len(),
{
    if lines.len() == 0 {
    } else {
        lemma_scan_ordered(pat, path, lines.drop_first(), first_no + 1);
        lemma_scan_fields(pat, path, lines.drop_first(), first_no + 1);
        let res = scan_lines_spec(pat, path, lines, first_no);
        let rest = scan_lines_spec(pat, path, lines.drop_first(), first_no + 1);
        assert forall|a: int, b: int| 0 <= a < b < res.len() implies (#[trigger] res[a]).line_number
            < (#[trigger] res[b]).line_number by {
            if line_matches(pat, lines[0]) {
                if a == 0 {
                    assert(res[0] == record_for(pat, path, first_no, lines[0]));
                    assert(res[b] == rest[b - 1]);
                } else {
                    assert(res[a] == rest[a - 1]);
                    assert(res[b] == rest[b - 1]);
                }
            } else {
                assert(res[a] == rest[a]);
                assert(res[b] == rest[b]);
            }
        }
    }
}

/// Scans the lines of one file with the content pattern, returning one
/// record per matching line, numbered from 1. Each returned record carries
/// exactly the spans the pattern matched in its line, well formed over the
/// line's length.
pub fn scan_file(pat: &Pattern, path: &String, lines: &Vec<Vec<u8>>) -> (r: Vec<MatchRecord>)
    ensures
        records_view(r@) == scan_lines_spec(pat@, path@, lines_view(lines@), 1),
        forall|k: int| 0 <= k < r@.len()
            ==> spans_wf((#[trigger] r@[k])@.spans, r@[k]@.line_text.len() as int)
                && r@[k]@.spans.len() > 0,
{
    let ghost lv = lines_view(lines@);
    let n = lines.len();
    let mut r: Vec<MatchRecord> = Vec::new();
    let mut i: usize = 0;
    proof {
        assert(records_view(r@) =~= Seq::<RecordModel>::empty());
        assert(lv.skip(0) =~= lv);
        assert(records_view(r@) + scan_lines_spec(pat@, path@, lv.skip(0), 1) =~= scan_lines_spec(
            pat@,
            path@,
            lv,
            1,
        ));
    }
    while i < n
        invariant
            i <= n,
            n == lines@.len(),
            lv == lines_view(lines@),
            scan_lines_spec(pat@, path@, lv, 1) == records_view(r@) + scan_lines_spec(
                pat@,
                path@,
                lv.skip(i as int),
                i + 1,
            ),
            forall|k: int| 0 <= k < r@.len()
                ==> spans_wf((#[trigger] r@[k])@.spans, r@[k]@.line_text.len() as int)
                    && r@[k]@.spans.len() > 0,
        decreases n - i,
    {
        let ghost tail = lv.skip(i as int);
        proof {
            assert(tail[0] == lv[i as int]);
            assert(tail.drop_first() =~= lv.skip(i + 1));
            assert(lv[i as int] == lines@[i as int]@);
        }
        match pat.find_spans(lines[i].as_slice()) {
            Some(spans) => {
                if spans.len() > 0 {
                    let mut text: Vec<u8> = Vec::new();
                    push_range(&mut text, &lines[i], 0, lines[i].len());
                    proof {
                        assert(text@ =~= lines@[i as int]@);
                    }
                    let rec = MatchRecord {
                        path: String::from_str(path.as_str()),
                        line_number: i + 1,
                        line_text: text,
                        spans,
                    };
                    proof {
                        assert(rec@ == record_for(pat@, path@, i + 1, lv[i as int]));
                        assert(line_matches(pat@, tail[0]));
                        assert(scan_lines_spec(pat@, path@, tail, i + 1) == seq![rec@]
                            + scan_lines_spec(pat@, path@, lv.skip(i + 1), i + 2));
                        assert(records_view(r@.push(rec)) =~= records_view(r@) + seq![rec@]);
                    }
                    r.push(rec);
                } else {
                    proof {
                        assert(!line_matches(pat@, tail[0]));
                        assert(scan_lines_spec(pat@, path@, tail, i + 1) == scan_lines_spec(
                            pat@,
                            path@,
                            lv.skip(i + 1),
                            i + 2,
                        ));
                    }
                }
            },
            None => {
                proof {
                    assert(!line_matches(pat@, tail[0]));
                    assert(scan_lines_spec(pat@, path@, tail, i + 1) == scan_lines_spec(
                        pat@,
                        path@,
                        lv.skip(i + 1),
                        i + 2,
                    ));
                }
            },
        }
        i += 1;
    }
    proof {
        assert(lv.skip(n as int).len() == 0);
        assert(records_view(r@) + scan_lines_spec(pat@, path@, lv.skip(n as int), n + 1)
            =~= records_view(r@));
    }
    r
}

} // verus!
