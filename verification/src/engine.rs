use vstd::prelude::*;
use crate::classify::{SearchRequest, RequestModel, FileEntry, classify, eligible_spec};
use crate::scan::{MatchRecord, RecordModel, records_view, scan_lines_spec, scan_file};
use crate::sniff::{is_binary_spec, is_binary_content};
use crate::lines::{split_lines, split_lines_spec, lines_view};
use crate::span::spans_wf;

verus! {

/// Why a file yielded no scan, or an incomplete one.
#[derive(Clone, Copy, Debug, PartialEq, Eq, Structural)]
pub enum FileError {
    OpenFailed,
    PermissionDenied,
    ReadFailed,
}

/// What reading one file yielded: either the file could not be opened at
/// all, or it was opened and `data` holds the bytes read, with the error
/// that cut the read short, if any.
pub enum ReadResult {
    Failed(FileError),
    Content { data: Vec<u8>, interrupted: Option<FileError> },
}

/// One discovered entry together with what reading it yielded.
pub struct EntryInput {
    pub entry: FileEntry,
    pub read: ReadResult,
}

/// The terminal state of one file's processing.
pub enum FileOutcome {
    /// The classifier ruled the entry out; it was never opened.
    Skipped,
    /// The file could not be opened.
    Failed { cause: FileError },
    /// The sampled prefix was binary and binary files are excluded.
    BinarySkipped,
    /// The file was scanned; `interrupted` records a read error that cut the
    /// scan short after the records gathered so far.
    Scanned { records: Vec<MatchRecord>, interrupted: Option<FileError> },
}

/// Aggregate counters of one run.
#[derive(Clone, Copy, Debug, PartialEq, Eq, Structural)]
pub struct SearchStats {
    pub files_scanned: u64,
    pub files_skipped_binary: u64,
    pub files_errored: u64,
    pub matches_found: u64,
    pub elapsed_ms: u64,
}

/// All counters at zero.
pub open spec fn stats_zero() -> SearchStats {
    SearchStats {
        files_scanned: 0,
        files_skipped_binary: 0,
        files_errored: 0,
        matches_found: 0,
        elapsed_ms: 0,
    }
}

/// `a + n` clamped to the counter range.
pub open spec fn sat_add_spec(a: u64, n: int) -> u64 {
    if a + n <= u64::MAX {
        (a + n) as u64
    } else {
        u64::MAX
    }
}

fn sat_add(a: u64, b: u64) -> (r: u64)
    ensures
        r == sat_add_spec(a, b as int),
{
    if a <= u64::MAX - b {
        a + b
    } else {
        u64::MAX
    }
}

impl SearchStats {
    /// A fresh accumulator with every counter at zero.
    pub fn new() -> (r: SearchStats)
        ensures
            r == stats_zero(),
    {
        SearchStats {
            files_scanned: 0,
            files_skipped_binary: 0,
            files_errored: 0,
            matches_found: 0,
            elapsed_ms: 0,
        }
    }

    /// Sets the elapsed time, leaving every counter as it was.
    pub fn set_elapsed_ms(&mut self, ms: u64)
        ensures
            *final(self) == (SearchStats { elapsed_ms: ms, ..*old(self) }),
    {
        self.elapsed_ms = ms;
    }
}

/// The binary gate: true when the sampled prefix is binary and the search
/// does not include binary content.
pub open spec fn binary_gated(req: RequestModel, data: Seq<u8>) -> bool {
    !req.include_binary && is_binary_spec(data)
}

/// The records one input contributes to a run: none when the entry is
/// ineligible, unreadable, or gated as binary; otherwise the records of
/// scanning the lines of what was read.
pub open spec fn input_records(req: RequestModel, inp: EntryInput) -> Seq<RecordModel> {
    if !eligible_spec(req, inp.entry@) {
        Seq::empty()
    } else {
        match inp.read {
            ReadResult::Failed(_) => Seq::empty(),
            ReadResult::Content { data, interrupted } => {
                if binary_gated(req, data@) {
                    Seq::empty()
                } else {
                    scan_lines_spec(req.content_pattern, inp.entry@.path, split_lines_spec(data@), 1)
                }
            },
        }
    }
}

/// The records of a whole run, file by file in input order.
pub open spec fn run_records_spec(req: RequestModel, inputs: Seq<EntryInput>) -> Seq<RecordModel>
    decreases inputs.len(),
{
    if inputs.len() == 0 {
        Seq::empty()
    } else {
        input_records(req, inputs[0]) + run_records_spec(req, inputs.drop_first())
    }
}

/// The stats accumulator after one more outcome.
pub open spec fn outcome_stats(acc: SearchStats, outcome: FileOutcome) -> SearchStats {
    match outcome {
        FileOutcome::Skipped => acc,
        FileOutcome::Failed { .. } => (SearchStats {
            files_errored: sat_add_spec(acc.files_errored, 1),
            ..acc
        }),
        FileOutcome::BinarySkipped => (SearchStats {
            files_skipped_binary: sat_add_spec(acc.files_skipped_binary, 1),
            ..acc
        }),
        FileOutcome::Scanned { records, interrupted } => (SearchStats {
            files_scanned: sat_add_spec(acc.files_scanned, 1),
            matches_found: sat_add_spec(acc.matches_found, records@.len() as int),
            files_errored: if interrupted is Some {
                sat_add_spec(acc.files_errored, 1)
            } else {
                acc.files_errored
            },
            ..acc
        }),
    }
}

/// The stats accumulator after one more input, as `run_entries` counts it.
pub open spec fn stats_plus(acc: SearchStats, req: RequestModel, inp: EntryInput) -> SearchStats {
    if !eligible_spec(req, inp.entry@) {
        acc
    } else {
        match inp.read {
            ReadResult::Failed(_) => (SearchStats {
                files_errored: sat_add_spec(acc.files_errored, 1),
                ..acc
            }),
            ReadResult::Content { data, interrupted } => {
                if binary_gated(req, data@) {
                    (SearchStats {
                        files_skipped_binary: sat_add_spec(acc.files_skipped_binary, 1),
                        ..acc
                    })
                } else {
                    (SearchStats {
                        files_scanned: sat_add_spec(acc.files_scanned, 1),
                        matches_found: sat_add_spec(
                            acc.matches_found,
                            scan_lines_spec(
                                req.content_pattern,
                                inp.entry@.path,
                                split_lines_spec(data@),
                                1,
                            ).len() as int,
                        ),
                        files_errored: if interrupted is Some {
                            sat_add_spec(acc.files_errored, 1)
                        } else {
                            acc.files_errored
                        },
                        ..acc
                    })
                }
            },
        }
    }
}

/// The stats of a run, folded over the inputs from `acc`.
pub open spec fn run_stats_from(req: RequestModel, inputs: Seq<EntryInput>, acc: SearchStats) -> SearchStats
    decreases inputs.len(),
{
    if inputs.len() == 0 {
        acc
    } else {
        run_stats_from(req, inputs.drop_first(), stats_plus(acc, req, inputs[0]))
    }
}

/// The stats of a whole run.
pub open spec fn run_stats_spec(req: RequestModel, inputs: Seq<EntryInput>) -> SearchStats {
    run_stats_from(req, inputs, stats_zero())
}

/// Every record of a `Scanned` outcome carries well-formed spans, at least
/// one of them.
pub open spec fn outcome_records_wf(r: FileOutcome) -> bool {
    r matches FileOutcome::Scanned { records, .. } ==> forall|k: int|
        0 <= k < records@.len() ==> spans_wf(
            (#[trigger] records@[k])@.spans,
            records@[k]@.line_text.len() as int,
        ) && records@[k]@.spans.len() > 0
}

/// Drives one file through the whole pipeline: classification, the binary
/// gate, line splitting and the scan. The outcome names the terminal state
/// the file reached and, when it was scanned, carries exactly the records of
/// its matching lines.
pub fn process_file(req: &SearchRequest, entry: &FileEntry, read: &ReadResult) -> (r: FileOutcome)
    ensures
        (match r {
            FileOutcome::Skipped => !eligible_spec(req@, entry@),
            FileOutcome::Failed { cause } => eligible_spec(req@, entry@) && (*read matches
                ReadResult::Failed(c) && c == cause),
            FileOutcome::BinarySkipped => eligible_spec(req@, entry@) && (*read matches
                ReadResult::Content { data, .. } && binary_gated(req@, data@)),
            FileOutcome::Scanned { records, interrupted } => eligible_spec(req@, entry@)
                && (*read matches ReadResult::Content { data, interrupted: cut }
                && !binary_gated(req@, data@) && interrupted == cut && records_view(records@)
                == scan_lines_spec(req@.content_pattern, entry@.path, split_lines_spec(data@), 1)),
        }),
        outcome_records_wf(r),
{
    if !classify(req, entry) {
        return FileOutcome::Skipped;
    }
    match read {
        ReadResult::Failed(cause) => FileOutcome::Failed { cause: *cause },
        ReadResult::Content { data, interrupted } => {
            if !req.include_binary && is_binary_content(data) {
                FileOutcome::BinarySkipped
            } else {
                let lines = split_lines(data);
                let records = scan_file(&req.content_pattern, &entry.path, &lines);
                proof {
                    assert(lines_view(lines@) == split_lines_spec(data@));
                }
                FileOutcome::Scanned { records, interrupted: *interrupted }
            }
        },
    }
}

/// Adds one outcome to the accumulated stats: a scan counts the file and its
/// records, a binary skip and a failure count once each, an interrupted scan
/// counts as an error too. Counters saturate instead of wrapping.
pub fn record_outcome(stats: &mut SearchStats, outcome: &FileOutcome)
    ensures
        *final(stats) == outcome_stats(*old(stats), *outcome),
{
    match outcome {
        FileOutcome::Skipped => {},
        FileOutcome::Failed { .. } => {
            stats.files_errored = sat_add(stats.files_errored, 1);
        },
        FileOutcome::BinarySkipped => {
            stats.files_skipped_binary = sat_add(stats.files_skipped_binary, 1);
        },
        FileOutcome::Scanned { records, interrupted } => {
            stats.files_scanned = sat_add(stats.files_scanned, 1);
            stats.matches_found = sat_add(stats.matches_found, records.len() as u64);
            if interrupted.is_some() {
                stats.files_errored = sat_add(stats.files_errored, 1);
            }
        },
    }
}

/// Runs the engine over a batch of inputs in order: classifies every entry,
/// scans the eligible readable non-gated ones, and returns all records
/// together with the final stats.
pub fn run_entries(req: &SearchRequest, inputs: &Vec<EntryInput>) -> (out: (Vec<MatchRecord>, SearchStats))
    ensures
        records_view(out.0@) == run_records_spec(req@, inputs@),
        out.1 == run_stats_spec(req@, inputs@),
        forall|k: int| 0 <= k < out.0@.len()
            ==> spans_wf((#[trigger] out.0@[k])@.spans, out.0@[k]@.line_text.len() as int)
                && out.0@[k]@.spans.len() > 0,
{
    let ghost iv = inputs@;
    let mut records: Vec<MatchRecord> = Vec::new();
    let mut stats = SearchStats::new();
    let mut i: usize = 0;
    proof {
        assert(iv.skip(0) =~= iv);
        assert(records_view(records@) =~= Seq::<RecordModel>::empty());
        assert(records_view(records@) + run_records_spec(req@, iv.skip(0)) =~= run_records_spec(
            req@,
            iv,
        ));
    }
    let n = inputs.len();
    while i < n
        invariant
            i <= n,
            n == iv.len(),
            iv == inputs@,
            run_records_spec(req@, iv) == records_view(records@) + run_records_spec(
                req@,
                iv.skip(i as int),
            ),
            run_stats_spec(req@, iv) == run_stats_from(req@, iv.skip(i as int), stats),
            forall|k: int| 0 <= k < records@.len()
                ==> spans_wf((#[trigger] records@[k])@.spans, records@[k]@.line_text.len() as int)
                    && records@[k]@.spans.len() > 0,
        decreases n - i,
    {
        let ghost tail = iv.skip(i as int);
        let ghost stats0 = stats;
        proof {
            assert(tail[0] == iv[i as int]);
            assert(tail.drop_first() =~= iv.skip(i + 1));
            assert(run_records_spec(req@, tail) == input_records(req@, iv[i as int])
                + run_records_spec(req@, iv.skip(i + 1)));
            assert(run_stats_from(req@, tail, stats) == run_stats_from(
                req@,
                iv.skip(i + 1),
                stats_plus(stats, req@, iv[i as int]),
            ));
        }
        let inp = &inputs[i];
        let mut outcome = process_file(req, &inp.entry, &inp.read);
        record_outcome(&mut stats, &outcome);
        proof {
            assert(stats == stats_plus(stats0, req@, iv[i as int]));
        }
        match &mut outcome {
            FileOutcome::Scanned { records: rs, .. } => {
                proof {
                    assert(input_records(req@, iv[i as int]) == records_view(rs@));
                    assert(records_view(records@ + rs@) =~= records_view(records@) + records_view(
                        rs@,
                    ));
                }
                records.append(rs);
            },
            _ => {
                proof {
                    assert(input_records(req@, iv[i as int]) =~= Seq::<RecordModel>::empty());
                    assert(records_view(records@) + input_records(req@, iv[i as int])
                        =~= records_view(records@));
                }
            },
        }
        i += 1;
    }
    proof {
        assert(iv.skip(n as int).len() == 0);
        assert(records_view(records@) + run_records_spec(req@, iv.skip(n as int)) =~= records_view(
            records@,
        ));
    }
    (records, stats)
}

/// Binary gate: when binary files are excluded, a file whose sampled prefix
/// is binary contributes no records to a run, however its read went.
pub proof fn lemma_binary_skipped(req: RequestModel, inp: EntryInput)
    requires
        !req.include_binary,
        inp.read matches ReadResult::Content { data, .. } && is_binary_spec(data@),
    ensures
        input_records(req, inp) == Seq::<RecordModel>::empty(),
{
}

/// A run over concatenated inputs is the concatenation of the runs.
pub proof fn lemma_run_append(req: RequestModel, a: Seq<EntryInput>, b: Seq<EntryInput>)
    ensures
        run_records_spec(req, a + b) == run_records_spec(req, a) + run_records_spec(req, b),
    decreases a.len(),
{
    if a.len() == 0 {
        assert(a + b =~= b);
        assert(run_records_spec(req, a) + run_records_spec(req, b) =~= run_records_spec(req, b));
    } else {
        assert((a + b)[0] == a[0]);
        assert((a + b).drop_first() =~= a.drop_first() + b);
        lemma_run_append(req, a.drop_first(), b);
        assert(run_records_spec(req, a + b) == input_records(req, a[0]) + (run_records_spec(
            req,
            a.drop_first(),
        ) + run_records_spec(req, b)));
        assert(input_records(req, a[0]) + (run_records_spec(req, a.drop_first())
            + run_records_spec(req, b)) =~= (input_records(req, a[0]) + run_records_spec(
            req,
            a.drop_first(),
        )) + run_records_spec(req, b));
    }
}

/// Taking one input out of a run takes exactly its records out of the run's
/// multiset of records.
proof fn lemma_run_remove(req: RequestModel, s: Seq<EntryInput>, j: int)
    requires
        0 <= j < s.len(),
    ensures
        run_records_spec(req, s).to_multiset() == run_records_spec(req, s.remove(j)).to_multiset()
            .add(input_records(req, s[j]).to_multiset()),
{
    broadcast use vstd::multiset::group_multiset_axioms;

    let front = s.subrange(0, j);
    let back = s.skip(j + 1);
    let mid = seq![s[j]];
    assert(s =~= front + (mid + back));
    assert(s.remove(j) =~= front + back);
    lemma_run_append(req, front, mid + back);
    lemma_run_append(req, front, back);
    assert(run_records_spec(req, mid + back) == input_records(req, s[j]) + run_records_spec(
        req,
        back,
    )) by {
        assert((mid + back)[0] == s[j]);
        assert((mid + back).drop_first() =~= back);
    }
    let fr = run_records_spec(req, front);
    let br = run_records_spec(req, back);
    let xr = input_records(req, s[j]);
    vstd::seq_lib::lemma_multiset_commutative(fr, xr + br);
    vstd::seq_lib::lemma_multiset_commutative(xr, br);
    vstd::seq_lib::lemma_multiset_commutative(fr, br);
    assert(run_records_spec(req, s).to_multiset() =~= (fr + br).to_multiset().add(
        xr.to_multiset(),
    ));
}

/// Order irrelevance: two runs whose inputs are the same multiset, in any
/// order, yield the same multiset of records, whatever order each run
/// emitted them in.
pub proof fn lemma_run_order_irrelevant(
    req: RequestModel,
    inputs1: Seq<EntryInput>,
    inputs2: Seq<EntryInput>,
)
    requires
        inputs1.to_multiset() == inputs2.to_multiset(),
    ensures
        run_records_spec(req, inputs1).to_multiset() == run_records_spec(req, inputs2)
            .to_multiset(),
    decreases inputs1.len(),
{
    broadcast use vstd::seq_lib::group_to_multiset_ensures;
    broadcast use vstd::multiset::group_multiset_axioms;

    if inputs1.len() == 0 {
        assert(inputs2.to_multiset().len() == 0);
        assert(inputs2.len() == 0);
    } else {
        let x = inputs1[0];
        assert(inputs1.to_multiset().count(x) > 0) by {
            assert(inputs1.contains(x));
        }
        assert(inputs2.contains(x)) by {
            assert(inputs2.to_multiset().count(x) > 0);
        }
        let j = choose|j: int| 0 <= j < inputs2.len() && inputs2[j] == x;
        assert(inputs1.remove(0) =~= inputs1.drop_first());
        assert(inputs1.drop_first().to_multiset() == inputs2.remove(j).to_multiset()) by {
            assert(inputs1.remove(0).to_multiset() =~= inputs1.to_multiset().remove(x));
            assert(inputs2.remove(j).to_multiset() =~= inputs2.to_multiset().remove(x));
        }
        lemma_run_order_irrelevant(req, inputs1.drop_first(), inputs2.remove(j));
        lemma_run_remove(req, inputs2, j);
        let xr = input_records(req, x);
        let dr = run_records_spec(req, inputs1.drop_first());
        assert(run_records_spec(req, inputs1) == xr + dr);
        vstd::seq_lib::lemma_multiset_commutative(xr, dr);
        assert(run_records_spec(req, inputs1).to_multiset() =~= run_records_spec(
            req,
            inputs2,
        ).to_multiset());
    }
}

/// Idempotence: two runs over the same inputs with the same request yield
/// the same records, and so in particular the same multiset of records.
pub proof fn lemma_run_deterministic(
    req: RequestModel,
    inputs: Seq<EntryInput>,
    r1: Seq<RecordModel>,
    r2: Seq<RecordModel>,
)
    requires
        r1 == run_records_spec(req, inputs),
        r2 == run_records_spec(req, inputs),
    ensures
        r1 == r2,
        r1.to_multiset() == r2.to_multiset(),
{
}

} // verus!
