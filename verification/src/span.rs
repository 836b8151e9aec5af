use vstd::prelude::*;

verus! {

/// One match occurrence inside a line: half-open byte offsets into the line's
/// text, with `start <= end`.
#[derive(Clone, Copy, Debug, PartialEq, Eq, Structural)]
pub struct MatchSpan {
    pub start: usize,
    pub end: usize,
}

/// The mathematical shape of a span sequence: each span as a pair of byte
/// offsets.
pub open spec fn span_seq(spans: Seq<MatchSpan>) -> Seq<(int, int)> {
    spans.map(|i: int, s: MatchSpan| (s.start as int, s.end as int))
}

/// Well-formed spans over a line of `len` bytes: every span lies inside the
/// line with `start <= end`, and the spans are sorted by `start` and mutually
/// non-overlapping (each ends no later than the next begins).
pub open spec fn spans_wf(spans: Seq<(int, int)>, len: int) -> bool {
    &&& forall|i: int| 0 <= i < spans.len() ==> 0 <= (#[trigger] spans[i]).0 <= spans[i].1 <= len
    &&& forall|i: int| 0 <= i < spans.len() - 1 ==> (#[trigger] spans[i]).1 <= spans[i + 1].0
}

/// Decides well-formedness of a span vector against a line length.
pub fn check_spans_wf(spans: &Vec<MatchSpan>, len: usize) -> (r: bool)
    ensures
        r == spans_wf(span_seq(spans@), len as int),
{
    let n = spans.len();
    let mut i: usize = 0;
    while i < n
        invariant
            i <= n,
            n == spans@.len(),
            forall|j: int| 0 <= j < i ==> 0 <= #[trigger] span_seq(spans@)[j].0
                <= span_seq(spans@)[j].1 <= len as int,
            forall|j: int| 0 <= j < i && j < n - 1 ==> #[trigger] span_seq(spans@)[j].1
                <= span_seq(spans@)[j + 1].0,
        decreases n - i,
    {
        let s = spans[i];
        if !(s.start <= s.end && s.end <= len) {
            assert(!(0 <= span_seq(spans@)[i as int].0 <= span_seq(spans@)[i as int].1
                <= len as int));
            return false;
        }
        if i + 1 < n && spans[i + 1].start < s.end {
            assert(!(span_seq(spans@)[i as int].1 <= span_seq(spans@)[i as int + 1].0));
            return false;
        }
        i += 1;
    }
    true
}

} // verus!
