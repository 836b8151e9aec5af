use vstd::prelude::*;
use crate::span::{MatchSpan, span_seq, spans_wf};
use crate::lines::push_range;

verus! {

/// The escape byte that opens both markers.
pub const ESCAPE: u8 = 27;

/// Bytes that open a highlighted span: the terminal escape for red text.
pub open spec fn start_marker() -> Seq<u8> {
    seq![27u8, 91u8, 51u8, 49u8, 109u8]
}

/// Bytes that close a highlighted span: the terminal reset escape.
pub open spec fn end_marker() -> Seq<u8> {
    seq![27u8, 91u8, 48u8, 109u8]
}

/// The rendering of `line` from offset `from` on: each span's bytes wrapped
/// in the marker pair, the bytes between spans passed through unchanged.
pub open spec fn highlight_from(line: Seq<u8>, spans: Seq<(int, int)>, from: int) -> Seq<u8>
    decreases spans.len(),
{
    if spans.len() == 0 {
        line.skip(from)
    } else {
        line.subrange(from, spans[0].0) + start_marker() + line.subrange(spans[0].0, spans[0].1)
            + end_marker() + highlight_from(line, spans.drop_first(), spans[0].1)
    }
}

/// The rendering of a whole line with its spans.
pub open spec fn highlight_spec(line: Seq<u8>, spans: Seq<(int, int)>) -> Seq<u8> {
    highlight_from(line, spans, 0)
}

/// Whether `s` starts with `p`.
pub open spec fn begins_with(s: Seq<u8>, p: Seq<u8>) -> bool {
    s.len() >= p.len() && s.take(p.len() as int) == p
}

/// `s` with every marker occurrence removed, scanning left to right.
pub open spec fn strip_spec(s: Seq<u8>) -> Seq<u8>
    decreases s.len(),
{
    if s.len() == 0 {
        s
    } else if begins_with(s, start_marker()) {
        strip_spec(s.skip(5))
    } else if begins_with(s, end_marker()) {
        strip_spec(s.skip(4))
    } else {
        seq![s[0]] + strip_spec(s.skip(1))
    }
}

/// No byte of `s` is the escape byte, so no marker can begin inside it.
pub open spec fn escape_free(s: Seq<u8>) -> bool {
    forall|i: int| 0 <= i < s.len() ==> s[i] != ESCAPE
}

/// Stripping leaves an escape-free sequence unchanged.
pub proof fn lemma_strip_clean(s: Seq<u8>)
    requires
        escape_free(s),
    ensures
        strip_spec(s) == s,
    decreases s.len(),
{
    if s.len() == 0 {
    } else {
        assert(!begins_with(s, start_marker())) by {
            if begins_with(s, start_marker()) {
                assert(s.take(5)[0] == s[0]);
                assert(s[0] == 27u8);
            }
        }
        assert(!begins_with(s, end_marker())) by {
            if begins_with(s, end_marker()) {
                assert(s.take(4)[0] == s[0]);
                assert(s[0] == 27u8);
            }
        }
        assert(escape_free(s.skip(1))) by {
            assert(forall|i: int| 0 <= i < s.skip(1).len() ==> s.skip(1)[i] == s[i + 1]);
        }
        lemma_strip_clean(s.skip(1));
        assert(strip_spec(s) == seq![s[0]] + s.skip(1));
        assert(seq![s[0]] + s.skip(1) =~= s);
    }
}

/// Stripping passes over an escape-free prefix.
pub proof fn lemma_strip_prepend(a: Seq<u8>, b: Seq<u8>)
    requires
        escape_free(a),
    ensures
        strip_spec(a + b) == a + strip_spec(b),
    decreases a.len(),
{
    if a.len() == 0 {
        assert(a + b =~= b);
        assert(a + strip_spec(b) =~= strip_spec(b));
    } else {
        let s = a + b;
        assert(s[0] == a[0]);
        assert(!begins_with(s, start_marker())) by {
            if begins_with(s, start_marker()) {
                assert(s.take(5)[0] == s[0]);
            }
        }
        assert(!begins_with(s, end_marker())) by {
            if begins_with(s, end_marker()) {
                assert(s.take(4)[0] == s[0]);
            }
        }
        assert(escape_free(a.skip(1))) by {
            assert(forall|i: int| 0 <= i < a.skip(1).len() ==> a.skip(1)[i] == a[i + 1]);
        }
        assert(s.skip(1) =~= a.skip(1) + b);
        lemma_strip_prepend(a.skip(1), b);
        assert(strip_spec(s) == seq![s[0]] + (a.skip(1) + strip_spec(b)));
        assert(seq![s[0]] + (a.skip(1) + strip_spec(b)) =~= a + strip_spec(b));
    }
}

/// Stripping removes a start marker at the front.
pub proof fn lemma_strip_start(b: Seq<u8>)
    ensures
        strip_spec(start_marker() + b) == strip_spec(b),
{
    let s = start_marker() + b;
    assert(s.take(5) =~= start_marker());
    assert(begins_with(s, start_marker()));
    assert(s.skip(5) =~= b);
}

/// Stripping removes an end marker at the front.
pub proof fn lemma_strip_end(b: Seq<u8>)
    ensures
        strip_spec(end_marker() + b) == strip_spec(b),
{
    let s = end_marker() + b;
    assert(!begins_with(s, start_marker())) by {
        if begins_with(s, start_marker()) {
            assert(s.take(5)[2] == s[2]);
            assert(s[2] == 48u8);
            assert(start_marker()[2] == 51u8);
        }
    }
    assert(s.take(4) =~= end_marker());
    assert(begins_with(s, end_marker()));
    assert(s.skip(4) =~= b);
}

proof fn lemma_roundtrip_from(line: Seq<u8>, spans: Seq<(int, int)>, from: int)
    requires
        escape_free(line),
        spans_wf(spans, line.len() as int),
        0 <= from <= line.len(),
        spans.len() > 0 ==> from <= spans[0].0,
    ensures
        strip_spec(highlight_from(line, spans, from)) == line.skip(from),
    decreases spans.len(),
{
    if spans.len() == 0 {
        assert(escape_free(line.skip(from))) by {
            assert(forall|i: int| 0 <= i < line.skip(from).len()
                ==> line.skip(from)[i] == line[i + from]);
        }
        lemma_strip_clean(line.skip(from));
    } else {
        let s0 = spans[0].0;
        let e0 = spans[0].1;
        let gap = line.subrange(from, s0);
        let mid = line.subrange(s0, e0);
        let tail = spans.drop_first();
        let rest = highlight_from(line, tail, e0);
        assert(spans_wf(tail, line.len() as int)) by {
            assert(forall|i: int| 0 <= i < tail.len() ==> tail[i] == spans[i + 1]);
        }
        assert(tail.len() > 0 ==> e0 <= tail[0].0) by {
            if tail.len() > 0 {
                assert(tail[0] == spans[1]);
                assert(spans[0].1 <= spans[0int + 1].0);
            }
        }
        lemma_roundtrip_from(line, tail, e0);
        assert(highlight_from(line, spans, from) =~= gap + (start_marker() + (mid + (end_marker()
            + rest))));
        assert(escape_free(gap)) by {
            assert(forall|i: int| 0 <= i < gap.len() ==> gap[i] == line[i + from]);
        }
        assert(escape_free(mid)) by {
            assert(forall|i: int| 0 <= i < mid.len() ==> mid[i] == line[i + s0]);
        }
        lemma_strip_prepend(gap, start_marker() + (mid + (end_marker() + rest)));
        lemma_strip_start(mid + (end_marker() + rest));
        lemma_strip_prepend(mid, end_marker() + rest);
        lemma_strip_end(rest);
        assert(strip_spec(highlight_from(line, spans, from)) == gap + (mid + line.skip(e0)));
        assert(gap + (mid + line.skip(e0)) =~= line.skip(from));
    }
}

/// Highlighter round trip: for well-formed spans over an escape-free line,
/// stripping the markers from the rendering reproduces the line exactly.
pub proof fn lemma_highlight_roundtrip(line: Seq<u8>, spans: Seq<(int, int)>)
    requires
        escape_free(line),
        spans_wf(spans, line.len() as int),
    ensures
        strip_spec(highlight_spec(line, spans)) == line,
{
    lemma_roundtrip_from(line, spans, 0);
    assert(line.skip(0) =~= line);
}

/// Appends the start marker to `out`.
fn push_start_marker(out: &mut Vec<u8>)
    ensures
        final(out)@ == old(out)@ + start_marker(),
{
    out.push(27);
    out.push(91);
    out.push(51);
    out.push(49);
    out.push(109);
    proof {
        assert(out@ =~= old(out)@ + start_marker());
    }
}

/// Appends the end marker to `out`.
fn push_end_marker(out: &mut Vec<u8>)
    ensures
        final(out)@ == old(out)@ + end_marker(),
{
    out.push(27);
    out.push(91);
    out.push(48);
    out.push(109);
    proof {
        assert(out@ =~= old(out)@ + end_marker());
    }
}

/// Renders a line with each span's bytes wrapped in the marker pair and all
/// other bytes passed through unchanged.
pub fn highlight(line: &Vec<u8>, spans: &Vec<MatchSpan>) -> (r: Vec<u8>)
    requires
        spans_wf(span_seq(spans@), line@.len() as int),
    ensures
        r@ == highlight_spec(line@, span_seq(spans@)),
{
    let ghost ss = span_seq(spans@);
    let n = spans.len();
    let mut out: Vec<u8> = Vec::new();
    let mut last: usize = 0;
    let mut i: usize = 0;
    proof {
        assert(ss.skip(0) =~= ss);
        assert(out@ + highlight_from(line@, ss.skip(0), 0) =~= highlight_spec(line@, ss));
    }
    while i < n
        invariant
            i <= n,
            n == spans@.len(),
            ss == span_seq(spans@),
            spans_wf(ss, line@.len() as int),
            last as int == if i == 0 { 0int } else { ss[i - 1].1 },
            last <= line@.len(),
            highlight_spec(line@, ss) == out@ + highlight_from(line@, ss.skip(i as int), last as int),
        decreases n - i,
    {
        let ghost tail = ss.skip(i as int);
        let s = spans[i];
        proof {
            assert(tail[0] == ss[i as int]);
            assert(ss[i as int] == (s.start as int, s.end as int));
            assert(tail.drop_first() =~= ss.skip(i + 1));
            if i > 0 {
                assert(ss[i - 1].1 <= ss[i as int].0);
            }
        }
        push_range(&mut out, line, last, s.start);
        push_start_marker(&mut out);
        push_range(&mut out, line, s.start, s.end);
        push_end_marker(&mut out);
        proof {
            assert(highlight_from(line@, tail, last as int) == line@.subrange(
                last as int,
                s.start as int,
            ) + start_marker() + line@.subrange(s.start as int, s.end as int) + end_marker()
                + highlight_from(line@, ss.skip(i + 1), s.end as int));
        }
        last = s.end;
        i += 1;
    }
    push_range(&mut out, line, last, line.len());
    proof {
        assert(ss.skip(n as int).len() == 0);
        assert(highlight_from(line@, ss.skip(n as int), last as int) == line@.skip(last as int));
        assert(line@.subrange(last as int, line@.len() as int) =~= line@.skip(last as int));
    }
    out
}

/// Removes every marker occurrence from a rendered line, scanning left to
/// right.
pub fn strip_markers(s: &Vec<u8>) -> (r: Vec<u8>)
    ensures
        r@ == strip_spec(s@),
{
    let n = s.len();
    let mut out: Vec<u8> = Vec::new();
    let mut i: usize = 0;
    proof {
        assert(s@.skip(0) =~= s@);
        assert(out@ + strip_spec(s@.skip(0)) =~= strip_spec(s@));
    }
    while i < n
        invariant
            i <= n,
            n == s@.len(),
            strip_spec(s@) == out@ + strip_spec(s@.skip(i as int)),
        decreases n - i,
    {
        let ghost tail = s@.skip(i as int);
        proof {
            assert(forall|k: int| 0 <= k < tail.len() ==> tail[k] == s@[i + k]);
        }
        if n - i >= 5 && s[i] == 27 && s[i + 1] == 91 && s[i + 2] == 51 && s[i + 3] == 49
            && s[i + 4] == 109 {
            proof {
                assert(tail.take(5) =~= start_marker());
                assert(begins_with(tail, start_marker()));
                assert(tail.skip(5) =~= s@.skip(i + 5));
            }
            i += 5;
        } else if n - i >= 4 && s[i] == 27 && s[i + 1] == 91 && s[i + 2] == 48 && s[i + 3] == 109 {
            proof {
                assert(!begins_with(tail, start_marker())) by {
                    if begins_with(tail, start_marker()) {
                        assert(tail.take(5)[2] == tail[2]);
                    }
                }
                assert(tail.take(4) =~= end_marker());
                assert(begins_with(tail, end_marker()));
                assert(tail.skip(4) =~= s@.skip(i + 4));
            }
            i += 4;
        } else {
            proof {
                assert(!begins_with(tail, start_marker())) by {
                    if begins_with(tail, start_marker()) {
                        assert(tail.take(5)[0] == tail[0]);
                        assert(tail.take(5)[1] == tail[1]);
                        assert(tail.take(5)[2] == tail[2]);
                        assert(tail.take(5)[3] == tail[3]);
                        assert(tail.take(5)[4] == tail[4]);
                    }
                }
                assert(!begins_with(tail, end_marker())) by {
                    if begins_with(tail, end_marker()) {
                        assert(tail.take(4)[0] == tail[0]);
                        assert(tail.take(4)[1] == tail[1]);
                        assert(tail.take(4)[2] == tail[2]);
                        assert(tail.take(4)[3] == tail[3]);
                    }
                }
                assert(strip_spec(tail) == seq![tail[0]] + strip_spec(tail.skip(1)));
                assert(tail.skip(1) =~= s@.skip(i + 1));
                assert(out@.push(s@[i as int]) + strip_spec(s@.skip(i + 1)) =~= out@ + strip_spec(
                    tail,
                ));
            }
            out.push(s[i]);
            i += 1;
        }
    }
    proof {
        assert(s@.skip(n as int).len() == 0);
        assert(out@ + strip_spec(s@.skip(n as int)) =~= out@);
    }
    out
}

} // verus!
