use vstd::prelude::*;
use vstd::utf8::encode_utf8;
use vstd::slice::slice_to_vec;
use crate::scan::{MatchRecord, RecordModel};
use crate::span::{span_seq, spans_wf};
use crate::highlight::{highlight, highlight_spec};
use crate::lines::push_range;

verus! {

/// The decimal digits of `n`, most significant first.
pub open spec fn decimal_of(n: nat) -> Seq<u8>
    decreases n,
{
    if n < 10 {
        seq![(48 + n) as u8]
    } else {
        decimal_of(n / 10) + seq![(48 + n % 10) as u8]
    }
}

/// Writes `n` in decimal.
pub fn format_number(n: usize) -> (r: Vec<u8>)
    ensures
        r@ == decimal_of(n as nat),
    decreases n,
{
    if n < 10 {
        let mut v: Vec<u8> = Vec::new();
        let d: u8 = n as u8;
        v.push(48 + d);
        proof {
            assert(v@ =~= decimal_of(n as nat));
        }
        v
    } else {
        let mut v = format_number(n / 10);
        let d: u8 = (n % 10) as u8;
        v.push(48 + d);
        proof {
            assert(v@ =~= decimal_of(n as nat));
        }
        v
    }
}

/// The textual match line of a record: the path, a colon, the 1-based line
/// number in decimal, a colon and a space, then the line's text (raw or
/// rendered with markers).
pub open spec fn render_spec(rec: RecordModel, text: Seq<u8>) -> Seq<u8> {
    encode_utf8(rec.path) + seq![58u8] + decimal_of(rec.line_number as nat) + seq![58u8, 32u8]
        + text
}

/// Renders one record as its textual match line, with the matched spans
/// wrapped in markers when asked for.
pub fn render_record(rec: &MatchRecord, with_highlight: bool) -> (r: Vec<u8>)
    requires
        with_highlight ==> spans_wf(span_seq(rec.spans@), rec.line_text@.len() as int),
    ensures
        r@ == render_spec(
            rec@,
            if with_highlight {
                highlight_spec(rec@.line_text, rec@.spans)
            } else {
                rec@.line_text
            },
        ),
{
    let mut out: Vec<u8> = slice_to_vec(rec.path.as_str().as_bytes());
    out.push(58);
    let mut num = format_number(rec.line_number);
    out.append(&mut num);
    out.push(58);
    out.push(32);
    let ghost head = encode_utf8(rec@.path) + seq![58u8] + decimal_of(rec@.line_number as nat)
        + seq![58u8, 32u8];
    proof {
        assert(out@ =~= head);
    }
    if with_highlight {
        let mut marked = highlight(&rec.line_text, &rec.spans);
        out.append(&mut marked);
        proof {
            assert(out@ =~= render_spec(rec@, highlight_spec(rec@.line_text, rec@.spans)));
        }
    } else {
        push_range(&mut out, &rec.line_text, 0, rec.line_text.len());
        proof {
            assert(rec.line_text@.subrange(0, rec.line_text@.len() as int) =~= rec.line_text@);
            assert(out@ =~= render_spec(rec@, rec@.line_text));
        }
    }
    out
}

} // verus!
