use vstd::prelude::*;
use crate::span::{MatchSpan, span_seq, spans_wf};

verus! {

#[verifier::external_type_specification]
#[verifier::external_body]
pub struct ExRegex(regex::Regex);

/// Whether `pattern`, read as a regular expression, compiles.
pub uninterp spec fn compiles(pattern: Seq<char>) -> bool;

/// Whether the regular expression `pattern` matches anywhere in `haystack`.
pub uninterp spec fn matches_of(pattern: Seq<char>, haystack: Seq<char>) -> bool;

/// The successive non-overlapping matches of the regular expression `pattern`
/// in the UTF-8 line `line`, left to right, as half-open byte-offset pairs.
pub uninterp spec fn find_spans_of(pattern: Seq<char>, line: Seq<u8>) -> Seq<(int, int)>;

/// Whether `bytes` is valid UTF-8.
pub uninterp spec fn is_utf8(bytes: Seq<u8>) -> bool;

/// Relies on regex::Regex::new: compiling the same pattern text succeeds or
/// fails deterministically; `compiles` names its success.
#[verifier::external_body]
fn compile(text: &str) -> (r: Option<regex::Regex>)
    ensures
        r is Some <==> compiles(text@),
{
    regex::Regex::new(text).ok()
}

/// A compiled regular expression together with the pattern text it was
/// compiled from. The view of a `Pattern` is that pattern text.
pub struct Pattern {
    source: String,
    re: regex::Regex,
}

impl View for Pattern {
    type V = Seq<char>;

    closed spec fn view(&self) -> Seq<char> {
        self.source@
    }
}

impl Pattern {
    /// Compiles a pattern; returns `None` exactly when the text is not a
    /// valid regular expression.
    pub fn new(text: &str) -> (r: Option<Pattern>)
        ensures
            r is Some <==> compiles(text@),
            r is Some ==> r.unwrap()@ == text@,
    {
        match compile(text) {
            Some(re) => Some(Pattern { source: String::from_str(text), re }),
            None => None,
        }
    }

    /// Relies on regex::Regex::is_match: true iff the pattern matches
    /// anywhere in the haystack; the result depends only on the pattern text
    /// and the haystack.
    #[verifier::external_body]
    pub(crate) fn is_match(&self, haystack: &str) -> (r: bool)
        ensures
            r == matches_of(self@, haystack@),
    {
        self.re.is_match(haystack)
    }

    /// Relies on regex::Regex::find_iter: yields the successive
    /// non-overlapping matches in the line, left to right, as byte offsets
    /// into it, determined by the pattern text and the line; and on
    /// str::from_utf8, which converts the byte line for the search and fails
    /// exactly on invalid UTF-8.
    #[verifier::external_body]
    pub(crate) fn find_spans(&self, line: &[u8]) -> (r: Option<Vec<MatchSpan>>)
        ensures
            r is Some <==> is_utf8(line@),
            r is Some ==> span_seq(r.unwrap()@) == find_spans_of(self@, line@),
            r is Some ==> spans_wf(find_spans_of(self@, line@), line@.len() as int),
    {
        match core::str::from_utf8(line) {
            Ok(s) => Some(
                self.re.find_iter(s).map(|m| MatchSpan { start: m.start(), end: m.end() }).collect(),
            ),
            Err(_) => None,
        }
    }
}

} // verus!
