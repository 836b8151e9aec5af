use vstd::prelude::*;

verus! {

/// Line feed, the byte that ends a line.
pub const NEWLINE: u8 = 10;

/// Carriage return, stripped when it immediately precedes a line feed.
pub const CARRIAGE_RETURN: u8 = 13;

/// Index of the first line feed in `c`, or `c.len()` when there is none.
pub open spec fn first_nl(c: Seq<u8>) -> int
    decreases c.len(),
{
    if c.len() == 0 {
        0
    } else if c[0] == NEWLINE {
        0
    } else {
        1 + first_nl(c.drop_first())
    }
}

pub proof fn lemma_first_nl(c: Seq<u8>)
    ensures
        0 <= first_nl(c) <= c.len(),
        forall|j: int| 0 <= j < first_nl(c) ==> c[j] != NEWLINE,
        first_nl(c) < c.len() ==> c[first_nl(c)] == NEWLINE,
    decreases c.len(),
{
    if c.len() == 0 {
    } else if c[0] == NEWLINE {
    } else {
        lemma_first_nl(c.drop_first());
        assert forall|j: int| 0 <= j < first_nl(c) implies c[j] != NEWLINE by {
            if j > 0 {
                assert(c.drop_first()[j - 1] == c[j]);
            }
        }
        if first_nl(c) < c.len() {
            assert(c.drop_first()[first_nl(c) - 1] == c[first_nl(c)]);
        }
    }
}

/// The first line feed stands exactly where a scan that saw none before `m`
/// stopped.
pub proof fn lemma_first_nl_is(c: Seq<u8>, m: int)
    requires
        0 <= m <= c.len(),
        forall|k: int| 0 <= k < m ==> c[k] != NEWLINE,
        m < c.len() ==> c[m] == NEWLINE,
    ensures
        first_nl(c) == m,
    decreases c.len(),
{
    if c.len() == 0 {
    } else if c[0] == NEWLINE {
        assert(m == 0);
    } else {
        assert(m > 0) by {
            if m == 0 {
                assert(c[0] == NEWLINE);
            }
        }
        assert forall|k: int| 0 <= k < m - 1 implies c.drop_first()[k] != NEWLINE by {
            assert(c.drop_first()[k] == c[k + 1]);
        }
        if m - 1 < c.drop_first().len() {
            assert(c.drop_first()[m - 1] == c[m]);
        }
        lemma_first_nl_is(c.drop_first(), m - 1);
    }
}

/// Drops one trailing carriage return, if any.
pub open spec fn strip_cr(s: Seq<u8>) -> Seq<u8> {
    if s.len() > 0 && s[s.len() - 1] == CARRIAGE_RETURN {
        s.drop_last()
    } else {
        s
    }
}

/// The lines of `c`: split at each line feed, which is dropped together with
/// a carriage return just before it; a final segment without a line feed is
/// still a line, and content ending in a line feed yields no extra empty
/// line.
pub open spec fn split_lines_spec(c: Seq<u8>) -> Seq<Seq<u8>>
    decreases c.len(),
    via split_lines_spec_decreases
{
    if c.len() == 0 {
        Seq::empty()
    } else {
        let i = first_nl(c);
        if i == c.len() {
            seq![c]
        } else {
            seq![strip_cr(c.take(i))] + split_lines_spec(c.skip(i + 1))
        }
    }
}

#[via_fn]
proof fn split_lines_spec_decreases(c: Seq<u8>) {
    lemma_first_nl(c);
}

/// The views of a vector of byte lines.
pub open spec fn lines_view(v: Seq<Vec<u8>>) -> Seq<Seq<u8>> {
    v.map(|i: int, x: Vec<u8>| x@)
}

/// Appends `src[from..to]` to `out`.
pub fn push_range(out: &mut Vec<u8>, src: &Vec<u8>, from: usize, to: usize)
    requires
        from <= to <= src.len(),
    ensures
        final(out)@ == old(out)@ + src@.subrange(from as int, to as int),
{
    let mut k: usize = from;
    while k < to
        invariant
            from <= k <= to <= src.len(),
            out@ == old(out)@ + src@.subrange(from as int, k as int),
        decreases to - k,
    {
        out.push(src[k]);
        proof {
            assert(src@.subrange(from as int, k + 1 as int)
                == src@.subrange(from as int, k as int).push(src@[k as int]));
        }
        k += 1;
    }
    proof {
        if from == to {
            assert(out@ == old(out)@ + src@.subrange(from as int, to as int));
        }
    }
}

/// Splits file content into its lines.
pub fn split_lines(content: &Vec<u8>) -> (r: Vec<Vec<u8>>)
    ensures
        lines_view(r@) == split_lines_spec(content@),
{
    let n = content.len();
    let mut r: Vec<Vec<u8>> = Vec::new();
    let mut start: usize = 0;
    proof {
        assert(lines_view(r@) =~= Seq::<Seq<u8>>::empty());
        assert(content@.skip(0) =~= content@);
        assert(lines_view(r@) + split_lines_spec(content@.skip(0)) =~= split_lines_spec(
            content@,
        ));
    }
    while start < n
        invariant
            start <= n,
            n == content@.len(),
            split_lines_spec(content@) == lines_view(r@) + split_lines_spec(
                content@.skip(start as int),
            ),
        decreases n - start,
    {
        let ghost rest = content@.skip(start as int);
        let mut j: usize = start;
        while j < n && content[j] != NEWLINE
            invariant
                start <= j <= n,
                n == content@.len(),
                forall|k: int| start <= k < j ==> content@[k] != NEWLINE,
            decreases n - j,
        {
            j += 1;
        }
        proof {
            assert forall|k: int| 0 <= k < j - start implies rest[k] != NEWLINE by {
                assert(rest[k] == content@[start + k]);
            }
            if j < n {
                assert(rest[j - start] == content@[j as int]);
            }
            lemma_first_nl_is(rest, j - start);
        }
        let mut line: Vec<u8> = Vec::new();
        if j < n {
            // the segment ends with a line feed: drop one carriage return
            // just before it
            let line_end: usize = if j > start && content[j - 1] == CARRIAGE_RETURN {
                j - 1
            } else {
                j
            };
            push_range(&mut line, content, start, line_end);
            proof {
                assert(rest.take(j - start) =~= content@.subrange(start as int, j as int));
                assert(line@ =~= strip_cr(rest.take(j - start)));
                assert(rest.skip(j - start + 1) =~= content@.skip(j + 1 as int));
                assert(split_lines_spec(rest) == seq![line@] + split_lines_spec(
                    content@.skip(j + 1 as int),
                ));
                assert(lines_view(r@.push(line)) =~= lines_view(r@) + seq![line@]);
            }
            r.push(line);
            proof {
                assert(split_lines_spec(content@) == lines_view(r@) + split_lines_spec(
                    content@.skip(j + 1 as int),
                ));
            }
            start = j + 1;
        } else {
            push_range(&mut line, content, start, n);
            proof {
                assert(line@ =~= rest);
                assert(first_nl(rest) == rest.len());
                assert(split_lines_spec(rest) == seq![line@]);
                assert(lines_view(r@.push(line)) =~= lines_view(r@) + seq![line@]);
                assert(content@.skip(n as int).len() == 0);
            }
            r.push(line);
            proof {
                assert(lines_view(r@) + split_lines_spec(content@.skip(n as int)) =~= lines_view(
                    r@,
                ));
                assert(split_lines_spec(content@) == lines_view(r@));
            }
            start = n;
        }
    }
    proof {
        assert(content@.skip(start as int).len() == 0);
        assert(lines_view(r@) + split_lines_spec(content@.skip(start as int)) =~= lines_view(r@));
    }
    r
}

} // verus!
