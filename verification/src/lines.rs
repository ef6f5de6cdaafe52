//! Splitting a document into lines and joining lines back into a document.
use vstd::prelude::*;
use vstd::string::*;

verus! {

/// Index of the first line break at or after `i` (or the end of `s`).
pub open spec fn line_break_end(s: Seq<char>, i: int) -> int
    decreases s.len() - i,
{
    if i < 0 || i >= s.len() || s[i] == '\n' {
        i
    } else {
        line_break_end(s, i + 1)
    }
}

pub proof fn lemma_line_break_end(s: Seq<char>, i: int)
    requires
        0 <= i <= s.len(),
    ensures
        i <= line_break_end(s, i) <= s.len(),
        line_break_end(s, i) < s.len() ==> s[line_break_end(s, i)] == '\n',
        forall|k: int| i <= k < line_break_end(s, i) ==> #[trigger] s[k] != '\n',
    decreases s.len() - i,
{
    if i < s.len() && s[i] != '\n' {
        lemma_line_break_end(s, i + 1);
    }
}

proof fn lemma_line_break_end_skip(s: Seq<char>, p: int)
    requires
        0 <= p <= s.len(),
    ensures
        line_break_end(s.skip(p), 0) == line_break_end(s, p) - p,
    decreases s.len() - p,
{
    lemma_line_break_end_skip_from(s, p, 0);
}

proof fn lemma_line_break_end_skip_from(s: Seq<char>, p: int, j: int)
    requires
        0 <= p <= s.len(),
        0 <= j <= s.len() - p,
    ensures
        line_break_end(s.skip(p), j) == line_break_end(s, p + j) - p,
    decreases s.len() - p - j,
{
    let t = s.skip(p);
    if j < t.len() && t[j] != '\n' {
        lemma_line_break_end_skip_from(s, p, j + 1);
    }
}

/// A line segment with one trailing carriage return removed.
pub open spec fn strip_cr(s: Seq<char>) -> Seq<char> {
    if s.len() > 0 && s[s.len() - 1] == '\r' {
        s.drop_last()
    } else {
        s
    }
}

/// The lines of a document, in order. Each line break ends a line; a
/// carriage return immediately before a line break is dropped; the final
/// line needs no terminator, and an empty document has no lines.
pub open spec fn spec_lines(s: Seq<char>) -> Seq<Seq<char>>
    decreases s.len(),
    via spec_lines_decreases
{
    if s.len() == 0 {
        seq![]
    } else {
        let e = line_break_end(s, 0);
        if e == s.len() {
            seq![s]
        } else {
            seq![strip_cr(s.take(e))] + spec_lines(s.skip(e + 1))
        }
    }
}

#[via_fn]
proof fn spec_lines_decreases(s: Seq<char>) {
    if s.len() != 0 {
        lemma_line_break_end(s, 0);
    }
}

/// Unfolds `spec_lines` at an arbitrary suffix of the document.
pub proof fn lemma_lines_unfold(s: Seq<char>, p: int)
    requires
        0 <= p < s.len(),
    ensures
        line_break_end(s, p) == s.len() ==> spec_lines(s.skip(p)) == seq![s.skip(p)],
        line_break_end(s, p) < s.len() ==> spec_lines(s.skip(p)) == seq![
            strip_cr(s.subrange(p, line_break_end(s, p))),
        ] + spec_lines(s.skip(line_break_end(s, p) + 1)),
{
    let t = s.skip(p);
    let e = line_break_end(s, p);
    lemma_line_break_end(s, p);
    lemma_line_break_end_skip(s, p);
    assert(t.len() == s.len() - p);
    assert(line_break_end(t, 0) == e - p);
    if e == s.len() {
        assert(spec_lines(t) == seq![t]);
    } else {
        assert(t.take(e - p) =~= s.subrange(p, e));
        assert(t.skip(e - p + 1) =~= s.skip(e + 1));
        assert(spec_lines(t) == seq![strip_cr(t.take(e - p))] + spec_lines(t.skip(e - p + 1)));
    }
}

/// The views of a vector of owned lines.
pub open spec fn line_views(v: Seq<String>) -> Seq<Seq<char>> {
    v.map_values(|l: String| l@)
}

/// Splits a document into its lines.
pub fn split_lines(s: &str) -> (r: Vec<String>)
    ensures
        line_views(r@) == spec_lines(s@),
        forall|i: int| 0 <= i < r@.len() ==> (#[trigger] r@[i])@.len() <= s@.len(),
{
    let n = s.unicode_len();
    let mut out: Vec<String> = Vec::new();
    let mut pos: usize = 0;
    proof {
        assert(s@.skip(0) =~= s@);
        assert(line_views(out@) =~= Seq::<Seq<char>>::empty());
        assert(line_views(out@) + spec_lines(s@) =~= spec_lines(s@));
    }
    while pos < n
        invariant
            pos <= n,
            spec_lines(s@) == line_views(out@) + spec_lines(s@.skip(pos as int)),
            forall|i: int| 0 <= i < out@.len() ==> (#[trigger] out@[i])@.len() <= s@.len(),
        decreases n - pos,
    {
        let ghost prev_views = line_views(out@);
        let mut j = pos;
        while j < n && s.get_char(j) != '\n'
            invariant
                pos <= j <= n,
                line_break_end(s@, pos as int) == line_break_end(s@, j as int),
            decreases n - j,
        {
            j = j + 1;
        }
        proof {
            lemma_line_break_end(s@, pos as int);
            lemma_lines_unfold(s@, pos as int);
        }
        let e = if j < n && j > pos && s.get_char(j - 1) == '\r' {
            j - 1
        } else {
            j
        };
        let sub = s.substring_char(pos, e);
        out.push(String::from_str(sub));
        proof {
            assert(line_views(out@) =~= prev_views + seq![s@.subrange(pos as int, e as int)]);
        }
        if j < n {
            proof {
                assert(strip_cr(s@.subrange(pos as int, j as int)) =~= s@.subrange(
                    pos as int,
                    e as int,
                ));
                assert(spec_lines(s@.skip(pos as int)) == seq![
                    s@.subrange(pos as int, e as int),
                ] + spec_lines(s@.skip(j + 1 as int)));
                assert(spec_lines(s@) =~~= line_views(out@) + spec_lines(s@.skip(j + 1 as int)));
            }
            pos = j + 1;
        } else {
            proof {
                assert(s@.skip(pos as int) =~= s@.subrange(pos as int, e as int));
                assert(spec_lines(s@.skip(pos as int)) == seq![s@.subrange(pos as int, e as int)]);
                assert(s@.skip(n as int) =~= Seq::<char>::empty());
                assert(spec_lines(s@) =~~= line_views(out@) + spec_lines(s@.skip(n as int)));
            }
            pos = n;
        }
    }
    proof {
        assert(s@.skip(n as int) =~= Seq::<char>::empty());
        assert(spec_lines(s@) =~~= line_views(out@));
    }
    out
}

/// The document formed by the given lines: each line followed by one line
/// separator.
pub open spec fn spec_unlines(ls: Seq<Seq<char>>) -> Seq<char>
    decreases ls.len(),
{
    if ls.len() == 0 {
        seq![]
    } else {
        ls[0] + seq!['\n'] + spec_unlines(ls.drop_first())
    }
}

/// Joining a single line yields that line and its separator.
pub proof fn lemma_unlines_singleton(l: Seq<char>)
    ensures
        spec_unlines(seq![l]) == l + seq!['\n'],
{
    assert(seq![l].drop_first() =~= Seq::<Seq<char>>::empty());
    assert(l + seq!['\n'] + spec_unlines(Seq::<Seq<char>>::empty()) =~= l + seq!['\n']);
}

/// A sequence of characters without a line break.
pub open spec fn break_free(l: Seq<char>) -> bool {
    forall|k: int| 0 <= k < l.len() ==> #[trigger] l[k] != '\n'
}

/// A line ending in a carriage return; re-splitting would strip it.
pub open spec fn cr_terminated(l: Seq<char>) -> bool {
    l.len() > 0 && l[l.len() - 1] == '\r'
}

/// A line that joining and re-splitting hands back as it is: it holds no
/// line break and does not end with a carriage return.
pub open spec fn joinable_line(l: Seq<char>) -> bool {
    break_free(l) && !cr_terminated(l)
}

/// Every line that splitting produces is free of line breaks.
pub proof fn lemma_lines_break_free(s: Seq<char>)
    ensures
        forall|i: int| 0 <= i < spec_lines(s).len() ==> break_free(#[trigger] spec_lines(s)[i]),
    decreases s.len(),
{
    if s.len() > 0 {
        let e = line_break_end(s, 0);
        lemma_line_break_end(s, 0);
        if e == s.len() {
            assert(break_free(s));
        } else {
            let rest = s.skip(e + 1);
            lemma_lines_break_free(rest);
            let first = strip_cr(s.take(e));
            assert(break_free(first)) by {
                assert(forall|k: int| 0 <= k < first.len() ==> first[k] == s[k]);
            }
            assert(forall|i: int|
                0 <= i < spec_lines(s).len() ==> break_free(#[trigger] spec_lines(s)[i])) by {
                assert(forall|i: int|
                    1 <= i < spec_lines(s).len() ==> spec_lines(s)[i] == spec_lines(rest)[i - 1]);
            }
        }
    }
}

proof fn lemma_break_end_through(p: Seq<char>, t: Seq<char>, j: int)
    requires
        0 <= j <= p.len(),
        break_free(p),
        t.len() > 0 && t[0] == '\n',
    ensures
        line_break_end(p + t, j) == p.len(),
    decreases p.len() - j,
{
    let m = p + t;
    if j < p.len() {
        assert(m[j] == p[j]);
        lemma_break_end_through(p, t, j + 1);
    } else {
        assert(m[j] == t[0]);
    }
}

/// Round trip: splitting the joined lines recovers them exactly, provided
/// every line holds no line break and none ends with a carriage return.
pub proof fn lemma_lines_unlines_round_trip(ls: Seq<Seq<char>>)
    requires
        forall|i: int| 0 <= i < ls.len() ==> joinable_line(#[trigger] ls[i]),
    ensures
        spec_lines(spec_unlines(ls)) == ls,
    decreases ls.len(),
{
    if ls.len() > 0 {
        let u = spec_unlines(ls);
        let l0 = ls[0];
        let rest = ls.drop_first();
        let tail = seq!['\n'] + spec_unlines(rest);
        assert(u =~= l0 + tail);
        lemma_break_end_through(l0, tail, 0);
        assert(line_break_end(u, 0) == l0.len());
        assert(u.take(l0.len() as int) =~= l0);
        assert(strip_cr(l0) == l0);
        assert(u.skip(l0.len() + 1 as int) =~= spec_unlines(rest));
        assert(forall|i: int| 0 <= i < rest.len() ==> joinable_line(#[trigger] rest[i])) by {
            assert(forall|i: int| 0 <= i < rest.len() ==> rest[i] == ls[i + 1]);
        }
        lemma_lines_unlines_round_trip(rest);
        assert(spec_lines(u) =~= seq![l0] + rest);
        assert(seq![l0] + rest =~= ls);
    }
}

/// Joining distributes over concatenation of line sequences.
pub proof fn lemma_unlines_concat(a: Seq<Seq<char>>, b: Seq<Seq<char>>)
    ensures
        spec_unlines(a + b) == spec_unlines(a) + spec_unlines(b),
    decreases a.len(),
{
    if a.len() == 0 {
        assert(a + b =~= b);
        assert(spec_unlines(a) + spec_unlines(b) =~= spec_unlines(b));
    } else {
        lemma_unlines_concat(a.drop_first(), b);
        assert((a + b).drop_first() =~= a.drop_first() + b);
        assert(spec_unlines(a + b) =~= spec_unlines(a) + spec_unlines(b));
    }
}

} // verus!
