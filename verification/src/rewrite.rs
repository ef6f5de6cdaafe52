//! Rewriting: re-emits every original line, inserting one indented marker
//! line immediately before each recorded block.
use crate::collect::{blocks_wf, HiddenBlock};
use crate::lines::{lemma_unlines_concat, lemma_unlines_singleton, line_views, spec_unlines};
use vstd::prelude::*;
use vstd::string::*;

verus! {

/// A run of `n` space characters.
pub open spec fn spaces(n: nat) -> Seq<char> {
    Seq::new(n, |i: int| ' ')
}

/// The inserted marker line for a block: the block's indentation as spaces,
/// then the marker text.
pub open spec fn marker_line(indent: usize, snip: Seq<char>) -> Seq<char> {
    spaces(indent as nat) + snip
}

/// The rewritten tail of the document: the lines from `from` on, with the
/// pending `blocks`, each preceded by its marker line.
pub open spec fn spec_rewrite(
    lines: Seq<Seq<char>>,
    blocks: Seq<HiddenBlock>,
    snip: Seq<char>,
    from: int,
) -> Seq<Seq<char>>
    decreases blocks.len(),
{
    if blocks.len() == 0 {
        lines.subrange(from, lines.len() as int)
    } else {
        lines.subrange(from, blocks[0].start_line_index as int) + seq![
            marker_line(blocks[0].indentation_width, snip),
        ] + spec_rewrite(lines, blocks.drop_first(), snip, blocks[0].start_line_index as int)
    }
}

/// The rewriter's walk state is well formed: the cursor is inside the
/// document and no pending block starts before it.
pub open spec fn rewrite_wf(
    lines: Seq<Seq<char>>,
    blocks: Seq<HiddenBlock>,
    from: int,
) -> bool {
    &&& 0 <= from <= lines.len()
    &&& blocks_wf(blocks, lines.len() as int)
    &&& blocks.len() > 0 ==> from <= blocks[0].start_line_index
}

/// A line at the cursor that opens no pending block is emitted unchanged.
pub proof fn lemma_rewrite_line_step(
    lines: Seq<Seq<char>>,
    blocks: Seq<HiddenBlock>,
    snip: Seq<char>,
    from: int,
)
    requires
        rewrite_wf(lines, blocks, from),
        from < lines.len(),
        blocks.len() > 0 ==> from < blocks[0].start_line_index,
    ensures
        spec_rewrite(lines, blocks, snip, from) == seq![lines[from]] + spec_rewrite(
            lines,
            blocks,
            snip,
            from + 1,
        ),
{
    if blocks.len() == 0 {
        assert(lines.subrange(from, lines.len() as int) =~= seq![lines[from]] + lines.subrange(
            from + 1,
            lines.len() as int,
        ));
    } else {
        let s0 = blocks[0].start_line_index as int;
        assert(lines.subrange(from, s0) =~= seq![lines[from]] + lines.subrange(from + 1, s0));
        assert(spec_rewrite(lines, blocks, snip, from) =~~= seq![lines[from]] + spec_rewrite(
            lines,
            blocks,
            snip,
            from + 1,
        ));
    }
}

/// At a pending block's start line, the marker line is emitted first.
pub proof fn lemma_rewrite_marker_step(
    lines: Seq<Seq<char>>,
    blocks: Seq<HiddenBlock>,
    snip: Seq<char>,
    from: int,
)
    requires
        rewrite_wf(lines, blocks, from),
        blocks.len() > 0,
        blocks[0].start_line_index == from,
    ensures
        spec_rewrite(lines, blocks, snip, from) == seq![
            marker_line(blocks[0].indentation_width, snip),
        ] + spec_rewrite(lines, blocks.drop_first(), snip, from),
{
    assert(lines.subrange(from, from) =~= Seq::<Seq<char>>::empty());
    assert(spec_rewrite(lines, blocks, snip, from) =~~= seq![
        marker_line(blocks[0].indentation_width, snip),
    ] + spec_rewrite(lines, blocks.drop_first(), snip, from));
}

/// The rewritten document has exactly one inserted line per recorded block.
pub proof fn lemma_rewrite_len(
    lines: Seq<Seq<char>>,
    blocks: Seq<HiddenBlock>,
    snip: Seq<char>,
    from: int,
)
    requires
        rewrite_wf(lines, blocks, from),
    ensures
        spec_rewrite(lines, blocks, snip, from).len() == lines.len() - from + blocks.len(),
    decreases blocks.len(),
{
    if blocks.len() > 0 {
        let rest = blocks.drop_first();
        let s0 = blocks[0].start_line_index as int;
        assert(forall|i: int| 0 <= i < rest.len() ==> rest[i] == blocks[i + 1]);
        lemma_rewrite_len(lines, rest, snip, s0);
    }
}

/// Every line of the rewritten document is an original line or one of the
/// inserted marker lines.
pub proof fn lemma_rewrite_elements(
    lines: Seq<Seq<char>>,
    blocks: Seq<HiddenBlock>,
    snip: Seq<char>,
    from: int,
    j: int,
)
    requires
        rewrite_wf(lines, blocks, from),
        0 <= j < spec_rewrite(lines, blocks, snip, from).len(),
    ensures
        (exists|i: int|
            0 <= i < lines.len() && spec_rewrite(lines, blocks, snip, from)[j] == lines[i])
            || (exists|k: int|
            0 <= k < blocks.len() && spec_rewrite(lines, blocks, snip, from)[j] == marker_line(
                blocks[k].indentation_width,
                snip,
            )),
    decreases blocks.len(),
{
    let rw = spec_rewrite(lines, blocks, snip, from);
    lemma_rewrite_len(lines, blocks, snip, from);
    if blocks.len() == 0 {
        assert(rw[j] == lines[from + j]);
    } else {
        let s0 = blocks[0].start_line_index as int;
        let rest = blocks.drop_first();
        let first = lines.subrange(from, s0);
        let mid = seq![marker_line(blocks[0].indentation_width, snip)];
        let rest_rw = spec_rewrite(lines, rest, snip, s0);
        assert(forall|k: int| 0 <= k < rest.len() ==> rest[k] == blocks[k + 1]);
        if j < first.len() {
            assert(rw[j] == lines[from + j]);
        } else if j == first.len() {
            assert(rw[j] == marker_line(blocks[0].indentation_width, snip));
        } else {
            lemma_rewrite_len(lines, rest, snip, s0);
            assert(rw[j] == rest_rw[j - first.len() - 1]);
            lemma_rewrite_elements(lines, rest, snip, s0, j - first.len() - 1);
            if exists|k: int|
                0 <= k < rest.len() && rest_rw[j - first.len() - 1] == marker_line(
                    rest[k].indentation_width,
                    snip,
                ) {
                let k = choose|k: int|
                    0 <= k < rest.len() && rest_rw[j - first.len() - 1] == marker_line(
                        rest[k].indentation_width,
                        snip,
                    );
                assert(0 <= k + 1 < blocks.len() && rw[j] == marker_line(
                    blocks[k + 1].indentation_width,
                    snip,
                ));
            }
        }
    }
}

/// The marker of the `k`-th recorded block stands immediately before that
/// block's first line: at the block's start index shifted by the `k`
/// markers already inserted above it.
pub proof fn lemma_marker_position(
    lines: Seq<Seq<char>>,
    blocks: Seq<HiddenBlock>,
    snip: Seq<char>,
    from: int,
    k: int,
)
    requires
        rewrite_wf(lines, blocks, from),
        0 <= k < blocks.len(),
    ensures
        spec_rewrite(lines, blocks, snip, from)[blocks[k].start_line_index - from + k]
            == marker_line(blocks[k].indentation_width, snip),
    decreases blocks.len(),
{
    let rw = spec_rewrite(lines, blocks, snip, from);
    let s0 = blocks[0].start_line_index as int;
    let rest = blocks.drop_first();
    let first = lines.subrange(from, s0);
    let rest_rw = spec_rewrite(lines, rest, snip, s0);
    assert(forall|j: int| 0 <= j < rest.len() ==> rest[j] == blocks[j + 1]);
    if k == 0 {
        assert(rw[s0 - from] == marker_line(blocks[0].indentation_width, snip));
    } else {
        lemma_marker_position(lines, rest, snip, s0, k - 1);
        lemma_rewrite_len(lines, rest, snip, s0);
        assert(first.len() == s0 - from);
        assert(blocks[k].start_line_index - from + k == (s0 - from) + 1 + (
        blocks[k].start_line_index - s0 + (k - 1)));
        assert(rw[blocks[k].start_line_index - from + k] == rest_rw[blocks[k].start_line_index
            - s0 + (k - 1)]);
    }
}

/// Appends the marker line for one block, with its line separator.
fn push_marker_line(out: &mut String, indent: usize, snip: &String)
    ensures
        final(out)@ == old(out)@ + marker_line(indent, snip@) + seq!['\n'],
{
    let mut k: usize = 0;
    proof {
        assert(out@ =~= old(out)@ + spaces(0));
    }
    while k < indent
        invariant
            k <= indent,
            out@ == old(out)@ + spaces(k as nat),
        decreases indent - k,
    {
        out.append(" ");
        k = k + 1;
        proof {
            reveal_strlit(" ");
            assert(spaces(k as nat) =~= spaces((k - 1) as nat) + " "@);
            assert(out@ =~= old(out)@ + spaces(k as nat));
        }
    }
    out.append(snip.as_str());
    out.append("\n");
    proof {
        reveal_strlit("\n");
        assert("\n"@ =~= seq!['\n']);
        assert(out@ =~= old(out)@ + marker_line(indent, snip@) + seq!['\n']);
    }
}

/// Walks the lines and the recorded blocks in lockstep and produces the
/// rewritten document: each line is emitted verbatim with a line separator,
/// and each recorded block's line is preceded by its marker line.
#[verifier::rlimit(50)]
pub fn rewrite(lines: &Vec<String>, blocks: &Vec<HiddenBlock>, snip: &String) -> (r: String)
    requires
        blocks_wf(blocks@, lines@.len() as int),
    ensures
        r@ == spec_unlines(spec_rewrite(line_views(lines@), blocks@, snip@, 0)),
{
    let ghost lv = line_views(lines@);
    let mut out = String::new();
    let mut bi: usize = 0;
    let mut i: usize = 0;
    proof {
        assert(blocks@.skip(0) =~= blocks@);
        assert(out@ + spec_unlines(spec_rewrite(lv, blocks@, snip@, 0)) =~= spec_unlines(
            spec_rewrite(lv, blocks@, snip@, 0),
        ));
    }
    while i < lines.len()
        invariant
            i <= lines@.len(),
            bi <= blocks@.len(),
            forall|k: int|
                bi <= k < blocks@.len() ==> (#[trigger] blocks@[k]).start_line_index >= i,
            spec_unlines(spec_rewrite(lv, blocks@, snip@, 0)) == out@ + spec_unlines(
                spec_rewrite(lv, blocks@.skip(bi as int), snip@, i as int),
            ),
        decreases lines@.len() - i,
    {
        if bi < blocks.len() && blocks[bi].start_line_index == i {
            let ghost pending = blocks@.skip(bi as int);
            let ghost mk = marker_line(blocks@[bi as int].indentation_width, snip@);
            let ghost out_before = out@;
            proof {
                assert(pending[0] == blocks@[bi as int]);
                lemma_rewrite_marker_step(lv, pending, snip@, i as int);
                assert(pending.drop_first() =~= blocks@.skip(bi + 1 as int));
                lemma_unlines_concat(
                    seq![mk],
                    spec_rewrite(lv, blocks@.skip(bi + 1 as int), snip@, i as int),
                );
                lemma_unlines_singleton(mk);
            }
            push_marker_line(&mut out, blocks[bi].indentation_width, snip);
            bi = bi + 1;
            proof {
                assert(spec_unlines(spec_rewrite(lv, blocks@, snip@, 0)) =~= out@ + spec_unlines(
                    spec_rewrite(lv, blocks@.skip(bi as int), snip@, i as int),
                ));
            }
        }
        let ghost pending = blocks@.skip(bi as int);
        let ghost out_mid = out@;
        proof {
            if pending.len() > 0 {
                assert(pending[0] == blocks@[bi as int]);
            }
            lemma_rewrite_line_step(lv, pending, snip@, i as int);
            lemma_unlines_concat(
                seq![lv[i as int]],
                spec_rewrite(lv, pending, snip@, i + 1 as int),
            );
            lemma_unlines_singleton(lv[i as int]);
            assert(lv[i as int] == lines@[i as int]@);
        }
        out.append(lines[i].as_str());
        out.append("\n");
        proof {
            reveal_strlit("\n");
            assert(out@ =~= out_mid + (lv[i as int] + seq!['\n']));
            assert(spec_unlines(spec_rewrite(lv, pending, snip@, i as int)) == (lv[i as int]
                + seq!['\n']) + spec_unlines(spec_rewrite(lv, pending, snip@, i + 1 as int)));
            assert(spec_unlines(spec_rewrite(lv, blocks@, snip@, 0)) =~= out@ + spec_unlines(
                spec_rewrite(lv, pending, snip@, i + 1 as int),
            ));
        }
        i = i + 1;
    }
    proof {
        assert(bi == blocks@.len());
        assert(blocks@.skip(bi as int) =~= Seq::<HiddenBlock>::empty());
        assert(spec_rewrite(lv, blocks@.skip(bi as int), snip@, i as int) =~= Seq::<
            Seq<char>,
        >::empty());
        assert(out@ =~= out@ + spec_unlines(Seq::<Seq<char>>::empty()));
    }
    out
}

} // verus!
