//! Proved laws of the transform.
use crate::classify::{
    is_hidden_candidate, is_import_line, is_ws, lemma_ws_run_end, spec_indent_width, ws_run_end,
};
use crate::collect::{
    block_of, blocks_wf, collect_step, collect_upto, lemma_collect_wf, spec_blocks, HiddenBlock,
};
use crate::fence::{fence_step, is_delim, FenceState};
use crate::lines::{
    cr_terminated, joinable_line, lemma_lines_break_free, lemma_lines_unlines_round_trip,
    spec_lines,
};
use crate::rewrite::{
    lemma_marker_position, lemma_rewrite_elements, lemma_rewrite_len, marker_line, rewrite_wf,
    spaces, spec_rewrite,
};
use crate::spec_transformed;
use vstd::prelude::*;

verus! {

/// The fence state after the first `n` lines; it does not depend on the
/// configuration.
pub open spec fn fence_after(lines: Seq<Seq<char>>, n: int) -> FenceState
    decreases n,
{
    if n <= 0 {
        FenceState::Outside
    } else {
        fence_step(fence_after(lines, n - 1), lines[n - 1])
    }
}

/// The collector's fence state is the fence tracker's, whatever the options.
pub proof fn lemma_collect_fence(fi: bool, fe: bool, lines: Seq<Seq<char>>, n: int)
    ensures
        collect_upto(fi, fe, lines, n).0 == fence_after(lines, n),
    decreases n,
{
    if n > 0 {
        lemma_collect_fence(fi, fe, lines, n - 1);
    }
}

proof fn lemma_ws_run_end_shift(p: Seq<char>, t: Seq<char>, k: int)
    requires
        0 <= k <= t.len(),
    ensures
        ws_run_end(p + t, p.len() + k) == p.len() + ws_run_end(t, k),
    decreases t.len() - k,
{
    let m = p + t;
    if k < t.len() && is_ws(t[k]) {
        assert(m[p.len() + k] == t[k]);
        lemma_ws_run_end_shift(p, t, k + 1);
    }
}

proof fn lemma_ws_run_end_spaces(n: nat, t: Seq<char>, j: int)
    requires
        0 <= j <= n,
    ensures
        ws_run_end(spaces(n) + t, j) == n + ws_run_end(t, 0),
    decreases n - j,
{
    let m = spaces(n) + t;
    if j < n {
        assert(m[j] == ' ');
        lemma_ws_run_end_spaces(n, t, j + 1);
    } else {
        lemma_ws_run_end_shift(spaces(n), t, 0);
    }
}

/// An inserted marker line is an ordinary visible line: it is a hidden
/// candidate only when the marker text is itself one, so markers are not
/// reclassified as hidden content by a later run.
pub proof fn lemma_marker_line_not_hidden(indent: usize, snip: Seq<char>)
    ensures
        is_hidden_candidate(marker_line(indent, snip)) == is_hidden_candidate(snip),
{
    let m = marker_line(indent, snip);
    lemma_ws_run_end_spaces(indent as nat, snip, 0);
    lemma_ws_run_end(snip, 0);
    let h = ws_run_end(snip, 0);
    assert(m.len() == indent + snip.len());
    if h < snip.len() {
        assert(m[indent + h] == snip[h]);
        if h + 1 < snip.len() {
            assert(m[indent + h + 1] == snip[h + 1]);
        }
        if h + 2 < snip.len() {
            assert(m[indent + h + 2] == snip[h + 2]);
        }
    }
}

proof fn lemma_no_hidden_upto(fi: bool, fe: bool, lines: Seq<Seq<char>>, n: int)
    requires
        0 <= n <= lines.len(),
        forall|i: int|
            0 <= i < lines.len() ==> !(!is_delim(#[trigger] lines[i]) && fence_step(
                fence_after(lines, i),
                lines[i],
            ) == FenceState::InTargetFence && is_hidden_candidate(lines[i])),
    ensures
        collect_upto(fi, fe, lines, n).1 is None,
        collect_upto(fi, fe, lines, n).2 =~= Seq::<HiddenBlock>::empty(),
    decreases n,
{
    if n > 0 {
        lemma_no_hidden_upto(fi, fe, lines, n - 1);
        lemma_collect_fence(fi, fe, lines, n - 1);
        assert(!(!is_delim(lines[n - 1]) && fence_step(fence_after(lines, n - 1), lines[n - 1])
            == FenceState::InTargetFence && is_hidden_candidate(lines[n - 1])));
    }
}

/// No-op guarantee: when no line inside a target fence is a hidden
/// candidate, the transform returns its input exactly.
pub proof fn lemma_no_op(fi: bool, fe: bool, snip: Seq<char>, s: Seq<char>)
    requires
        forall|i: int|
            0 <= i < spec_lines(s).len() ==> !(!is_delim(#[trigger] spec_lines(s)[i])
                && fence_step(fence_after(spec_lines(s), i), spec_lines(s)[i])
                == FenceState::InTargetFence && is_hidden_candidate(spec_lines(s)[i])),
    ensures
        spec_transformed(fi, fe, snip, s) == s,
{
    let lines = spec_lines(s);
    lemma_no_hidden_upto(fi, fe, lines, lines.len() as int);
}

/// An inserted marker line is no fence delimiter unless the marker text is
/// itself one.
pub proof fn lemma_marker_line_not_delim(indent: usize, snip: Seq<char>)
    requires
        !is_delim(snip),
    ensures
        !is_delim(marker_line(indent, snip)),
{
    let m = marker_line(indent, snip);
    if indent == 0 {
        assert(m =~= snip);
    } else {
        if m.len() >= 3 {
            assert(m[0] == ' ');
        }
    }
}

/// The number of recorded blocks whose run starts at or before line `i`:
/// how far line `i` is shifted in the rewritten document.
pub open spec fn shift_at(blocks: Seq<HiddenBlock>, i: int) -> int
    decreases blocks.len(),
{
    if blocks.len() == 0 {
        0
    } else {
        (if blocks[0].start_line_index <= i {
            1int
        } else {
            0int
        }) + shift_at(blocks.drop_first(), i)
    }
}

proof fn lemma_shift_bounds(blocks: Seq<HiddenBlock>, i: int)
    ensures
        0 <= shift_at(blocks, i) <= blocks.len(),
    decreases blocks.len(),
{
    if blocks.len() > 0 {
        lemma_shift_bounds(blocks.drop_first(), i);
    }
}

proof fn lemma_shift_zero(blocks: Seq<HiddenBlock>, i: int)
    requires
        forall|k: int| 0 <= k < blocks.len() ==> (#[trigger] blocks[k]).start_line_index > i,
    ensures
        shift_at(blocks, i) == 0,
    decreases blocks.len(),
{
    if blocks.len() > 0 {
        let rest = blocks.drop_first();
        assert(forall|k: int|
            0 <= k < rest.len() ==> (#[trigger] rest[k]).start_line_index > i) by {
            assert(forall|k: int| 0 <= k < rest.len() ==> rest[k] == blocks[k + 1]);
        }
        lemma_shift_zero(rest, i);
    }
}

proof fn lemma_shift_full(blocks: Seq<HiddenBlock>, i: int)
    requires
        forall|k: int| 0 <= k < blocks.len() ==> (#[trigger] blocks[k]).start_line_index <= i,
    ensures
        shift_at(blocks, i) == blocks.len(),
    decreases blocks.len(),
{
    if blocks.len() > 0 {
        let rest = blocks.drop_first();
        assert(forall|k: int| 0 <= k < rest.len() ==> rest[k] == blocks[k + 1]);
        lemma_shift_full(rest, i);
    }
}

proof fn lemma_shift_at_kth(blocks: Seq<HiddenBlock>, n_lines: int, k: int)
    requires
        blocks_wf(blocks, n_lines),
        0 <= k < blocks.len(),
    ensures
        shift_at(blocks, blocks[k].start_line_index - 1) == k,
        shift_at(blocks, blocks[k].start_line_index as int) == k + 1,
    decreases blocks.len(),
{
    let rest = blocks.drop_first();
    assert(forall|j: int| 0 <= j < rest.len() ==> rest[j] == blocks[j + 1]);
    if k == 0 {
        lemma_shift_zero(rest, blocks[0].start_line_index - 1);
        lemma_shift_zero(rest, blocks[0].start_line_index as int);
    } else {
        lemma_shift_at_kth(rest, n_lines, k - 1);
    }
}

proof fn lemma_shift_step_none(blocks: Seq<HiddenBlock>, i: int)
    requires
        forall|k: int| 0 <= k < blocks.len() ==> (#[trigger] blocks[k]).start_line_index != i,
    ensures
        shift_at(blocks, i) == shift_at(blocks, i - 1),
    decreases blocks.len(),
{
    if blocks.len() > 0 {
        let rest = blocks.drop_first();
        assert(forall|k: int| 0 <= k < rest.len() ==> rest[k] == blocks[k + 1]);
        lemma_shift_step_none(rest, i);
    }
}

proof fn lemma_order_preserved_from(
    lines: Seq<Seq<char>>,
    blocks: Seq<HiddenBlock>,
    snip: Seq<char>,
    from: int,
    i: int,
)
    requires
        rewrite_wf(lines, blocks, from),
        from <= i < lines.len(),
    ensures
        spec_rewrite(lines, blocks, snip, from)[i - from + shift_at(blocks, i)] == lines[i],
    decreases blocks.len(),
{
    lemma_shift_bounds(blocks, i);
    if blocks.len() == 0 {
        assert(lines.subrange(from, lines.len() as int)[i - from] == lines[i]);
    } else {
        let s0 = blocks[0].start_line_index as int;
        let rest = blocks.drop_first();
        let first = lines.subrange(from, s0);
        let mid = seq![marker_line(blocks[0].indentation_width, snip)];
        let rest_rw = spec_rewrite(lines, rest, snip, s0);
        assert(forall|k: int| 0 <= k < rest.len() ==> rest[k] == blocks[k + 1]);
        if i < s0 {
            assert(forall|k: int|
                0 <= k < blocks.len() ==> (#[trigger] blocks[k]).start_line_index > i);
            lemma_shift_zero(blocks, i);
            assert((first + mid + rest_rw)[i - from] == first[i - from]);
            assert(first[i - from] == lines[i]);
        } else {
            assert(shift_at(blocks, i) == 1 + shift_at(rest, i));
            lemma_shift_bounds(rest, i);
            lemma_order_preserved_from(lines, rest, snip, s0, i);
            lemma_rewrite_len(lines, rest, snip, s0);
            assert(first.len() == s0 - from);
            assert(mid.len() == 1);
            assert(i - s0 + shift_at(rest, i) < rest_rw.len());
            assert(i - from + shift_at(blocks, i) == (first + mid).len() + (i - s0 + shift_at(
                rest,
                i,
            )));
            assert((first + mid + rest_rw)[i - from + shift_at(blocks, i)] == rest_rw[i - s0
                + shift_at(rest, i)]);
        }
    }
}

/// Order preservation: every original line appears unchanged in the
/// rewritten document, at its own index shifted by the number of markers
/// inserted at or before it; the relative order of original lines is kept.
pub proof fn lemma_order_preserved(
    lines: Seq<Seq<char>>,
    blocks: Seq<HiddenBlock>,
    snip: Seq<char>,
    i: int,
)
    requires
        blocks_wf(blocks, lines.len() as int),
        0 <= i < lines.len(),
    ensures
        spec_rewrite(lines, blocks, snip, 0)[i + shift_at(blocks, i)] == lines[i],
{
    lemma_order_preserved_from(lines, blocks, snip, 0, i);
}

/// Block-count bound: the rewritten document holds exactly one inserted
/// marker line per recorded block, never more and never less.
pub proof fn lemma_block_count(fi: bool, fe: bool, snip: Seq<char>, s: Seq<char>)
    requires
        spec_lines(s).len() <= usize::MAX,
    ensures
        spec_rewrite(spec_lines(s), spec_blocks(fi, fe, spec_lines(s)), snip, 0).len()
            == spec_lines(s).len() + spec_blocks(fi, fe, spec_lines(s)).len(),
{
    let lines = spec_lines(s);
    lemma_collect_wf(fi, fe, lines, lines.len() as int);
    lemma_rewrite_len(lines, spec_blocks(fi, fe, lines), snip, 0);
}

/// Idempotence of classification: when the marker text is itself an
/// ordinary visible line, every block that a run over the rewritten
/// document records starts at a line of the original document, never at an
/// inserted marker line.
pub proof fn lemma_no_block_starts_at_marker(
    fi: bool,
    fe: bool,
    lines: Seq<Seq<char>>,
    blocks: Seq<HiddenBlock>,
    snip: Seq<char>,
    k: int,
)
    requires
        blocks_wf(blocks, lines.len() as int),
        !is_hidden_candidate(snip),
        lines.len() + blocks.len() <= usize::MAX,
        0 <= k < spec_blocks(fi, fe, spec_rewrite(lines, blocks, snip, 0)).len(),
    ensures
        ({
            let rw = spec_rewrite(lines, blocks, snip, 0);
            let b = spec_blocks(fi, fe, rw)[k];
            exists|i: int| 0 <= i < lines.len() && rw[b.start_line_index as int] == lines[i]
        }),
{
    let rw = spec_rewrite(lines, blocks, snip, 0);
    lemma_rewrite_len(lines, blocks, snip, 0);
    lemma_collect_wf(fi, fe, rw, rw.len() as int);
    lemma_first_line_determines_block(fi, fe, rw, k);
    let b = spec_blocks(fi, fe, rw)[k];
    assert(b.start_line_index < rw.len());
    lemma_rewrite_elements(lines, blocks, snip, 0, b.start_line_index as int);
    if exists|j: int|
        0 <= j < blocks.len() && rw[b.start_line_index as int] == marker_line(
            blocks[j].indentation_width,
            snip,
        ) {
        let j = choose|j: int|
            0 <= j < blocks.len() && rw[b.start_line_index as int] == marker_line(
                blocks[j].indentation_width,
                snip,
            );
        lemma_marker_line_not_hidden(blocks[j].indentation_width, snip);
        assert(false);
    }
}

proof fn lemma_blocks_from_first_line_upto(fi: bool, fe: bool, lines: Seq<Seq<char>>, n: int)
    requires
        0 <= n <= lines.len(),
        lines.len() <= usize::MAX,
    ensures
        forall|k: int|
            0 <= k < collect_upto(fi, fe, lines, n).2.len() ==> {
                let b = #[trigger] collect_upto(fi, fe, lines, n).2[k];
                &&& b == block_of(lines[b.start_line_index as int], b.start_line_index)
                &&& is_hidden_candidate(lines[b.start_line_index as int])
                &&& collect_upto(fi, fe, lines, b.start_line_index as int).1 is None
            },
        collect_upto(fi, fe, lines, n).1 is Some ==> {
            let b = collect_upto(fi, fe, lines, n).1.unwrap();
            &&& b == block_of(lines[b.start_line_index as int], b.start_line_index)
            &&& is_hidden_candidate(lines[b.start_line_index as int])
            &&& b.start_line_index < n
            &&& collect_upto(fi, fe, lines, b.start_line_index as int).1 is None
        },
    decreases n,
{
    if n > 0 {
        lemma_blocks_from_first_line_upto(fi, fe, lines, n - 1);
    }
}

proof fn lemma_second_run_sim(fi: bool, fe: bool, lines: Seq<Seq<char>>, snip: Seq<char>, i: int)
    requires
        0 <= i <= lines.len(),
        lines.len() + spec_blocks(fi, fe, lines).len() <= usize::MAX,
        !is_hidden_candidate(snip),
        !is_delim(snip),
    ensures
        ({
            let bs = spec_blocks(fi, fe, lines);
            let rwl = spec_rewrite(lines, bs, snip, 0);
            let orig = collect_upto(fi, fe, lines, i);
            let sim = collect_upto(fi, fe, rwl, i + shift_at(bs, i - 1));
            &&& sim.0 == orig.0
            &&& (orig.1 is Some <==> sim.1 is Some)
            &&& (orig.1 is Some ==> sim.1 == Some(
                HiddenBlock {
                    start_line_index: (orig.1.unwrap().start_line_index + shift_at(
                        bs,
                        orig.1.unwrap().start_line_index as int,
                    )) as usize,
                    indentation_width: orig.1.unwrap().indentation_width,
                    is_import: orig.1.unwrap().is_import,
                },
            ))
            &&& sim.2.len() == orig.2.len()
        }),
    decreases i,
{
    let bs = spec_blocks(fi, fe, lines);
    let rwl = spec_rewrite(lines, bs, snip, 0);
    lemma_collect_wf(fi, fe, lines, lines.len() as int);
    lemma_rewrite_len(lines, bs, snip, 0);
    if i == 0 {
        lemma_shift_zero(bs, -1);
    } else {
        lemma_second_run_sim(fi, fe, lines, snip, i - 1);
        let prev = collect_upto(fi, fe, lines, i - 1);
        let orig = collect_upto(fi, fe, lines, i);
        let m_prev = i - 1 + shift_at(bs, i - 2);
        let simprev = collect_upto(fi, fe, rwl, m_prev);
        lemma_shift_bounds(bs, i - 2);
        lemma_shift_bounds(bs, i - 1);
        lemma_order_preserved_from(lines, bs, snip, 0, i - 1);
        assert(orig == collect_step(fi, fe, prev.0, prev.1, prev.2, lines[i - 1], (i - 1) as usize));
        if prev.1 is Some {
            lemma_collect_wf(fi, fe, lines, i - 1);
        }
        if exists|k: int| 0 <= k < bs.len() && (#[trigger] bs[k]).start_line_index == i - 1 {
            let k = choose|k: int|
                0 <= k < bs.len() && (#[trigger] bs[k]).start_line_index == i - 1;
            lemma_shift_at_kth(bs, lines.len() as int, k);
            lemma_marker_position(lines, bs, snip, 0, k);
            lemma_marker_line_not_hidden(bs[k].indentation_width, snip);
            lemma_marker_line_not_delim(bs[k].indentation_width, snip);
            lemma_blocks_from_first_line_upto(fi, fe, lines, lines.len() as int);
            assert(bs == collect_upto(fi, fe, lines, lines.len() as int).2);
            assert(collect_upto(fi, fe, lines, bs[k].start_line_index as int).1 is None);
            assert(prev.1 is None);
            assert(rwl[m_prev] == marker_line(bs[k].indentation_width, snip));
            let sim_mid = collect_upto(fi, fe, rwl, m_prev + 1);
            assert(sim_mid == collect_step(
                fi,
                fe,
                simprev.0,
                simprev.1,
                simprev.2,
                rwl[m_prev],
                m_prev as usize,
            ));
            assert(sim_mid.0 == simprev.0 && sim_mid.1 is None && sim_mid.2 == simprev.2);
            let m_line = m_prev + 1;
            assert(rwl[m_line] == lines[i - 1]);
            let sim_new = collect_upto(fi, fe, rwl, m_line + 1);
            assert(sim_new == collect_step(
                fi,
                fe,
                sim_mid.0,
                sim_mid.1,
                sim_mid.2,
                rwl[m_line],
                m_line as usize,
            ));
            assert(i + shift_at(bs, i - 1) == m_line + 1);
        } else {
            lemma_shift_step_none(bs, i - 1);
            assert(rwl[m_prev] == lines[i - 1]);
            let sim_new = collect_upto(fi, fe, rwl, m_prev + 1);
            assert(sim_new == collect_step(
                fi,
                fe,
                simprev.0,
                simprev.1,
                simprev.2,
                rwl[m_prev],
                m_prev as usize,
            ));
            assert(i + shift_at(bs, i - 1) == m_prev + 1);
        }
    }
}

/// Idempotence of collection: with a marker text that is an ordinary
/// visible line, a run over the rewritten document records exactly as many
/// blocks as the run over the original lines: the inserted markers
/// themselves give rise to no further block.
pub proof fn lemma_second_run_block_count(
    fi: bool,
    fe: bool,
    lines: Seq<Seq<char>>,
    snip: Seq<char>,
)
    requires
        lines.len() + spec_blocks(fi, fe, lines).len() <= usize::MAX,
        !is_hidden_candidate(snip),
        !is_delim(snip),
    ensures
        spec_blocks(fi, fe, spec_rewrite(lines, spec_blocks(fi, fe, lines), snip, 0)).len()
            == spec_blocks(fi, fe, lines).len(),
{
    let bs = spec_blocks(fi, fe, lines);
    let rwl = spec_rewrite(lines, bs, snip, 0);
    lemma_collect_wf(fi, fe, lines, lines.len() as int);
    lemma_rewrite_len(lines, bs, snip, 0);
    lemma_second_run_sim(fi, fe, lines, snip, lines.len() as int);
    lemma_shift_full(bs, lines.len() - 1);
    assert(lines.len() + shift_at(bs, lines.len() - 1) == rwl.len());
}

proof fn lemma_marker_line_joinable(indent: usize, snip: Seq<char>)
    requires
        joinable_line(snip),
    ensures
        joinable_line(marker_line(indent, snip)),
{
    let m = marker_line(indent, snip);
    assert forall|k: int| 0 <= k < m.len() implies #[trigger] m[k] != '\n' by {
        if k < indent {
            assert(m[k] == ' ');
        } else {
            assert(m[k] == snip[k - indent]);
        }
    }
    if m.len() > 0 {
        if snip.len() > 0 {
            assert(m[m.len() - 1] == snip[snip.len() - 1]);
        } else {
            assert(m[m.len() - 1] == ' ');
        }
    }
}

/// Idempotence: run on its own output, the transform records exactly as
/// many blocks, and so would insert exactly as many further markers, as a
/// run on the original document records; the inserted markers are ordinary
/// visible lines and give rise to no block of their own. Asked of a marker
/// text that is itself an ordinary visible line, over documents whose
/// lines carry no stray carriage return.
pub proof fn lemma_transform_idempotent_count(fi: bool, fe: bool, snip: Seq<char>, s: Seq<char>)
    requires
        spec_lines(s).len() + spec_blocks(fi, fe, spec_lines(s)).len() <= usize::MAX,
        !is_hidden_candidate(snip),
        !is_delim(snip),
        joinable_line(snip),
        forall|i: int|
            0 <= i < spec_lines(s).len() ==> !cr_terminated(#[trigger] spec_lines(s)[i]),
    ensures
        spec_blocks(fi, fe, spec_lines(spec_transformed(fi, fe, snip, s))).len() == spec_blocks(
            fi,
            fe,
            spec_lines(s),
        ).len(),
{
    let l = spec_lines(s);
    let bs = spec_blocks(fi, fe, l);
    lemma_lines_break_free(s);
    if bs.len() > 0 {
        let rwl = spec_rewrite(l, bs, snip, 0);
        lemma_collect_wf(fi, fe, l, l.len() as int);
        lemma_rewrite_len(l, bs, snip, 0);
        assert forall|j: int| 0 <= j < rwl.len() implies joinable_line(#[trigger] rwl[j]) by {
            lemma_rewrite_elements(l, bs, snip, 0, j);
            if exists|k: int|
                0 <= k < bs.len() && rwl[j] == marker_line(bs[k].indentation_width, snip) {
                let k = choose|k: int|
                    0 <= k < bs.len() && rwl[j] == marker_line(bs[k].indentation_width, snip);
                lemma_marker_line_joinable(bs[k].indentation_width, snip);
            } else {
                let i = choose|i: int| 0 <= i < l.len() && rwl[j] == l[i];
                assert(joinable_line(l[i]));
            }
        }
        lemma_lines_unlines_round_trip(rwl);
        lemma_second_run_block_count(fi, fe, l, snip);
        assert(spec_lines(spec_transformed(fi, fe, snip, s)) == rwl);
    }
}

/// First-line-determines-block: every recorded block carries exactly the
/// indentation width and import classification computed from the first line
/// of its hidden run, whatever the later lines of the run hold.
pub proof fn lemma_first_line_determines_block(
    fi: bool,
    fe: bool,
    lines: Seq<Seq<char>>,
    k: int,
)
    requires
        lines.len() <= usize::MAX,
        0 <= k < spec_blocks(fi, fe, lines).len(),
    ensures
        ({
            let b = spec_blocks(fi, fe, lines)[k];
            &&& is_hidden_candidate(lines[b.start_line_index as int])
            &&& b.indentation_width == spec_indent_width(
                lines[b.start_line_index as int],
            ) as usize
            &&& b.is_import == is_import_line(lines[b.start_line_index as int])
        }),
{
    lemma_blocks_from_first_line_upto(fi, fe, lines, lines.len() as int);
}

} // verus!
