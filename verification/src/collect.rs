//! The core pass: one forward walk over the lines that gathers the ordered
//! list of hidden-line blocks eligible for marker insertion.
use crate::classify::{
    is_hidden_candidate, is_hidden_line, is_import, is_import_line, indent_width,
    lemma_indent_width_bound, spec_indent_width,
};
use crate::fence::{fence_step, fence_step_line, is_delim, FenceState};
use crate::lines::line_views;
use vstd::prelude::*;

verus! {

/// A maximal contiguous run of hidden lines inside one target fence,
/// described entirely by its first line.
#[derive(Copy, Clone, PartialEq, Eq, Structural, Debug)]
pub struct HiddenBlock {
    /// Index of the first line of the run.
    pub start_line_index: usize,
    /// Indentation width, taken from the first line of the run.
    pub indentation_width: usize,
    /// Whether the first line's de-marked content matches the import grammar.
    pub is_import: bool,
}

/// The block that a hidden run beginning with `line` at index `idx` opens.
pub open spec fn block_of(line: Seq<char>, idx: usize) -> HiddenBlock {
    HiddenBlock {
        start_line_index: idx,
        indentation_width: spec_indent_width(line) as usize,
        is_import: is_import_line(line),
    }
}

/// One collector step: the fence state, the in-progress block and the
/// recorded list after consuming `line` at index `idx`. A delimiter line is
/// never classified; leaving the target fence records the open block when
/// the end-of-block option asks for it. A visible line closes the open
/// block, which is recorded unless it is an import block and the import
/// option is off.
pub open spec fn collect_step(
    for_imports: bool,
    for_end_of_block: bool,
    st: FenceState,
    cur: Option<HiddenBlock>,
    blocks: Seq<HiddenBlock>,
    line: Seq<char>,
    idx: usize,
) -> (FenceState, Option<HiddenBlock>, Seq<HiddenBlock>) {
    let st2 = fence_step(st, line);
    if is_delim(line) {
        let blocks2 = if st == FenceState::InTargetFence && st2 != FenceState::InTargetFence
            && for_end_of_block && cur is Some {
            blocks.push(cur.unwrap())
        } else {
            blocks
        };
        (st2, None, blocks2)
    } else if st2 != FenceState::InTargetFence {
        (st2, None, blocks)
    } else if is_hidden_candidate(line) {
        if cur is Some {
            (st2, cur, blocks)
        } else {
            (st2, Some(block_of(line, idx)), blocks)
        }
    } else {
        if cur is Some && (!cur.unwrap().is_import || for_imports) {
            (st2, None, blocks.push(cur.unwrap()))
        } else {
            (st2, None, blocks)
        }
    }
}

/// The collector's state after the first `n` lines.
pub open spec fn collect_upto(
    for_imports: bool,
    for_end_of_block: bool,
    lines: Seq<Seq<char>>,
    n: int,
) -> (FenceState, Option<HiddenBlock>, Seq<HiddenBlock>)
    decreases n,
{
    if n <= 0 {
        (FenceState::Outside, None, seq![])
    } else {
        let prev = collect_upto(for_imports, for_end_of_block, lines, n - 1);
        collect_step(
            for_imports,
            for_end_of_block,
            prev.0,
            prev.1,
            prev.2,
            lines[n - 1],
            (n - 1) as usize,
        )
    }
}

/// The ordered block list that the whole document yields.
pub open spec fn spec_blocks(
    for_imports: bool,
    for_end_of_block: bool,
    lines: Seq<Seq<char>>,
) -> Seq<HiddenBlock> {
    collect_upto(for_imports, for_end_of_block, lines, lines.len() as int).2
}

/// Ordering invariant of a block list over a document of `n_lines` lines:
/// strictly increasing start indices, all within the document.
pub open spec fn blocks_wf(blocks: Seq<HiddenBlock>, n_lines: int) -> bool {
    &&& forall|i: int, j: int|
        0 <= i < j < blocks.len() ==> (#[trigger] blocks[i]).start_line_index < (
        #[trigger] blocks[j]).start_line_index
    &&& forall|i: int|
        0 <= i < blocks.len() ==> (#[trigger] blocks[i]).start_line_index < n_lines
}

/// Both collection and rewriting are single forward passes: the recorded
/// list is always sorted by start index, strictly below the line count, and
/// any in-progress block starts after every recorded one.
pub proof fn lemma_collect_wf(fi: bool, fe: bool, lines: Seq<Seq<char>>, n: int)
    requires
        0 <= n <= lines.len(),
        lines.len() <= usize::MAX,
    ensures
        blocks_wf(collect_upto(fi, fe, lines, n).2, n),
        collect_upto(fi, fe, lines, n).1 is Some ==> {
            let cur = collect_upto(fi, fe, lines, n).1.unwrap();
            &&& cur.start_line_index < n
            &&& forall|i: int|
                0 <= i < collect_upto(fi, fe, lines, n).2.len() ==> (#[trigger] collect_upto(
                    fi,
                    fe,
                    lines,
                    n,
                ).2[i]).start_line_index < cur.start_line_index
        },
    decreases n,
{
    if n > 0 {
        lemma_collect_wf(fi, fe, lines, n - 1);
    }
}

/// Collects, in one forward pass, the ordered list of hidden blocks that
/// are to receive a marker.
pub fn collect_blocks(for_imports: bool, for_end_of_block: bool, lines: &Vec<String>) -> (r: Vec<
    HiddenBlock,
>)
    requires
        forall|i: int| 0 <= i < lines@.len() ==> 4 * (#[trigger] lines@[i])@.len() <= usize::MAX,
    ensures
        r@ == spec_blocks(for_imports, for_end_of_block, line_views(lines@)),
        blocks_wf(r@, lines@.len() as int),
{
    let ghost lv = line_views(lines@);
    let mut st = FenceState::Outside;
    let mut cur: Option<HiddenBlock> = None;
    let mut out: Vec<HiddenBlock> = Vec::new();
    let mut i: usize = 0;
    while i < lines.len()
        invariant
            i <= lines@.len(),
            st == collect_upto(for_imports, for_end_of_block, lv, i as int).0,
            cur == collect_upto(for_imports, for_end_of_block, lv, i as int).1,
            out@ == collect_upto(for_imports, for_end_of_block, lv, i as int).2,
        decreases lines@.len() - i,
    {
        let line: &String = &lines[i];
        proof {
            assert(lv[i as int] == line@);
        }
        let (st2, delim) = fence_step_line(st, line.as_str());
        if delim {
            if st == FenceState::InTargetFence && st2 != FenceState::InTargetFence
                && for_end_of_block {
                if let Some(b) = cur {
                    out.push(b);
                }
            }
            cur = None;
        } else if st2 != FenceState::InTargetFence {
            cur = None;
        } else if is_hidden_line(line.as_str()) {
            if cur.is_none() {
                proof {
                    lemma_indent_width_bound(line@);
                }
                let w = indent_width(line.as_str());
                let imp = is_import(line.as_str());
                cur = Some(
                    HiddenBlock { start_line_index: i, indentation_width: w, is_import: imp },
                );
                proof {
                    assert(cur == Some(block_of(lv[i as int], i)));
                }
            }
        } else {
            if let Some(b) = cur {
                if !b.is_import || for_imports {
                    out.push(b);
                }
                cur = None;
            }
        }
        st = st2;
        i = i + 1;
    }
    proof {
        lemma_collect_wf(for_imports, for_end_of_block, lv, lv.len() as int);
    }
    out
}

} // verus!
