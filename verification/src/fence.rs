//! Fence tracking: a small state machine that follows fenced code-block
//! boundaries and reports which blocks are subject to processing.
use vstd::prelude::*;
use vstd::string::*;

verus! {

/// Where the current line stands with respect to fenced code blocks.
#[derive(Copy, Clone, PartialEq, Eq, Structural, Debug)]
pub enum FenceState {
    /// Outside any fence.
    Outside,
    /// Inside a fence of the processed target language.
    InTargetFence,
    /// Inside a fence of some other language.
    InOtherFence,
}

/// A line is a fence delimiter iff it starts with the triple-delimiter.
pub open spec fn is_delim(s: Seq<char>) -> bool {
    s.len() >= 3 && s[0] == '`' && s[1] == '`' && s[2] == '`'
}

/// A bare delimiter line: the triple-delimiter and nothing else.
pub open spec fn is_bare_delim(s: Seq<char>) -> bool {
    s.len() == 3 && is_delim(s)
}

/// An opening of a target-language fence: the delimiter, the target tag,
/// and then either nothing, or a comma or a space introducing attributes.
pub open spec fn is_target_open(s: Seq<char>) -> bool {
    &&& is_delim(s)
    &&& s.len() >= 7
    &&& s[3] == 'r'
    &&& s[4] == 'u'
    &&& s[5] == 's'
    &&& s[6] == 't'
    &&& (s.len() == 7 || s[7] == ',' || s[7] == ' ')
}

/// One step of the fence tracker. A delimiter seen inside any fence closes
/// it; from outside, a bare delimiter or a target-tagged delimiter opens a
/// target-language fence and any other tag opens some other fence.
pub open spec fn fence_step(st: FenceState, s: Seq<char>) -> FenceState {
    if !is_delim(s) {
        st
    } else if st != FenceState::Outside {
        FenceState::Outside
    } else if is_bare_delim(s) || is_target_open(s) {
        FenceState::InTargetFence
    } else {
        FenceState::InOtherFence
    }
}

/// Applies the fence tracker to one line; also reports whether the line is
/// itself a delimiter, so that it is never classified as content.
pub fn fence_step_line(st: FenceState, s: &str) -> (r: (FenceState, bool))
    ensures
        r.0 == fence_step(st, s@),
        r.1 == is_delim(s@),
{
    let n = s.unicode_len();
    let delim = n >= 3 && s.get_char(0) == '`' && s.get_char(1) == '`' && s.get_char(2) == '`';
    if !delim {
        (st, false)
    } else if st != FenceState::Outside {
        (FenceState::Outside, true)
    } else {
        let bare = n == 3;
        let target = n >= 7 && s.get_char(3) == 'r' && s.get_char(4) == 'u' && s.get_char(5) == 's'
            && s.get_char(6) == 't' && (n == 7 || s.get_char(7) == ',' || s.get_char(7) == ' ');
        if bare || target {
            (FenceState::InTargetFence, true)
        } else {
            (FenceState::InOtherFence, true)
        }
    }
}

} // verus!
