//! Line classification: hidden-candidate detection, indentation width,
//! and the import-statement grammar.
use vstd::prelude::*;
use vstd::string::*;

verus! {

/// A whitespace character of an indentation run: a space or a tab.
pub open spec fn is_ws(c: char) -> bool {
    c == ' ' || c == '\t'
}

/// Column width of a whitespace character: a space is one column, a tab four.
pub open spec fn char_width(c: char) -> int {
    if c == '\t' {
        4
    } else {
        1
    }
}

/// Column width of one whitespace character.
pub fn space_width(ch: char) -> (r: usize)
    requires
        is_ws(ch),
    ensures
        r == char_width(ch),
{
    if ch == '\t' {
        4
    } else {
        1
    }
}

fn is_ws_char(c: char) -> (r: bool)
    ensures
        r == is_ws(c),
{
    c == ' ' || c == '\t'
}

/// First index at or after `i` whose character is not whitespace (or the end).
pub open spec fn ws_run_end(s: Seq<char>, i: int) -> int
    decreases s.len() - i,
{
    if i < 0 || i >= s.len() || !is_ws(s[i]) {
        i
    } else {
        ws_run_end(s, i + 1)
    }
}

pub proof fn lemma_ws_run_end(s: Seq<char>, i: int)
    requires
        0 <= i <= s.len(),
    ensures
        i <= ws_run_end(s, i) <= s.len(),
        forall|k: int| i <= k < ws_run_end(s, i) ==> is_ws(#[trigger] s[k]),
        ws_run_end(s, i) < s.len() ==> !is_ws(s[ws_run_end(s, i)]),
    decreases s.len() - i,
{
    if i < s.len() && is_ws(s[i]) {
        lemma_ws_run_end(s, i + 1);
    }
}

/// Finds the end of the whitespace run of `s` beginning at `i`.
pub fn ws_run_end_at(s: &str, i: usize) -> (r: usize)
    requires
        i <= s@.len(),
    ensures
        r == ws_run_end(s@, i as int),
        i <= r <= s@.len(),
{
    let n = s.unicode_len();
    let mut j = i;
    while j < n && is_ws_char(s.get_char(j))
        invariant
            i <= j <= n,
            ws_run_end(s@, i as int) == ws_run_end(s@, j as int),
        decreases n - j,
    {
        j = j + 1;
    }
    proof {
        lemma_ws_run_end(s@, i as int);
    }
    j
}

/// Total column width of the whitespace run beginning at index `i`.
pub open spec fn ws_width_from(s: Seq<char>, i: int) -> int
    decreases s.len() - i,
{
    if i < 0 || i >= s.len() || !is_ws(s[i]) {
        0
    } else {
        char_width(s[i]) + ws_width_from(s, i + 1)
    }
}

pub proof fn lemma_ws_width_bound(s: Seq<char>, i: int)
    requires
        0 <= i <= s.len(),
    ensures
        0 <= ws_width_from(s, i) <= 4 * (ws_run_end(s, i) - i),
    decreases s.len() - i,
{
    if i < s.len() && is_ws(s[i]) {
        lemma_ws_width_bound(s, i + 1);
    }
}

/// Sum of column widths of the whitespace run beginning at `i`.
pub fn ws_width_at(s: &str, i: usize) -> (r: usize)
    requires
        i <= s@.len(),
        4 * s@.len() <= usize::MAX,
    ensures
        r == ws_width_from(s@, i as int),
{
    let n = s.unicode_len();
    let mut j = i;
    let mut w: usize = 0;
    proof {
        lemma_ws_width_bound(s@, i as int);
        lemma_ws_run_end(s@, i as int);
    }
    while j < n && is_ws_char(s.get_char(j))
        invariant
            i <= j <= n,
            w + ws_width_from(s@, j as int) == ws_width_from(s@, i as int),
            w <= 4 * (j - i),
        decreases n - j,
    {
        proof {
            lemma_ws_width_bound(s@, j as int);
        }
        w = w + space_width(s.get_char(j));
        j = j + 1;
    }
    w
}

/// A line is a hidden candidate iff its first non-whitespace character is
/// the marker `#` and the content after the marker begins with neither `[`
/// nor `![` (which protects attribute and derive annotations).
pub open spec fn is_hidden_candidate(s: Seq<char>) -> bool {
    let h = ws_run_end(s, 0);
    &&& h < s.len()
    &&& s[h] == '#'
    &&& !(h + 1 < s.len() && s[h + 1] == '[')
    &&& !(h + 2 < s.len() && s[h + 1] == '!' && s[h + 2] == '[')
}

/// Decides whether a line is a hidden candidate.
pub fn is_hidden_line(s: &str) -> (r: bool)
    ensures
        r == is_hidden_candidate(s@),
{
    let n = s.unicode_len();
    let h = ws_run_end_at(s, 0);
    if h >= n {
        return false;
    }
    if s.get_char(h) != '#' {
        return false;
    }
    if n - h > 1 && s.get_char(h + 1) == '[' {
        return false;
    }
    if n - h > 2 && s.get_char(h + 1) == '!' && s.get_char(h + 2) == '[' {
        return false;
    }
    true
}

/// Index of the first character of the de-marked content of a hidden line:
/// the character after the marker, past at most one separator space.
pub open spec fn demark_start(s: Seq<char>) -> int
    recommends
        is_hidden_candidate(s),
{
    let h = ws_run_end(s, 0);
    if h + 1 < s.len() && s[h + 1] == ' ' {
        h + 2
    } else {
        h + 1
    }
}

/// Finds the start of the de-marked content of a hidden line.
pub fn demark_start_at(s: &str) -> (r: usize)
    requires
        is_hidden_candidate(s@),
    ensures
        r == demark_start(s@),
        r <= s@.len(),
{
    let n = s.unicode_len();
    let h = ws_run_end_at(s, 0);
    if n - h > 1 && s.get_char(h + 1) == ' ' {
        h + 2
    } else {
        h + 1
    }
}

/// Indentation width of a hidden line: the width of the whitespace before
/// the marker plus the width of the whitespace after it (past the one
/// separator space, which is not counted).
pub open spec fn spec_indent_width(s: Seq<char>) -> int
    recommends
        is_hidden_candidate(s),
{
    ws_width_from(s, 0) + ws_width_from(s, demark_start(s))
}

pub proof fn lemma_indent_width_bound(s: Seq<char>)
    requires
        is_hidden_candidate(s),
    ensures
        0 <= spec_indent_width(s) <= 4 * s.len(),
{
    lemma_ws_run_end(s, 0);
    lemma_ws_width_bound(s, 0);
    let d = demark_start(s);
    lemma_ws_width_bound(s, d);
    lemma_ws_run_end(s, d);
}

/// Computes the indentation width of a hidden line.
pub fn indent_width(s: &str) -> (r: usize)
    requires
        is_hidden_candidate(s@),
        4 * s@.len() <= usize::MAX,
    ensures
        r == spec_indent_width(s@),
{
    proof {
        lemma_ws_run_end(s@, 0);
        lemma_ws_width_bound(s@, 0);
        lemma_ws_width_bound(s@, demark_start(s@));
        lemma_ws_run_end(s@, demark_start(s@));
    }
    let before = ws_width_at(s, 0);
    let d = demark_start_at(s);
    let after = ws_width_at(s, d);
    before + after
}

/// An identifier may start with a letter or an underscore.
pub open spec fn is_ident_start(c: char) -> bool {
    ||| 'a' as int <= c as int && c as int <= 'z' as int
    ||| 'A' as int <= c as int && c as int <= 'Z' as int
    ||| c == '_'
}

/// An identifier continues with letters, digits and underscores.
pub open spec fn is_ident_char(c: char) -> bool {
    is_ident_start(c) || ('0' as int <= c as int && c as int <= '9' as int)
}

fn is_ident_start_c(c: char) -> (r: bool)
    ensures
        r == is_ident_start(c),
{
    let u = c as u32;
    ('a' as u32 <= u && u <= 'z' as u32) || ('A' as u32 <= u && u <= 'Z' as u32) || c == '_'
}

fn is_ident_char_c(c: char) -> (r: bool)
    ensures
        r == is_ident_char(c),
{
    let u = c as u32;
    is_ident_start_c(c) || ('0' as u32 <= u && u <= '9' as u32)
}

/// End of the run of identifier characters beginning at `i`.
pub open spec fn ident_end(s: Seq<char>, i: int) -> int
    decreases s.len() - i,
{
    if i < 0 || i >= s.len() || !is_ident_char(s[i]) {
        i
    } else {
        ident_end(s, i + 1)
    }
}

pub proof fn lemma_ident_end(s: Seq<char>, i: int)
    requires
        0 <= i <= s.len(),
    ensures
        i <= ident_end(s, i) <= s.len(),
    decreases s.len() - i,
{
    if i < s.len() && is_ident_char(s[i]) {
        lemma_ident_end(s, i + 1);
    }
}

fn ident_end_at(s: &str, i: usize) -> (r: usize)
    requires
        i <= s@.len(),
    ensures
        r == ident_end(s@, i as int),
        i <= r <= s@.len(),
{
    let n = s.unicode_len();
    let mut j = i;
    while j < n && is_ident_char_c(s.get_char(j))
        invariant
            i <= j <= n,
            ident_end(s@, i as int) == ident_end(s@, j as int),
        decreases n - j,
    {
        j = j + 1;
    }
    proof {
        lemma_ident_end(s@, i as int);
    }
    j
}

/// After a complete identifier segment, consumes the repetitions of a path
/// separator followed by a further identifier segment.
pub open spec fn path_tail_end(s: Seq<char>, i: int) -> int
    decreases s.len() - i,
    via path_tail_end_decreases
{
    if 0 <= i && i + 2 < s.len() && s[i] == ':' && s[i + 1] == ':' && is_ident_start(s[i + 2]) {
        path_tail_end(s, ident_end(s, i + 3))
    } else {
        i
    }
}

#[via_fn]
proof fn path_tail_end_decreases(s: Seq<char>, i: int) {
    if 0 <= i && i + 2 < s.len() && s[i] == ':' && s[i + 1] == ':' && is_ident_start(s[i + 2]) {
        lemma_ident_end(s, i + 3);
    }
}

fn path_tail_end_at(s: &str, i: usize) -> (r: usize)
    requires
        i <= s@.len(),
    ensures
        r == path_tail_end(s@, i as int),
        i <= r <= s@.len(),
{
    let n = s.unicode_len();
    let mut j = i;
    loop
        invariant
            i <= j <= n,
            path_tail_end(s@, i as int) == path_tail_end(s@, j as int),
        decreases n - j,
    {
        if n - j > 2 && s.get_char(j) == ':' && s.get_char(j + 1) == ':' && is_ident_start_c(
            s.get_char(j + 2),
        ) {
            let e = ident_end_at(s, j + 3);
            j = e;
        } else {
            return j;
        }
    }
}

/// Recognizes the crate scope word at `i`.
pub open spec fn has_crate_at(s: Seq<char>, i: int) -> bool {
    &&& 0 <= i
    &&& i + 5 <= s.len()
    &&& s[i] == 'c'
    &&& s[i + 1] == 'r'
    &&& s[i + 2] == 'a'
    &&& s[i + 3] == 't'
    &&& s[i + 4] == 'e'
}

/// Recognizes the scope keyword `in` at `i`.
pub open spec fn has_in_at(s: Seq<char>, i: int) -> bool {
    0 <= i && i + 2 <= s.len() && s[i] == 'i' && s[i + 1] == 'n'
}

/// End of an `in`-scope body starting right after the keyword: required
/// whitespace, an optional leading path separator, then an identifier path.
pub open spec fn in_path_end(s: Seq<char>, i: int) -> Option<int> {
    let j = ws_run_end(s, i);
    if j == i {
        None
    } else {
        let k = if j + 2 <= s.len() && s[j] == ':' && s[j + 1] == ':' {
            j + 2
        } else {
            j
        };
        if k < s.len() && is_ident_start(s[k]) {
            Some(path_tail_end(s, ident_end(s, k + 1)))
        } else {
            None
        }
    }
}

/// End of a parenthesized-scope body beginning at `i`: either the crate
/// scope word, or an `in`-path scope.
pub open spec fn scope_end(s: Seq<char>, i: int) -> Option<int> {
    if has_crate_at(s, i) {
        Some(i + 5)
    } else if has_in_at(s, i) {
        in_path_end(s, i + 2)
    } else {
        None
    }
}

fn in_path_end_at(s: &str, i: usize) -> (r: Option<usize>)
    requires
        i <= s@.len(),
    ensures
        r is Some <==> in_path_end(s@, i as int) is Some,
        r is Some ==> in_path_end(s@, i as int) == Some(r.unwrap() as int) && r.unwrap()
            <= s@.len(),
{
    let n = s.unicode_len();
    let j = ws_run_end_at(s, i);
    if j == i {
        return None;
    }
    let k = if n - j >= 2 && s.get_char(j) == ':' && s.get_char(j + 1) == ':' {
        j + 2
    } else {
        j
    };
    if k < n && is_ident_start_c(s.get_char(k)) {
        let e = ident_end_at(s, k + 1);
        let t = path_tail_end_at(s, e);
        Some(t)
    } else {
        None
    }
}

fn scope_end_at(s: &str, i: usize) -> (r: Option<usize>)
    requires
        i <= s@.len(),
    ensures
        r is Some <==> scope_end(s@, i as int) is Some,
        r is Some ==> scope_end(s@, i as int) == Some(r.unwrap() as int) && r.unwrap() <= s@.len(),
{
    let n = s.unicode_len();
    if n - i >= 5 && s.get_char(i) == 'c' && s.get_char(i + 1) == 'r' && s.get_char(i + 2) == 'a'
        && s.get_char(i + 3) == 't' && s.get_char(i + 4) == 'e' {
        Some(i + 5)
    } else if n - i >= 2 && s.get_char(i) == 'i' && s.get_char(i + 1) == 'n' {
        in_path_end_at(s, i + 2)
    } else {
        None
    }
}

/// Recognizes the visibility keyword at `i`.
pub open spec fn has_pub_at(s: Seq<char>, i: int) -> bool {
    0 <= i && i + 3 <= s.len() && s[i] == 'p' && s[i + 1] == 'u' && s[i + 2] == 'b'
}

/// Recognizes the import keyword at `i`, followed by required whitespace.
pub open spec fn has_use_ws_at(s: Seq<char>, i: int) -> bool {
    &&& 0 <= i
    &&& i + 4 <= s.len()
    &&& s[i] == 'u'
    &&& s[i + 1] == 's'
    &&& s[i + 2] == 'e'
    &&& is_ws(s[i + 3])
}

fn has_use_ws(s: &str, i: usize) -> (r: bool)
    requires
        i <= s@.len(),
    ensures
        r == has_use_ws_at(s@, i as int),
{
    let n = s.unicode_len();
    n - i >= 4 && s.get_char(i) == 'u' && s.get_char(i + 1) == 's' && s.get_char(i + 2) == 'e'
        && is_ws_char(s.get_char(i + 3))
}

/// The import-statement grammar, matched against `s` from `start`: optional
/// whitespace, an optional visibility prefix (the visibility keyword with
/// either required trailing whitespace or a parenthesized scope), then the
/// import keyword followed by required whitespace.
pub open spec fn spec_is_use_stmt(s: Seq<char>, start: int) -> bool {
    let i = ws_run_end(s, start);
    if has_pub_at(s, i) {
        let j = ws_run_end(s, i + 3);
        if j < s.len() && s[j] == '(' {
            match scope_end(s, j + 1) {
                Some(k) => k < s.len() && s[k] == ')' && has_use_ws_at(s, ws_run_end(s, k + 1)),
                None => false,
            }
        } else if j > i + 3 {
            has_use_ws_at(s, j)
        } else {
            false
        }
    } else {
        has_use_ws_at(s, i)
    }
}

fn use_stmt_from(s: &str, start: usize) -> (r: bool)
    requires
        start <= s@.len(),
    ensures
        r == spec_is_use_stmt(s@, start as int),
{
    let n = s.unicode_len();
    let i = ws_run_end_at(s, start);
    if n - i >= 3 && s.get_char(i) == 'p' && s.get_char(i + 1) == 'u' && s.get_char(i + 2) == 'b' {
        let j = ws_run_end_at(s, i + 3);
        if j < n && s.get_char(j) == '(' {
            match scope_end_at(s, j + 1) {
                Some(k) => {
                    if k < n && s.get_char(k) == ')' {
                        let m = ws_run_end_at(s, k + 1);
                        has_use_ws(s, m)
                    } else {
                        false
                    }
                },
                None => false,
            }
        } else if j > i + 3 {
            has_use_ws(s, j)
        } else {
            false
        }
    } else {
        has_use_ws(s, i)
    }
}

/// Decides whether `s` matches the import-statement grammar.
pub fn is_use_stmt(s: &str) -> (r: bool)
    ensures
        r == spec_is_use_stmt(s@, 0),
{
    use_stmt_from(s, 0)
}

/// Whether the de-marked content of hidden line `s` matches the import
/// grammar; such a hidden block is an import block.
pub open spec fn is_import_line(s: Seq<char>) -> bool
    recommends
        is_hidden_candidate(s),
{
    spec_is_use_stmt(s, demark_start(s))
}

/// Decides whether a hidden line opens an import block.
pub fn is_import(s: &str) -> (r: bool)
    requires
        is_hidden_candidate(s@),
    ensures
        r == is_import_line(s@),
{
    let d = demark_start_at(s);
    use_stmt_from(s, d)
}

} // verus!
