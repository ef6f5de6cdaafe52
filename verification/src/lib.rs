//! A preprocessor core for book chapters: it finds runs of hidden lines
//! inside fenced rust code examples and inserts a visible elision marker
//! line in front of each run.
#![verifier::loop_isolation(false)]

use vstd::prelude::*;
use vstd::string::*;

pub mod classify;
pub mod collect;
pub mod fence;
pub mod laws;
pub mod lines;
pub mod rewrite;

use crate::collect::{blocks_wf, collect_blocks, spec_blocks};
use crate::lines::{line_views, spec_lines, spec_unlines, split_lines};
use crate::rewrite::{rewrite, spec_rewrite};

verus! {

/// Returns `true`; the default value of the `for_imports` option.
pub fn true_f() -> (r: bool)
    ensures
        r == true,
{
    true
}

/// The default marker text.
pub fn default_snip() -> (r: String)
    ensures
        r@ == "// --snip--"@,
{
    String::from_str("// --snip--")
}

/// The three recognized options of one run.
#[derive(Clone)]
pub struct MdbookSnipsConfig {
    /// Whether import-classified hidden blocks receive a marker.
    pub for_imports: bool,
    /// Whether a block still open at a fence's close is also recorded.
    pub for_end_of_block: bool,
    /// The literal text of each inserted marker line.
    pub snip_text: String,
}

impl Default for MdbookSnipsConfig {
    /// Markers for imports, none at block end, and the default marker text.
    fn default() -> (r: Self)
        ensures
            r.for_imports == true,
            r.for_end_of_block == false,
            r.snip_text@ == "// --snip--"@,
    {
        MdbookSnipsConfig { for_imports: true_f(), for_end_of_block: false, snip_text: default_snip() }
    }
}

/// The error a failed rewrite would report. Building the rewritten text in
/// memory cannot fail, so the transform never returns it.
#[derive(Copy, Clone, PartialEq, Eq, Structural, Debug)]
pub struct FormatError;

/// The rewritten document: the original when no block is recorded (a no-op,
/// byte for byte), otherwise every line re-emitted with one marker line in
/// front of each recorded block and a separator after every line.
pub open spec fn spec_transformed(
    for_imports: bool,
    for_end_of_block: bool,
    snip: Seq<char>,
    s: Seq<char>,
) -> Seq<char> {
    let lines = spec_lines(s);
    let blocks = spec_blocks(for_imports, for_end_of_block, lines);
    if blocks.len() == 0 {
        s
    } else {
        spec_unlines(spec_rewrite(lines, blocks, snip, 0))
    }
}

/// The preprocessor.
pub struct MdbookSnips;

impl MdbookSnips {
    /// Makes the preprocessor; it holds no state across invocations.
    pub fn new() -> (r: MdbookSnips)
        ensures
            true,
    {
        MdbookSnips
    }

    /// Rewrites one document in place: each maximal run of hidden lines
    /// inside a target-language fence that the configuration includes gets
    /// one indented marker line inserted immediately before it. With no
    /// recorded block the document is left unchanged.
    pub fn handle_content(&self, cfg: &MdbookSnipsConfig, content: &mut String) -> (r: Result<
        (),
        FormatError,
    >)
        requires
            4 * old(content)@.len() <= usize::MAX,
        ensures
            r == Ok::<(), FormatError>(()),
            final(content)@ == spec_transformed(
                cfg.for_imports,
                cfg.for_end_of_block,
                cfg.snip_text@,
                old(content)@,
            ),
    {
        let lines = split_lines(content.as_str());
        proof {
            assert forall|i: int| 0 <= i < lines@.len() implies 4 * (#[trigger] lines@[i])@.len()
                <= usize::MAX by {
                assert(lines@[i]@.len() <= content@.len());
            }
        }
        let blocks = collect_blocks(cfg.for_imports, cfg.for_end_of_block, &lines);
        if blocks.len() == 0 {
            return Ok(());
        }
        let new_content = rewrite(&lines, &blocks, &cfg.snip_text);
        *content = new_content;
        Ok(())
    }
}

} // verus!
