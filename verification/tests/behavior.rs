use mdbook_snips::classify::is_use_stmt;
use mdbook_snips::{MdbookSnips, MdbookSnipsConfig};

fn run(content: &str, config: &MdbookSnipsConfig) -> String {
    let mut text = String::from(content);
    let preprocessor = MdbookSnips::new();
    assert_eq!(Ok(()), preprocessor.handle_content(config, &mut text));
    text
}

#[test]
fn markers_stay_visible_on_second_run() {
    // An inserted marker line is an ordinary visible line, so a second run
    // adds exactly one new marker per hidden run, before the hidden lines
    // and after the marker of the first run.
    let config = MdbookSnipsConfig::default();
    let input = "# Hello\n```\n# pub(crate)use a;\nuse b;\n# use c;\nuse d;\n```\n";
    let once = run(input, &config);
    let twice = run(&once, &config);
    assert_eq!(
        &twice,
        "# Hello\n```\n// --snip--\n// --snip--\n# pub(crate)use a;\nuse b;\n// --snip--\n// --snip--\n# use c;\nuse d;\n```\n"
    );
    assert_eq!(
        twice.lines().count(),
        once.lines().count() + 2,
        "the second run must add exactly one marker per hidden run"
    );
}

#[test]
fn no_markers_outside_target_fences() {
    // Hidden-looking lines outside any fence and inside other-language
    // fences are never classified, so the output equals the input exactly.
    let config = MdbookSnipsConfig::default();
    let input = "# A heading\n# another\n```python\n# a comment\n```\ntrailing # text\n";
    assert_eq!(run(input, &config), input);
}

#[test]
fn block_end_marker_when_configured() {
    let config = MdbookSnipsConfig {
        for_end_of_block: true,
        ..Default::default()
    };
    let input = "```\nfn f() {}\n# use a;\n```\n";
    assert_eq!(run(input, &config), "```\nfn f() {}\n// --snip--\n# use a;\n```\n");
}

#[test]
fn no_block_end_marker_by_default() {
    let config = MdbookSnipsConfig::default();
    let input = "```\nfn f() {}\n# use a;\n```\n";
    assert_eq!(run(input, &config), input);
}

#[test]
fn first_line_decides_class() {
    // A run is classified by its first line alone: a run opening with an
    // ordinary hidden line is generic even if a hidden import follows, and
    // a run opening with a hidden import is an import block even if an
    // ordinary hidden line follows.
    let config = MdbookSnipsConfig {
        for_imports: false,
        ..Default::default()
    };
    let generic_first = "```\n# fn f() {}\n# use a;\nfn main() {}\n```\n";
    assert_eq!(
        run(generic_first, &config),
        "```\n// --snip--\n# fn f() {}\n# use a;\nfn main() {}\n```\n"
    );
    let import_first = "```\n# use a;\n# fn f() {}\nfn main() {}\n```\n";
    assert_eq!(run(import_first, &config), import_first);
}

#[test]
fn attributes_not_hidden() {
    let config = MdbookSnipsConfig::default();
    let input = "```\n#[derive(Debug)]\nstruct S;\n#![allow(dead_code)]\nfn main() {}\n```\n";
    assert_eq!(run(input, &config), input);
}

#[test]
fn tab_counts_four() {
    let config = MdbookSnipsConfig::default();
    let input = "```\n\t# let x = 1;\nfn main() {}\n```\n";
    assert_eq!(run(input, &config), "```\n    // --snip--\n\t# let x = 1;\nfn main() {}\n```\n");
}

#[test]
fn rust_tagged_fences() {
    let config = MdbookSnipsConfig::default();
    let input = "```rust\n# use a;\nuse b;\n```\n```rust,editable\n# use c;\nuse d;\n```\n```rust ignore\n# use e;\nuse f;\n```\n";
    assert_eq!(
        run(input, &config),
        "```rust\n// --snip--\n# use a;\nuse b;\n```\n```rust,editable\n// --snip--\n# use c;\nuse d;\n```\n```rust ignore\n// --snip--\n# use e;\nuse f;\n```\n"
    );
}

#[test]
fn custom_marker_text() {
    let config = MdbookSnipsConfig {
        snip_text: String::from("// ..."),
        ..Default::default()
    };
    let input = "```\n# use a;\nuse b;\n```\n";
    assert_eq!(run(input, &config), "```\n// ...\n# use a;\nuse b;\n```\n");
}

#[test]
fn empty_input_unchanged() {
    let config = MdbookSnipsConfig::default();
    assert_eq!(run("", &config), "");
}

#[test]
fn unterminated_fence_drops_block() {
    // A block still open at the end of the document is never recorded.
    let config = MdbookSnipsConfig {
        for_end_of_block: true,
        ..Default::default()
    };
    let input = "```\n# use a;\n";
    assert_eq!(run(input, &config), input);
}

#[test]
fn crlf_lines_normalized() {
    // Line splitting drops a carriage return before each line break, and
    // the rewrite joins lines with plain line breaks.
    let config = MdbookSnipsConfig::default();
    let input = "```\r\n# use a;\r\nuse b;\r\n```\r\n";
    assert_eq!(run(input, &config), "```\n// --snip--\n# use a;\nuse b;\n```\n");
}

#[test]
fn adds_trailing_newline_on_rewrite() {
    let config = MdbookSnipsConfig::default();
    let input = "```\n# x\nvisible\n```";
    assert_eq!(run(input, &config), "```\n// --snip--\n# x\nvisible\n```\n");
}

#[test]
fn grammar_requires_keyword_boundary() {
    assert!(!is_use_stmt("use"));
    assert!(!is_use_stmt("usea b"));
    assert!(is_use_stmt("  use x"));
    assert!(is_use_stmt("pub  use x"));
    assert!(is_use_stmt("pub (crate) use x"));
    assert!(is_use_stmt("pub\tuse x"));
    assert!(!is_use_stmt("pub(in)use a"));
    assert!(!is_use_stmt("pub(in ) use a"));
    assert!(!is_use_stmt("pub(self) use a"));
    assert!(!is_use_stmt("pub(crate::x) use a"));
}
