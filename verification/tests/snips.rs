use mdbook_snips::classify::is_use_stmt;
use mdbook_snips::{MdbookSnips, MdbookSnipsConfig};

#[test]
fn use_statements() {
    assert!(is_use_stmt("use a;"));
    assert!(is_use_stmt("use "));
    assert!(is_use_stmt("pub use a;"));
    assert!(is_use_stmt("pub(crate) use a;"));
    assert!(is_use_stmt("pub(crate)use a;"));
    assert!(!is_use_stmt("pubuse a;"));
    assert!(is_use_stmt("pub(in crate) use a;"));
    assert!(is_use_stmt("pub(in crate::module) use a;"));
    assert!(is_use_stmt("pub(in ::crate) use a;"));
}

#[test]
fn doesnt_change_code_without_hidden_lines() {
    let mut content = String::from("# Hello\n```\nfn main() {} // normal rust code\n```\n");

    let config = MdbookSnipsConfig::default();

    let preprocessor = MdbookSnips::new();

    assert_eq!(Ok(()), preprocessor.handle_content(&config, &mut content));

    assert_eq!(&content, "# Hello\n```\nfn main() {} // normal rust code\n```\n")
}

#[test]
fn adds_for_imports_when_configured() {
    let mut content =
        String::from("# Hello\n```\n# pub(crate)use a;\nuse b;\n# use c;\nuse d;\n```\n");

    let config = MdbookSnipsConfig {
        for_imports: true,
        ..Default::default()
    };

    let preprocessor = MdbookSnips::new();

    assert_eq!(Ok(()), preprocessor.handle_content(&config, &mut content));

    assert_eq!(
        &content,
        "# Hello\n```\n// --snip--\n# pub(crate)use a;\nuse b;\n// --snip--\n# use c;\nuse d;\n```\n"
    )
}

#[test]
fn does_not_add_for_imports_when_configured() {
    let mut content =
        String::from("# Hello\n```\n# pub(crate)use a;\nuse b;\n# use c;\nuse d;\n```\n");

    let config = MdbookSnipsConfig {
        for_imports: false,
        ..Default::default()
    };

    let preprocessor = MdbookSnips::new();

    assert_eq!(Ok(()), preprocessor.handle_content(&config, &mut content));

    assert_eq!(
        &content,
        "# Hello\n```\n# pub(crate)use a;\nuse b;\n# use c;\nuse d;\n```\n"
    )
}

#[test]
fn respects_indentation() {
    let mut content = String::from(
        "# Hello\n```\n# fn f() {}\n\nfn main() {\n#     let x = f();\n\n    x\n}\n```\n",
    );

    let config = MdbookSnipsConfig::default();

    let preprocessor = MdbookSnips::new();

    assert_eq!(Ok(()), preprocessor.handle_content(&config, &mut content));

    assert_eq!(
        &content,
        "# Hello\n```\n// --snip--\n# fn f() {}\n\nfn main() {\n    // --snip--\n#     let x = f();\n\n    x\n}\n```\n"
    )
}

#[test]
fn ignores_whitespace_before_hash() {
    let mut content = String::from(
        "# Hello\n```\n# fn f() {}\n\nfn main() {\n    # let x = f();\n\n    x\n}\n```\n",
    );

    let config = MdbookSnipsConfig::default();

    let preprocessor = MdbookSnips::new();

    assert_eq!(Ok(()), preprocessor.handle_content(&config, &mut content));

    assert_eq!(
        &content,
        "# Hello\n```\n// --snip--\n# fn f() {}\n\nfn main() {\n    // --snip--\n    # let x = f();\n\n    x\n}\n```\n"
    )
}
