use limp::error::LimpError;
use limp::parser::{check_snippet_path, load_from_deps, SnippetEntity};

fn lines(ls: &[&str]) -> Vec<String> {
    ls.iter().map(|l| l.to_string()).collect()
}

/// A `use` line is an import; the rest is the body.
#[test]
fn test_from_lines_simple() {
    let e = SnippetEntity::from_lines(&lines(&["use std::io;", "fn main() {}"]));
    assert_eq!(e.to_text(), "use std::io;\n\nfn main() {}");
}

/// A `use` block runs from its opening brace to the line ending in `};`.
#[test]
fn test_from_lines_import_block() {
    let e = SnippetEntity::from_lines(&lines(&[
        "use std::{",
        "    io,",
        "    fmt,",
        "};",
        "fn f() {}",
        "fn g() {}",
    ]));
    assert_eq!(
        e.to_text(),
        "use std::{\n    io,\n    fmt,\n};\n\nfn f() {}\nfn g() {}"
    );
}

/// Once real code is seen, later `use` lines belong to the body.
#[test]
fn test_from_lines_use_after_code() {
    let e = SnippetEntity::from_lines(&lines(&["fn f() {}", "use std::io;"]));
    assert_eq!(e.to_text(), "fn f() {}\nuse std::io;");
}

/// A snippet without imports renders as its body alone; an empty file
/// yields an empty text.
#[test]
fn test_from_lines_edges() {
    let e = SnippetEntity::from_lines(&lines(&["fn main() {}"]));
    assert_eq!(e.to_text(), "fn main() {}");

    let e = SnippetEntity::from_lines(&lines(&[]));
    assert_eq!(e.to_text(), "");
}

/// Combining snippets joins all imports, a blank line, then all bodies.
#[test]
fn test_load_from_deps_combines() {
    let a = SnippetEntity::from_lines(&lines(&["use std::io;", "fn a() {}"]));
    let b = SnippetEntity::from_lines(&lines(&["use std::fmt;", "fn b() {}"]));
    let combined = load_from_deps(&vec![a, b]).unwrap();
    assert_eq!(combined, "use std::io;\nuse std::fmt;\n\nfn a() {}\nfn b() {}");
}

/// Without any body there is nothing to combine.
#[test]
fn test_load_from_deps_empty() {
    assert!(load_from_deps(&vec![]).is_none());
    let only_imports = SnippetEntity::from_lines(&lines(&["use std::io;"]));
    assert!(load_from_deps(&vec![only_imports]).is_none());
}

/// Only a path ending in `.rs` names a snippet file.
#[test]
fn test_check_snippet_path() {
    assert!(check_snippet_path("foo.rs").is_ok());
    assert!(check_snippet_path("dir/sub/foo.rs").is_ok());

    let err = check_snippet_path("foo.py").unwrap_err();
    assert!(matches!(err, LimpError::NotSupported(_)));
    assert_eq!(err.message(), "Not supported: file extension: foo.py");

    let err = check_snippet_path("foo").unwrap_err();
    assert!(matches!(err, LimpError::EmptyFile(_)));
    assert_eq!(err.message(), "Empty file: foo");

    // A hidden file has no extension, nor does a file in a dotted folder.
    assert!(check_snippet_path(".rs").is_err());
    assert!(check_snippet_path("dir.d/file").is_err());
}
