use limp::error::LimpError;

/// Every error renders as its fixed prefix followed by its detail.
#[test]
fn test_error_messages() {
    let cases: Vec<(LimpError, &str)> = vec![
        (
            LimpError::IOError("disk".to_string()),
            "IO error: disk",
        ),
        (
            LimpError::CrateExists("demo".to_string()),
            "Crate already exists: demo",
        ),
        (
            LimpError::CrateExistsNotEmpty("demo".to_string()),
            "Crate already exists and is not empty: demo",
        ),
        (
            LimpError::ParserError("bad json".to_string()),
            "Parser error: bad json",
        ),
        (
            LimpError::GitError("demo".to_string()),
            "Git creation error: demo",
        ),
        (
            LimpError::HttpError("status 500".to_string()),
            "HTTP error: status 500",
        ),
        (
            LimpError::CrateNotFound("nosuch".to_string()),
            "Crate not found: nosuch",
        ),
        (
            LimpError::VersionNotFound("serde/9.9.9".to_string()),
            "Version not found: serde/9.9.9",
        ),
        (
            LimpError::SnippetNotFound("snip.rs".to_string()),
            "Snippet not found: snip.rs",
        ),
        (
            LimpError::SnippetExists("serde".to_string()),
            "Snippet exists: serde",
        ),
        (
            LimpError::IncompatibleFeatures("serde/1.0.0".to_string()),
            "Incompatible features: serde/1.0.0",
        ),
        (
            LimpError::CargoTomlNotFound("dep: serde".to_string()),
            "Cannot add dependency: dep: serde",
        ),
        (
            LimpError::EmptyFile("snip.rs".to_string()),
            "Empty file: snip.rs",
        ),
        (
            LimpError::NotSupported("file extension: x.py".to_string()),
            "Not supported: file extension: x.py",
        ),
        (
            LimpError::DependencyNotFound("serde".to_string()),
            "Dependency not found: serde",
        ),
        (
            LimpError::DependencyAlreadyExists("serde".to_string()),
            "Dependency already exists: serde",
        ),
    ];
    for (err, expected) in cases {
        assert_eq!(err.message(), expected);
    }
}
