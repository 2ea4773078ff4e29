use limp::crates::{Crate, CratesIoDependency, Version};
use limp::error::LimpError;
use limp::storage::{JsonDependency, JsonStorage, SnippetOutcome};

/// Metadata as the index reports it for `serde`, newest version first.
fn serde_metadata() -> CratesIoDependency {
    CratesIoDependency {
        crate_info: Crate {
            name: "serde".to_string(),
            max_version: "1.0.219".to_string(),
        },
        versions: vec![
            Version {
                crate_name: "serde".to_string(),
                features: Some(vec!["derive".to_string(), "std".to_string()]),
                num: "1.0.219".to_string(),
            },
            Version {
                crate_name: "serde".to_string(),
                features: Some(vec!["derive".to_string(), "std".to_string()]),
                num: "1.0.0".to_string(),
            },
        ],
    }
}

/// Test loading and saving a store round trip.
#[test]
fn test_load_and_save_storage() {
    let mut storage = JsonStorage::default();

    storage.add(JsonDependency {
        name: "serde".to_string(),
        version: "1.0.0".to_string(),
        features: Some(vec!["derive".to_string()]),
        path_to_snippet: None,
    });

    // Save the data and load it back.
    let text = storage.save();
    let loaded_storage = JsonStorage::load(&text);

    // Verify that the data matches.
    assert_eq!(loaded_storage.len(), 1);
    assert!(loaded_storage.contains("serde"));
    let serde_dep = loaded_storage.get("serde").unwrap();

    assert_eq!(serde_dep.name, "serde");
    assert_eq!(serde_dep.version, "1.0.0");
    assert_eq!(serde_dep.features, Some(vec!["derive".to_string()]));
}

/// Test adding and removing dependencies.
#[test]
fn test_add_and_remove_dependency() {
    let mut json_storage = JsonStorage::default();

    // Add a dependency.
    let dep = JsonDependency {
        name: "tokio".to_string(),
        version: "1.0.0".to_string(),
        features: None,
        path_to_snippet: None,
    };
    json_storage.add(dep.clone());

    // Save and load the storage.
    let text = json_storage.save();
    let mut loaded_storage = JsonStorage::load(&text);

    // Verify that the dependency was added.
    assert_eq!(loaded_storage.len(), 1);
    assert!(loaded_storage.contains("tokio"));

    // Adding the same dependency again overwrites: still one entry.
    loaded_storage.add(dep);
    assert_eq!(loaded_storage.len(), 1);

    // Remove the dependency.
    json_storage.remove("tokio");

    // Save and load the storage again.
    let text = json_storage.save();
    let loaded_storage = JsonStorage::load(&text);

    // Verify that the dependency was removed.
    assert_eq!(loaded_storage.len(), 0);

    // Removing an absent name changes nothing and is no error.
    let mut untouched = JsonStorage::default();
    untouched.add(JsonDependency {
        name: "serde".to_string(),
        version: "1.0.0".to_string(),
        features: None,
        path_to_snippet: None,
    });
    untouched.remove("lsdkfjlksd");
    assert_eq!(untouched.len(), 1);
}

/// Test updating a dependency to the latest version.
#[test]
fn test_update_dependency() {
    let meta = serde_metadata();
    let mut json_storage = JsonStorage::default();

    // Add a dependency pinned to an old version.
    let dep =
        JsonDependency::new_full("serde", Some("1.0.0"), None, None, &meta).unwrap();
    json_storage.add(dep);

    // Save and load the storage.
    let text = json_storage.save();
    let loaded_storage = JsonStorage::load(&text);

    // Verify that the dependency was added.
    assert_eq!(loaded_storage.len(), 1);
    assert!(loaded_storage.contains("serde"));

    // Update the dependency to the latest version.
    let dep = json_storage.get_mut("serde").unwrap();
    dep.update(&meta).unwrap();

    // Save and load the storage again.
    let text = json_storage.save();
    let loaded_storage = JsonStorage::load(&text);

    // Verify that the version was updated.
    let serde_dep = loaded_storage.get("serde").unwrap();
    assert_ne!(serde_dep.version, "1.0.0");
    assert_eq!(serde_dep.version, "1.0.219");
}

/// Test creating a record with full metadata.
#[test]
fn test_create_json_dependency_full() {
    let meta = serde_metadata();
    let dep = JsonDependency::new_full(
        "serde",
        Some("1.0.0"),
        Some(&vec!["derive".to_string()]),
        None,
        &meta,
    )
    .unwrap();

    // Verify that the dependency was created with the correct metadata.
    assert_eq!(dep.name, "serde");
    assert_eq!(dep.version, "1.0.0");
    assert_eq!(dep.features, Some(vec!["derive".to_string()]));
}

/// Test error handling when creating a record.
#[test]
fn test_create_json_dependency_errors() {
    let meta = serde_metadata();

    // Test with a non-existent version.
    let result = JsonDependency::new_full("serde", Some("999.999.999"), None, None, &meta);
    assert!(result.is_err());
    assert!(matches!(
        result.unwrap_err(),
        LimpError::VersionNotFound(_)
    ));

    // Test with a snippet whose file is missing.
    let result = JsonDependency::new_full(
        "serde",
        Some("1.0.0"),
        None,
        Some(SnippetOutcome::Missing("./nonexistent/path".to_string())),
        &meta,
    );
    assert!(result.is_err());
    assert!(matches!(result.unwrap_err(), LimpError::SnippetNotFound(_)));
}

/// Test the manifest-line rendering of a record.
#[test]
fn test_json_dependency_display() {
    let dep = JsonDependency {
        name: "serde".to_string(),
        version: "1.0.0".to_string(),
        features: Some(vec!["derive".to_string()]),
        path_to_snippet: None,
    };

    // Verify the formatted output.
    let display_output = dep.display_string();
    assert_eq!(
        display_output,
        r#"serde = { version = "1.0.0", features = ["derive"] }"#
    );
}

/// Test a save/load round trip through the store's file text.
#[test]
fn test_json_storage_manager() {
    let mut storage = JsonStorage::default();
    storage.add(JsonDependency {
        name: "serde".to_string(),
        version: "1.0.0".to_string(),
        features: Some(vec!["derive".to_string()]),
        path_to_snippet: None,
    });

    // Save the data, load it back.
    let text = storage.save();
    let loaded_storage = JsonStorage::load(&text);

    // Verify that the data matches.
    assert_eq!(loaded_storage.len(), 1);
    assert!(loaded_storage.contains("serde"));
}

/// The resolved version without a request is the index's first, latest one.
#[test]
fn test_resolve_default_takes_latest() {
    let meta = serde_metadata();
    let dep = JsonDependency::new("serde", &meta).unwrap();
    assert_eq!(dep.name, "serde");
    assert_eq!(dep.version, "1.0.219");
    assert_eq!(dep.features, None);
    assert_eq!(dep.path_to_snippet, None);
}

/// Metadata without versions yields a version-not-found error.
#[test]
fn test_resolve_default_empty_metadata() {
    let meta = CratesIoDependency {
        crate_info: Crate {
            name: "ghost".to_string(),
            max_version: "0.0.0".to_string(),
        },
        versions: vec![],
    };
    let err = JsonDependency::new("ghost", &meta).unwrap_err();
    assert!(matches!(err, LimpError::VersionNotFound(_)));
    assert_eq!(err.message(), "Version not found: ghost/0");
}

/// A feature missing from the resolved version fails the whole request.
#[test]
fn test_incompatible_features() {
    let meta = serde_metadata();
    let err = JsonDependency::new_full(
        "serde",
        Some("1.0.0"),
        Some(&vec!["derive".to_string(), "nope".to_string()]),
        None,
        &meta,
    )
    .unwrap_err();
    assert!(matches!(err, LimpError::IncompatibleFeatures(_)));
    assert_eq!(err.message(), "Incompatible features: serde/1.0.0");
}

/// A version without any feature set rejects every feature request.
#[test]
fn test_features_on_featureless_version() {
    let meta = CratesIoDependency {
        crate_info: Crate {
            name: "bare".to_string(),
            max_version: "0.1.0".to_string(),
        },
        versions: vec![Version {
            crate_name: "bare".to_string(),
            features: None,
            num: "0.1.0".to_string(),
        }],
    };
    let err = JsonDependency::new_full(
        "bare",
        Some("0.1.0"),
        Some(&vec!["anything".to_string()]),
        None,
        &meta,
    )
    .unwrap_err();
    assert!(matches!(err, LimpError::IncompatibleFeatures(_)));
}

/// Features are checked against the latest version when none is requested.
#[test]
fn test_features_checked_without_version_request() {
    let meta = serde_metadata();
    let dep = JsonDependency::new_full(
        "serde",
        None,
        Some(&vec!["derive".to_string()]),
        None,
        &meta,
    )
    .unwrap();
    assert_eq!(dep.version, "1.0.219");
    assert_eq!(dep.features, Some(vec!["derive".to_string()]));

    let err = JsonDependency::new_full(
        "serde",
        None,
        Some(&vec!["wasm".to_string()]),
        None,
        &meta,
    )
    .unwrap_err();
    assert!(matches!(err, LimpError::IncompatibleFeatures(_)));
}

/// A stored snippet location lands on the record; every other snippet
/// outcome fails creation with its own error, none of them swallowed.
#[test]
fn test_snippet_outcomes() {
    let meta = serde_metadata();

    let dep = JsonDependency::new_full(
        "serde",
        Some("1.0.0"),
        None,
        Some(SnippetOutcome::Stored("/managed/serde.rs".to_string())),
        &meta,
    )
    .unwrap();
    assert_eq!(dep.path_to_snippet, Some("/managed/serde.rs".to_string()));

    // A collision with an existing managed snippet is its own error.
    let err = JsonDependency::new_full(
        "serde",
        Some("1.0.0"),
        None,
        Some(SnippetOutcome::Exists("serde".to_string())),
        &meta,
    )
    .unwrap_err();
    assert!(matches!(err, LimpError::SnippetExists(_)));
    assert_eq!(err.message(), "Snippet exists: serde");

    // A failed copy propagates its error.
    let err = JsonDependency::new_full(
        "serde",
        Some("1.0.0"),
        None,
        Some(SnippetOutcome::StoreFailed(LimpError::IOError(
            "disk full".to_string(),
        ))),
        &meta,
    )
    .unwrap_err();
    assert!(matches!(err, LimpError::IOError(_)));

    // A failed read propagates its error.
    let err = JsonDependency::new_full(
        "serde",
        Some("1.0.0"),
        None,
        Some(SnippetOutcome::ParseFailed(LimpError::EmptyFile(
            "snip.rs".to_string(),
        ))),
        &meta,
    )
    .unwrap_err();
    assert!(matches!(err, LimpError::EmptyFile(_)));
}

/// Version resolution comes before snippet linking: an unknown version is
/// the error reported, whatever the snippet outcome says.
#[test]
fn test_version_error_precedes_snippet() {
    let meta = serde_metadata();
    let err = JsonDependency::new_full(
        "serde",
        Some("999.999.999"),
        None,
        Some(SnippetOutcome::Missing("./nonexistent/path".to_string())),
        &meta,
    )
    .unwrap_err();
    assert!(matches!(err, LimpError::VersionNotFound(_)));
    assert_eq!(err.message(), "Version not found: serde/999.999.999");
}

/// Loading a missing or corrupt store file starts fresh, never errs.
#[test]
fn test_load_missing_or_corrupt_is_empty() {
    // A missing file reads as no text at all.
    let storage = JsonStorage::load("");
    assert_eq!(storage.len(), 0);

    // A corrupt file is not an error either.
    let storage = JsonStorage::load("{\"dependencies\":{oops");
    assert_eq!(storage.len(), 0);

    let storage = JsonStorage::load("not json at all");
    assert_eq!(storage.len(), 0);
}

/// The exact file text of a one-record store, and its round trip.
#[test]
fn test_save_exact_text() {
    let mut storage = JsonStorage::default();
    storage.add(JsonDependency {
        name: "serde".to_string(),
        version: "1.0.0".to_string(),
        features: Some(vec!["derive".to_string()]),
        path_to_snippet: None,
    });
    let text = storage.save();
    assert_eq!(
        text,
        r#"{"dependencies":{"serde":{"name":"serde","version":"1.0.0","features":["derive"]}}}"#
    );

    let empty = JsonStorage::default();
    assert_eq!(empty.save(), r#"{"dependencies":{}}"#);
}

/// Record fields that need escaping survive the save/load round trip.
#[test]
fn test_save_load_with_escapes() {
    let mut storage = JsonStorage::default();
    storage.add(JsonDependency {
        name: "odd".to_string(),
        version: "1.0.0".to_string(),
        features: None,
        path_to_snippet: Some("C:\\snip\\\"odd\".rs".to_string()),
    });
    let text = storage.save();
    let loaded = JsonStorage::load(&text);
    assert_eq!(loaded.len(), 1);
    let dep = loaded.get("odd").unwrap();
    assert_eq!(dep.path_to_snippet, Some("C:\\snip\\\"odd\".rs".to_string()));

    // Saving the loaded store reproduces the file text.
    assert_eq!(loaded.save(), text);
}

/// A borrowed record can be edited in place; the store keeps the edit.
#[test]
fn test_get_mut_edits_in_place() {
    let mut storage = JsonStorage::default();
    storage.add(JsonDependency {
        name: "serde".to_string(),
        version: "1.0.0".to_string(),
        features: None,
        path_to_snippet: None,
    });
    assert!(storage.get_mut("missing").is_none());
    let dep = storage.get_mut("serde").unwrap();
    dep.path_to_snippet = Some("/managed/serde.rs".to_string());
    assert_eq!(
        storage.get("serde").unwrap().path_to_snippet,
        Some("/managed/serde.rs".to_string())
    );
}
