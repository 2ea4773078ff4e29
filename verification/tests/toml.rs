use limp::toml::{add_dependency_line, Dependency, DependencyInfo, Project};

/// The throwaway dependency holds its fixed version and feature.
#[test]
fn test_dependency_test_values() {
    let d = Dependency::test("anything");
    assert_eq!(d.name, "anything");
    assert_eq!(d.version, "2039482398408");
    assert_eq!(d.features, Some(vec!["hellol".to_string()]));
}

/// A stored entry turns into a manifest dependency under its name.
#[test]
fn test_dependency_from_jd() {
    let di = DependencyInfo {
        version: "1.0.0".to_string(),
        features: Some(vec!["derive".to_string()]),
        path_to_snippet: Some("/managed/serde.rs".to_string()),
    };
    let d = Dependency::from_jd("serde", &di);
    assert_eq!(d.name, "serde");
    assert_eq!(d.version, "1.0.0");
    assert_eq!(d.features, Some(vec!["derive".to_string()]));
}

/// A dependency without features renders as `name = "version"`.
#[test]
fn test_dependency_display_plain() {
    let d = Dependency {
        name: "tokio".to_string(),
        version: "1.0.0".to_string(),
        features: None,
    };
    assert_eq!(d.display_string(), "tokio = \"1.0.0\"");
}

/// A dependency with features renders the braced manifest form.
#[test]
fn test_dependency_display_features() {
    let d = Dependency {
        name: "serde".to_string(),
        version: "1.0.0".to_string(),
        features: Some(vec!["derive".to_string(), "std".to_string()]),
    };
    assert_eq!(
        d.display_string(),
        r#"serde = { version = "1.0.0", features = ["derive", "std"] }"#
    );
}

/// A new project carries the default version and edition.
#[test]
fn test_project_new() {
    let p = Project::new("demo", vec![]);
    assert_eq!(p.name, "demo");
    assert_eq!(p.version, "0.1.0");
    assert_eq!(p.edition, "2021");
    assert_eq!(p.dependencies.len(), 0);
}

/// The manifest text lists the package fields and every dependency line.
#[test]
fn test_project_manifest_text() {
    let deps = vec![
        Dependency {
            name: "serde".to_string(),
            version: "1.0.0".to_string(),
            features: Some(vec!["derive".to_string()]),
        },
        Dependency {
            name: "tokio".to_string(),
            version: "1.0.0".to_string(),
            features: None,
        },
    ];
    let p = Project::new("demo", deps);
    assert_eq!(
        p.manifest_text(),
        "[package]\nname = \"demo\"\nversion = \"0.1.0\"\nedition = \"2021\"\n\n[dependencies]\nserde = { version = \"1.0.0\", features = [\"derive\"] }\ntokio = \"1.0.0\"\n"
    );
}

/// The defaults name the tool itself.
#[test]
fn test_project_default() {
    let p = Project::default();
    assert_eq!(p.name, "limp");
    assert_eq!(p.version, "0.1.0");
    assert_eq!(p.edition, "2021");
    assert!(p.dependencies.is_empty());

    let di = DependencyInfo::default();
    assert_eq!(di.version, "");
    assert!(di.features.is_none());
    assert!(di.path_to_snippet.is_none());
}

/// A manifest that already has a dependencies section gets the line at
/// its end; one without gets the section first.
#[test]
fn test_add_dependency_line() {
    let with_section = "[package]\nname = \"demo\"\n\n[dependencies]\n";
    let edited = add_dependency_line(with_section, "serde = \"1.0.0\"");
    assert_eq!(
        edited,
        "[package]\nname = \"demo\"\n\n[dependencies]\nserde = \"1.0.0\"\n"
    );

    let without_section = "[package]\nname = \"demo\"\n";
    let edited = add_dependency_line(without_section, "serde = \"1.0.0\"");
    assert_eq!(
        edited,
        "[package]\nname = \"demo\"\n\n[dependencies]\nserde = \"1.0.0\"\n"
    );
}
