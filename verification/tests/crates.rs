use limp::crates::{Crate, CratesIoDependency, Version};
use limp::error::LimpError;

const LAST_VERSION: &str = "0.2.1";
const VERSION_LENGTH: usize = 10;
const CRATE_NAME: &str = "limp";

const FEATURES: [&str; 4] = ["full", "net", "rt", "rt-multi-thread"];

/// Metadata for this tool's own crate: ten versions, newest first, the
/// newest with an empty feature set.
fn limp_metadata() -> CratesIoDependency {
    let numbers = [
        "0.2.1", "0.2.0", "0.1.8", "0.1.7", "0.1.6", "0.1.5", "0.1.4", "0.1.3", "0.1.2", "0.1.0",
    ];
    let versions = numbers
        .iter()
        .map(|num| Version {
            crate_name: CRATE_NAME.to_string(),
            features: Some(vec![]),
            num: num.to_string(),
        })
        .collect();
    CratesIoDependency {
        crate_info: Crate {
            name: CRATE_NAME.to_string(),
            max_version: LAST_VERSION.to_string(),
        },
        versions,
    }
}

/// Metadata for a crate with a full feature set on its latest version.
fn tokio_metadata() -> CratesIoDependency {
    let mut features: Vec<String> = FEATURES.iter().map(|f| f.to_string()).collect();
    for extra in [
        "fs", "io-std", "io-util", "macros", "process", "signal", "sync", "time", "test-util",
        "tracing",
    ] {
        features.push(extra.to_string());
    }
    CratesIoDependency {
        crate_info: Crate {
            name: "tokio".to_string(),
            max_version: "1.0.0".to_string(),
        },
        versions: vec![Version {
            crate_name: "tokio".to_string(),
            features: Some(features),
            num: "1.0.0".to_string(),
        }],
    }
}

/// Test retrieving all versions of a crate.
#[test]
fn test_get_all_versions() {
    let dep = limp_metadata();

    // Retrieve all versions.
    let all_versions = dep.get_all_versions();

    // Verify the versions.
    assert_eq!(all_versions.len(), VERSION_LENGTH);
    assert_eq!(all_versions[VERSION_LENGTH - 1].num, "0.1.0");
    assert_eq!(all_versions[0].num, LAST_VERSION);
}

/// Test retrieving a specific version of a crate.
#[test]
fn test_get_version() {
    let dep = limp_metadata();

    // Retrieve a specific version.
    let version = dep.get_version(0).unwrap();

    // Verify the version.
    assert_eq!(version.num, LAST_VERSION);
    assert_eq!(version.crate_name, CRATE_NAME);
}

/// Test retrieving features for a specific version.
#[test]
fn test_get_features() {
    let dep = limp_metadata();

    // Retrieve features for a specific version.
    assert!(dep.get_features(0).is_some_and(|f| f.is_empty()));

    let dep = tokio_metadata();

    // Retrieve features for a specific version.
    let features = dep.get_features(0);

    assert!(features.is_some());

    let features = features.unwrap();

    // Verify the features.
    assert_eq!(features.len(), 14);
    for feature in FEATURES {
        assert!(features.contains(&feature.to_string()));
    }
}

/// Test error handling for an invalid version position.
#[test]
fn test_get_version_error() {
    let dep = limp_metadata();

    // Attempt to retrieve an invalid version.
    let result = dep.get_version(999);

    // Verify the error.
    assert!(result.is_err());
    let err = result.unwrap_err();
    assert!(matches!(err, LimpError::VersionNotFound(_)));
    assert_eq!(err.message(), "Version not found: limp/999");
}

/// A version without a feature set reports none.
#[test]
fn test_version_without_features() {
    let version = Version {
        crate_name: "bare".to_string(),
        features: None,
        num: "0.1.0".to_string(),
    };
    assert!(version.get_features().is_none());

    let meta = CratesIoDependency {
        crate_info: Crate {
            name: "bare".to_string(),
            max_version: "0.1.0".to_string(),
        },
        versions: vec![Version {
            crate_name: "bare".to_string(),
            features: None,
            num: "0.1.0".to_string(),
        }],
    };
    assert!(meta.get_features(0).is_none());
    assert!(meta.get_features(7).is_none());
}
