//! Error type for every operation of the tool.
//!
//! Each variant carries the detail text that is interpolated into the
//! one-line description that `message` produces.

use vstd::prelude::*;

verus! {

/// The errors that the tool's operations can report.
#[derive(Debug)]
pub enum LimpError {
    /// An operation involving file I/O failed.
    IOError(String),
    /// A crate with this name already exists.
    CrateExists(String),
    /// A crate with this name already exists and is not empty.
    CrateExistsNotEmpty(String),
    /// A document could not be parsed.
    ParserError(String),
    /// Version-control initialization failed.
    GitError(String),
    /// A request to the package index failed.
    HttpError(String),
    /// The queried package is absent from the index.
    CrateNotFound(String),
    /// The requested version is absent from the fetched metadata.
    VersionNotFound(String),
    /// The snippet file to link is missing.
    SnippetNotFound(String),
    /// A managed snippet of this name already exists.
    SnippetExists(String),
    /// A requested feature is absent from the resolved version.
    IncompatibleFeatures(String),
    /// No manifest file was found to add the dependency to.
    CargoTomlNotFound(String),
    /// The given file is empty or has no usable extension.
    EmptyFile(String),
    /// The requested operation is not supported.
    NotSupported(String),
    /// The operation referenced an unknown store key.
    DependencyNotFound(String),
    /// A record with this name is already stored.
    DependencyAlreadyExists(String),
}

impl LimpError {
    /// The fixed text that introduces this kind of error.
    pub open spec fn spec_prefix(&self) -> Seq<char> {
        match self {
            LimpError::IOError(_) => "IO error: "@,
            LimpError::CrateExists(_) => "Crate already exists: "@,
            LimpError::CrateExistsNotEmpty(_) => "Crate already exists and is not empty: "@,
            LimpError::ParserError(_) => "Parser error: "@,
            LimpError::GitError(_) => "Git creation error: "@,
            LimpError::HttpError(_) => "HTTP error: "@,
            LimpError::CrateNotFound(_) => "Crate not found: "@,
            LimpError::VersionNotFound(_) => "Version not found: "@,
            LimpError::SnippetNotFound(_) => "Snippet not found: "@,
            LimpError::SnippetExists(_) => "Snippet exists: "@,
            LimpError::IncompatibleFeatures(_) => "Incompatible features: "@,
            LimpError::CargoTomlNotFound(_) => "Cannot add dependency: "@,
            LimpError::EmptyFile(_) => "Empty file: "@,
            LimpError::NotSupported(_) => "Not supported: "@,
            LimpError::DependencyNotFound(_) => "Dependency not found: "@,
            LimpError::DependencyAlreadyExists(_) => "Dependency already exists: "@,
        }
    }

    /// The detail text that the variant carries.
    pub open spec fn spec_detail(&self) -> Seq<char> {
        match self {
            LimpError::IOError(d) => d@,
            LimpError::CrateExists(d) => d@,
            LimpError::CrateExistsNotEmpty(d) => d@,
            LimpError::ParserError(d) => d@,
            LimpError::GitError(d) => d@,
            LimpError::HttpError(d) => d@,
            LimpError::CrateNotFound(d) => d@,
            LimpError::VersionNotFound(d) => d@,
            LimpError::SnippetNotFound(d) => d@,
            LimpError::SnippetExists(d) => d@,
            LimpError::IncompatibleFeatures(d) => d@,
            LimpError::CargoTomlNotFound(d) => d@,
            LimpError::EmptyFile(d) => d@,
            LimpError::NotSupported(d) => d@,
            LimpError::DependencyNotFound(d) => d@,
            LimpError::DependencyAlreadyExists(d) => d@,
        }
    }

    /// The one-line description of the error: its prefix followed by the
    /// detail the variant carries.
    pub open spec fn spec_message(&self) -> Seq<char> {
        self.spec_prefix() + self.spec_detail()
    }

    /// The fixed text that introduces this kind of error.
    pub fn prefix_str(&self) -> (r: &'static str)
        ensures
            r@ == self.spec_prefix(),
    {
        match self {
            LimpError::IOError(_) => "IO error: ",
            LimpError::CrateExists(_) => "Crate already exists: ",
            LimpError::CrateExistsNotEmpty(_) => "Crate already exists and is not empty: ",
            LimpError::ParserError(_) => "Parser error: ",
            LimpError::GitError(_) => "Git creation error: ",
            LimpError::HttpError(_) => "HTTP error: ",
            LimpError::CrateNotFound(_) => "Crate not found: ",
            LimpError::VersionNotFound(_) => "Version not found: ",
            LimpError::SnippetNotFound(_) => "Snippet not found: ",
            LimpError::SnippetExists(_) => "Snippet exists: ",
            LimpError::IncompatibleFeatures(_) => "Incompatible features: ",
            LimpError::CargoTomlNotFound(_) => "Cannot add dependency: ",
            LimpError::EmptyFile(_) => "Empty file: ",
            LimpError::NotSupported(_) => "Not supported: ",
            LimpError::DependencyNotFound(_) => "Dependency not found: ",
            LimpError::DependencyAlreadyExists(_) => "Dependency already exists: ",
        }
    }

    /// The detail text that the variant carries.
    pub fn detail_str(&self) -> (r: &str)
        ensures
            r@ == self.spec_detail(),
    {
        match self {
            LimpError::IOError(d) => d.as_str(),
            LimpError::CrateExists(d) => d.as_str(),
            LimpError::CrateExistsNotEmpty(d) => d.as_str(),
            LimpError::ParserError(d) => d.as_str(),
            LimpError::GitError(d) => d.as_str(),
            LimpError::HttpError(d) => d.as_str(),
            LimpError::CrateNotFound(d) => d.as_str(),
            LimpError::VersionNotFound(d) => d.as_str(),
            LimpError::SnippetNotFound(d) => d.as_str(),
            LimpError::SnippetExists(d) => d.as_str(),
            LimpError::IncompatibleFeatures(d) => d.as_str(),
            LimpError::CargoTomlNotFound(d) => d.as_str(),
            LimpError::EmptyFile(d) => d.as_str(),
            LimpError::NotSupported(d) => d.as_str(),
            LimpError::DependencyNotFound(d) => d.as_str(),
            LimpError::DependencyAlreadyExists(d) => d.as_str(),
        }
    }

    /// The one-line description of the error, as printed to standard error.
    pub fn message(&self) -> (r: String)
        ensures
            r@ == self.spec_message(),
    {
        let mut r = String::from_str(self.prefix_str());
        r.append(self.detail_str());
        r
    }
}

} // verus!
