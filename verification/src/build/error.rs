//! Why a build fails.

use crate::build::download::DownloadError;
use crate::elf::InspectError;
use crate::runner::RunError;
use crate::template::TemplateError;
use vstd::prelude::*;
use vstd::string::*;

verus! {

/// Why a build failed.
#[derive(Debug)]
pub enum BuildError {
    /// A text of the recipe could not be expanded.
    Template { error: TemplateError },
    /// The address of the source does not end in a file name.
    NoFilename,
    /// The source could not be downloaded.
    Download { url: String, reason: DownloadError },
    /// The release index does not publish a digest, and the recipe relies on one.
    NoIndexDigest,
    /// The digest differs from that of the release index.
    IndexMismatch { expected: String, got: String },
    /// The recipe leaves out the digest that it wants checked.
    NoValue,
    /// The digest differs from that of the recipe.
    Mismatch { expected: String, got: String },
    /// The recipe leaves out the address of its manifest.
    NoManifestUrl,
    /// The manifest could not be fetched.
    NoManifest { url: String, cause: String },
    /// The manifest broke off, or is no text.
    ManifestBody { cause: String },
    /// The manifest does not list the file.
    NotListed { filename: String, url: String },
    /// The digest differs from that of the manifest.
    ManifestMismatch { url: String, expected: String, got: String },
    /// A step failed.
    StepFailed { name: String, failure: RunError },
    /// A file that is to be verified does not exist.
    Missing { path: String },
    /// A file that is to be verified could not be read.
    Unreadable { fault: InspectError },
    /// A file is no position independent executable.
    NotPie { path: String },
    /// A file needs libraries that it should not need.
    NotSelfContained { path: String },
}

impl BuildError {
    /// The error in words, what caused it after a colon.
    pub open spec fn words(self) -> Seq<char> {
        match self {
            BuildError::Template { error } => error.words(),
            BuildError::NoFilename => "source url has no filename"@,
            BuildError::Download { url, reason } => "downloading "@ + url@ + ": "@ + reason.words(),
            BuildError::NoIndexDigest =>
                "checksum kind 'from-index' needs a resolver that publishes digests"@,
            BuildError::IndexMismatch { expected, got } =>
                "checksum mismatch against the release index: expected "@ + expected@ + ", got "@
                + got@,
            BuildError::NoValue => "checksum kind 'sha256' needs a `value`"@,
            BuildError::Mismatch { expected, got } => "checksum mismatch: expected "@ + expected@
                + ", got "@ + got@,
            BuildError::NoManifestUrl => "checksum kind 'sha256-manifest' needs a `url`"@,
            BuildError::NoManifest { url, cause } => "fetching "@ + url@ + ": "@ + cause@,
            BuildError::ManifestBody { cause } => cause@,
            BuildError::NotListed { filename, url } => filename@ + " is not listed in "@ + url@,
            BuildError::ManifestMismatch { url, expected, got } => "checksum mismatch against "@
                + url@ + ": expected "@ + expected@ + ", got "@ + got@,
            BuildError::StepFailed { name, failure } => "step '"@ + name@ + "' failed: "@
                + failure.words(),
            BuildError::Missing { path } => path@ + " does not exist"@,
            BuildError::Unreadable { fault } => fault.words(),
            BuildError::NotPie { path } => path@ + " is not a position independent executable"@,
            BuildError::NotSelfContained { path } => path@ + " is not self-contained"@,
        }
    }

    /// The error in words, what caused it after a colon.
    pub fn message(&self) -> (text: String)
        ensures
            text@ == self.words(),
    {
        match self {
            BuildError::Template { error } => error.message(),
            BuildError::NoFilename => "source url has no filename".to_owned(),
            BuildError::Download { url, reason } => {
                let mut text = "downloading ".to_owned();
                text.append(url.as_str());
                text.append(": ");
                text.append(reason.message().as_str());
                text
            },
            BuildError::NoIndexDigest =>
                "checksum kind 'from-index' needs a resolver that publishes digests".to_owned(),
            BuildError::IndexMismatch { expected, got } => {
                let mut text = "checksum mismatch against the release index: expected ".to_owned();
                text.append(expected.as_str());
                text.append(", got ");
                text.append(got.as_str());
                text
            },
            BuildError::NoValue => "checksum kind 'sha256' needs a `value`".to_owned(),
            BuildError::Mismatch { expected, got } => {
                let mut text = "checksum mismatch: expected ".to_owned();
                text.append(expected.as_str());
                text.append(", got ");
                text.append(got.as_str());
                text
            },
            BuildError::NoManifestUrl => "checksum kind 'sha256-manifest' needs a `url`".to_owned(),
            BuildError::NoManifest { url, cause } => {
                let mut text = "fetching ".to_owned();
                text.append(url.as_str());
                text.append(": ");
                text.append(cause.as_str());
                text
            },
            BuildError::ManifestBody { cause } => cause.clone(),
            BuildError::NotListed { filename, url } => {
                let mut text = filename.clone();
                text.append(" is not listed in ");
                text.append(url.as_str());
                text
            },
            BuildError::ManifestMismatch { url, expected, got } => {
                let mut text = "checksum mismatch against ".to_owned();
                text.append(url.as_str());
                text.append(": expected ");
                text.append(expected.as_str());
                text.append(", got ");
                text.append(got.as_str());
                text
            },
            BuildError::StepFailed { name, failure } => {
                let mut text = "step '".to_owned();
                text.append(name.as_str());
                text.append("' failed: ");
                text.append(failure.message().as_str());
                text
            },
            BuildError::Missing { path } => {
                let mut text = path.clone();
                text.append(" does not exist");
                text
            },
            BuildError::Unreadable { fault } => fault.message(),
            BuildError::NotPie { path } => {
                let mut text = path.clone();
                text.append(" is not a position independent executable");
                text
            },
            BuildError::NotSelfContained { path } => {
                let mut text = path.clone();
                text.append(" is not self-contained");
                text
            },
        }
    }
}

} // verus!
