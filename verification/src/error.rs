//! What can go wrong while a listing is made.

use vstd::prelude::*;

verus! {

/// Why a listing could not be made.
#[derive(Debug)]
pub enum LicenseError {
    /// The path of the manifest is not UTF-8.
    NonUtf8ManifestPath,
    /// Cargo could not be started.
    CargoNotStarted { arguments: String },
    /// Cargo ended without success.
    CargoFailed { arguments: String },
    /// The metadata hold no dependency graph.
    NoResolveGraph,
    /// A crate names no license.
    NoLicense { name: String, version: String },
    /// The license expression of a crate cannot be parsed.
    CannotParse { license: String, name: String, version: String, reason: String },
    /// The license expression of a crate is not satisfied by the accepted licenses.
    NotAccepted { license: String, name: String, version: String },
}

/// The contents of a [`LicenseError`].
pub enum Failure {
    NonUtf8ManifestPath,
    CargoNotStarted { arguments: Seq<char> },
    CargoFailed { arguments: Seq<char> },
    NoResolveGraph,
    NoLicense { name: Seq<char>, version: Seq<char> },
    CannotParse { license: Seq<char>, name: Seq<char>, version: Seq<char>, reason: Seq<char> },
    NotAccepted { license: Seq<char>, name: Seq<char>, version: Seq<char> },
}

impl View for LicenseError {
    type V = Failure;

    open spec fn view(&self) -> Failure {
        match *self {
            LicenseError::NonUtf8ManifestPath => Failure::NonUtf8ManifestPath,
            LicenseError::CargoNotStarted { arguments } => Failure::CargoNotStarted {
                arguments: arguments@,
            },
            LicenseError::CargoFailed { arguments } => Failure::CargoFailed {
                arguments: arguments@,
            },
            LicenseError::NoResolveGraph => Failure::NoResolveGraph,
            LicenseError::NoLicense { name, version } => Failure::NoLicense {
                name: name@,
                version: version@,
            },
            LicenseError::CannotParse { license, name, version, reason } => Failure::CannotParse {
                license: license@,
                name: name@,
                version: version@,
                reason: reason@,
            },
            LicenseError::NotAccepted { license, name, version } => Failure::NotAccepted {
                license: license@,
                name: name@,
                version: version@,
            },
        }
    }
}

/// The sentence that tells a user of `failure`.
pub open spec fn failure_message(failure: Failure) -> Seq<char> {
    match failure {
        Failure::NonUtf8ManifestPath => "Non-UTF-8 manifest path"@,
        Failure::CargoNotStarted { arguments } => "Failed to run cargo "@ + arguments,
        Failure::CargoFailed { arguments } => "cargo "@ + arguments + " failed"@,
        Failure::NoResolveGraph => "cargo metadata returned no resolve graph"@,
        Failure::NoLicense { name, version } => "Crate "@ + name + " "@ + version
            + " has no license information"@,
        Failure::CannotParse { license, name, version, .. } => "Cannot parse license `"@ + license
            + "` of "@ + name + " "@ + version,
        Failure::NotAccepted { license, name, version } => "License `"@ + license + "` of crate "@
            + name + " "@ + version + " is not in the accepted list"@,
    }
}

/// The cause behind `failure` that is worth telling too.
pub open spec fn failure_cause(failure: Failure) -> Option<Seq<char>> {
    match failure {
        Failure::CannotParse { reason, .. } => Some(reason),
        _ => None,
    }
}

impl LicenseError {
    /// The sentence that tells a user of the error.
    pub fn message(&self) -> (r: String)
        ensures
            r@ == failure_message(self@),
    {
        let mut out = String::new();
        match self {
            LicenseError::NonUtf8ManifestPath => {
                out.append("Non-UTF-8 manifest path");
            },
            LicenseError::CargoNotStarted { arguments } => {
                out.append("Failed to run cargo ");
                out.append(arguments.as_str());
            },
            LicenseError::CargoFailed { arguments } => {
                out.append("cargo ");
                out.append(arguments.as_str());
                out.append(" failed");
            },
            LicenseError::NoResolveGraph => {
                out.append("cargo metadata returned no resolve graph");
            },
            LicenseError::NoLicense { name, version } => {
                out.append("Crate ");
                out.append(name.as_str());
                out.append(" ");
                out.append(version.as_str());
                out.append(" has no license information");
            },
            LicenseError::CannotParse { license, name, version, .. } => {
                out.append("Cannot parse license `");
                out.append(license.as_str());
                out.append("` of ");
                out.append(name.as_str());
                out.append(" ");
                out.append(version.as_str());
            },
            LicenseError::NotAccepted { license, name, version } => {
                out.append("License `");
                out.append(license.as_str());
                out.append("` of crate ");
                out.append(name.as_str());
                out.append(" ");
                out.append(version.as_str());
                out.append(" is not in the accepted list");
            },
        }
        out
    }

    /// The cause behind the error, where there is one.
    pub fn cause(&self) -> (r: Option<String>)
        ensures
            r is Some == failure_cause(self@) is Some,
            r matches Some(text) ==> failure_cause(self@) == Some(text@),
    {
        match self {
            LicenseError::CannotParse { reason, .. } => Some(reason.clone()),
            _ => None,
        }
    }
}

} // verus!
