//! What is asked for on the command line, and how cargo is called for it.

use crate::error::{Failure, LicenseError};
use std::path::PathBuf;
use vstd::prelude::*;

verus! {

/// A path of the file system.
#[verifier::external_type_specification]
#[verifier::external_body]
pub struct ExPathBuf(PathBuf);

/// `clone` of `std`'s `PathBuf` gives the same path.
pub assume_specification[ <PathBuf as Clone>::clone ](path: &PathBuf) -> (r: PathBuf)
    ensures
        r == *path,
;

/// The form of the listing.
#[derive(Debug, Clone, Copy, PartialEq, Eq, Structural)]
pub enum Format {
    Html,
    /// `cargo about`-compatible JSON, for the generators of a documentation site.
    Json,
}

/// The command line.
#[derive(Debug)]
pub struct LicenseCommand {
    /// Path to the `Cargo.toml` whose dependencies should be analyzed.
    /// Defaults to `Cargo.toml` in the current directory.
    pub manifest_path: Option<String>,
    /// Features to enable on the analyzed crate.
    pub features: Vec<String>,
    /// Do not enable the analyzed crate's default features.
    pub no_default_features: bool,
    /// Enable all features of the analyzed crate.
    pub all_features: bool,
    /// Output format.
    pub format: Format,
    /// Where to write the result. Writes to stdout when omitted.
    pub output: Option<PathBuf>,
}

/// Which features to enable on the analyzed crate, mirroring cargo's flags.
#[derive(Debug)]
pub struct Features {
    pub features: Vec<String>,
    pub no_default_features: bool,
    pub all_features: bool,
}

/// What to generate.
#[derive(Debug)]
pub struct GenerateArgs {
    /// The manifest, relative to the current directory where it is no absolute path.
    pub manifest_path: String,
    pub features: Features,
    pub format: Format,
    pub output: Option<PathBuf>,
}

/// A feature flag for cargo.
#[derive(Debug)]
pub enum CargoOpt {
    SomeFeatures(Vec<String>),
    NoDefaultFeatures,
    AllFeatures,
}

/// The contents of a [`CargoOpt`].
pub enum FeatureFlag {
    SomeFeatures(Seq<String>),
    NoDefaultFeatures,
    AllFeatures,
}

impl View for CargoOpt {
    type V = FeatureFlag;

    open spec fn view(&self) -> FeatureFlag {
        match *self {
            CargoOpt::SomeFeatures(features) => FeatureFlag::SomeFeatures(features@),
            CargoOpt::NoDefaultFeatures => FeatureFlag::NoDefaultFeatures,
            CargoOpt::AllFeatures => FeatureFlag::AllFeatures,
        }
    }
}

/// The contents of texts.
pub open spec fn texts_of(list: Seq<String>) -> Seq<Seq<char>> {
    list.map_values(|s: String| s@)
}

/// The feature flags for `features`, in order.
pub open spec fn feature_flags(features: Features) -> Seq<FeatureFlag> {
    let some = if features.features@.len() > 0 {
        seq![FeatureFlag::SomeFeatures(features.features@)]
    } else {
        Seq::empty()
    };
    let none = if features.no_default_features {
        seq![FeatureFlag::NoDefaultFeatures]
    } else {
        Seq::empty()
    };
    let all = if features.all_features {
        seq![FeatureFlag::AllFeatures]
    } else {
        Seq::empty()
    };
    some + none + all
}

/// `parts` with a space between each and the next.
pub open spec fn spaced(parts: Seq<Seq<char>>) -> Seq<char>
    decreases parts.len(),
{
    if parts.len() == 0 {
        Seq::empty()
    } else if parts.len() == 1 {
        parts[0]
    } else {
        spaced(parts.drop_last()) + " "@ + parts.last()
    }
}

impl Default for Features {
    fn default() -> (r: Features)
        ensures
            r.features@.len() == 0,
            !r.no_default_features,
            !r.all_features,
    {
        Features { features: Vec::new(), no_default_features: false, all_features: false }
    }
}

/// The same texts.
fn copy_texts(list: &Vec<String>) -> (r: Vec<String>)
    ensures
        r@ == list@,
{
    let mut out: Vec<String> = Vec::new();
    let mut i: usize = 0;
    while i < list.len()
        invariant
            i <= list@.len(),
            out@ == list@.take(i as int),
        decreases list@.len() - i,
    {
        out.push(list[i].clone());
        i += 1;
    }
    out
}

impl LicenseCommand {
    /// What the command line asks to generate.
    pub fn run(&self) -> (r: GenerateArgs)
        ensures
            r.manifest_path@ == (match self.manifest_path {
                Some(path) => path@,
                None => "Cargo.toml"@,
            }),
            r.features.features@ == self.features@,
            r.features.no_default_features == self.no_default_features,
            r.features.all_features == self.all_features,
            r.format == self.format,
            r.output == self.output,
    {
        let manifest_path = match &self.manifest_path {
            Some(path) => path.clone(),
            None => "Cargo.toml".to_owned(),
        };
        let output = match &self.output {
            Some(path) => Some(path.clone()),
            None => None,
        };
        GenerateArgs {
            manifest_path,
            features: Features {
                features: copy_texts(&self.features),
                no_default_features: self.no_default_features,
                all_features: self.all_features,
            },
            format: self.format,
            output,
        }
    }
}

/// The feature flags with which the metadata are asked for.
pub fn cargo_options(features: &Features) -> (r: Vec<CargoOpt>)
    ensures
        r@.map_values(|o: CargoOpt| o@) == feature_flags(*features),
{
    let mut out: Vec<CargoOpt> = Vec::new();
    if features.features.len() > 0 {
        out.push(CargoOpt::SomeFeatures(copy_texts(&features.features)));
    }
    if features.no_default_features {
        out.push(CargoOpt::NoDefaultFeatures);
    }
    if features.all_features {
        out.push(CargoOpt::AllFeatures);
    }
    assert(out@.map_values(|o: CargoOpt| o@) == feature_flags(*features));
    out
}

/// The arguments with which cargo fetches (for all targets) the relevant crate sources
/// into its cache, so that license texts can be harvested from it. `manifest_path` is
/// `None` where the path is not UTF-8.
pub fn fetch_dependencies(manifest_path: Option<&str>) -> (r: Result<Vec<String>, LicenseError>)
    ensures
        match (manifest_path, r) {
            (Some(manifest), Ok(args)) => texts_of(args@) == seq![
                "fetch"@,
                "--manifest-path"@,
                manifest@,
            ],
            (None, Err(error)) => error@ == Failure::NonUtf8ManifestPath,
            _ => false,
        },
{
    match manifest_path {
        Some(manifest) => {
            let mut args: Vec<String> = Vec::new();
            args.push("fetch".to_owned());
            args.push("--manifest-path".to_owned());
            args.push(manifest.to_owned());
            assert(texts_of(args@) == seq!["fetch"@, "--manifest-path"@, manifest@]);
            Ok(args)
        },
        None => Err(LicenseError::NonUtf8ManifestPath),
    }
}

/// The program to call for cargo, given what the environment variable `CARGO` holds.
pub fn cargo_program(variable: Option<&str>) -> (r: String)
    ensures
        r@ == (match variable {
            Some(program) => program@,
            None => "cargo"@,
        }),
{
    match variable {
        Some(program) => program.to_owned(),
        None => "cargo".to_owned(),
    }
}

/// The arguments with a space between each and the next.
fn joined(args: &Vec<String>) -> (r: String)
    ensures
        r@ == spaced(texts_of(args@)),
{
    let ghost all = texts_of(args@);
    let mut out = String::new();
    let mut i: usize = 0;
    assert(spaced(all.take(0)) == Seq::<char>::empty());
    while i < args.len()
        invariant
            i <= args@.len(),
            all == texts_of(args@),
            out@ == spaced(all.take(i as int)),
        decreases args@.len() - i,
    {
        assert(all.take(i + 1).drop_last() == all.take(i as int));
        assert(all.take(i + 1).last() == args@[i as int]@);
        let ghost before = out@;
        if i > 0 {
            out.append(" ");
        }
        out.append(args[i].as_str());
        assert(i == 0 ==> out@ == args@[0]@);
        i += 1;
    }
    assert(all.take(args@.len() as int) == all);
    out
}

/// What a call of cargo with `args` comes to. `success` is `None` where cargo could not
/// be started, else whether it ended with success.
pub fn run_cargo(args: &Vec<String>, success: Option<bool>) -> (r: Result<(), LicenseError>)
    ensures
        match (success, r) {
            (Some(true), Ok(_)) => true,
            (Some(false), Err(error)) => error@ == (Failure::CargoFailed {
                arguments: spaced(texts_of(args@)),
            }),
            (None, Err(error)) => error@ == (Failure::CargoNotStarted {
                arguments: spaced(texts_of(args@)),
            }),
            _ => false,
        },
{
    match success {
        Some(true) => Ok(()),
        Some(false) => Err(LicenseError::CargoFailed { arguments: joined(args) }),
        None => Err(LicenseError::CargoNotStarted { arguments: joined(args) }),
    }
}

} // verus!
