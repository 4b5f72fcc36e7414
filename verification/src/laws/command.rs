//! What holds of the calls of cargo and of what is told when something goes wrong.

use crate::command::{feature_flags, spaced, texts_of, CargoOpt, FeatureFlag, Features, Format};
use crate::error::{failure_cause, failure_message, Failure, LicenseError};
use crate::generate::generated;
use crate::html::page;
use crate::json::{document, pretty_json};
use crate::listing::{all_listings, listed_sections, CrateInput};
use vstd::prelude::*;

verus! {

/// Each flag is handed on exactly where it is asked for, once, and the list of features, if
/// any, comes first.
pub proof fn flags_are_those_asked_for(features: Features)
    ensures
        ({
            let flags = feature_flags(features);
            let some = features.features@.len() > 0;
            &&& some ==> flags.len() > 0 && flags[0] == FeatureFlag::SomeFeatures(
                features.features@,
            )
            &&& !some ==> forall|i: int|
                0 <= i < flags.len() ==> !(#[trigger] flags[i] is SomeFeatures)
            &&& flags.contains(FeatureFlag::NoDefaultFeatures) <==> features.no_default_features
            &&& flags.contains(FeatureFlag::AllFeatures) <==> features.all_features
            &&& flags.len() == (if some {
                1int
            } else {
                0
            }) + (if features.no_default_features {
                1int
            } else {
                0
            }) + (if features.all_features {
                1int
            } else {
                0
            })
        }),
{
    let flags = feature_flags(features);
    let some: int = if features.features@.len() > 0 { 1 } else { 0 };
    let none: int = if features.no_default_features { 1 } else { 0 };
    if features.no_default_features {
        assert(flags[some] == FeatureFlag::NoDefaultFeatures);
    }
    if features.all_features {
        assert(flags[some + none] == FeatureFlag::AllFeatures);
    }
}

/// A flag keeps its features.
pub proof fn flag_keeps_its_features(option: CargoOpt)
    ensures
        match (option, option@) {
            (CargoOpt::SomeFeatures(given), FeatureFlag::SomeFeatures(kept)) => given@ == kept,
            (CargoOpt::NoDefaultFeatures, FeatureFlag::NoDefaultFeatures) => true,
            (CargoOpt::AllFeatures, FeatureFlag::AllFeatures) => true,
            _ => false,
        },
{
}

/// Between two arguments stands one space, and nothing before the first or behind the last.
pub proof fn arguments_are_spaced(parts: Seq<Seq<char>>, part: Seq<char>)
    ensures
        spaced(Seq::empty()) == Seq::<char>::empty(),
        spaced(seq![part]) == part,
        parts.len() > 0 ==> spaced(parts.push(part)) == spaced(parts) + " "@ + part,
{
    assert(parts.push(part).drop_last() == parts);
}

/// Arguments keep their characters.
pub proof fn arguments_keep_their_characters(list: Seq<String>, i: int)
    requires
        0 <= i < list.len(),
    ensures
        texts_of(list).len() == list.len(),
        texts_of(list)[i] == list[i]@,
{
}

/// An error keeps its kind and its texts.
pub proof fn error_keeps_its_texts(error: LicenseError)
    ensures
        match (error, error@) {
            (LicenseError::NonUtf8ManifestPath, Failure::NonUtf8ManifestPath) => true,
            (
                LicenseError::CargoNotStarted { arguments: a },
                Failure::CargoNotStarted { arguments: b },
            ) => a@ == b,
            (
                LicenseError::CargoFailed { arguments: a },
                Failure::CargoFailed { arguments: b },
            ) => a@ == b,
            (LicenseError::NoResolveGraph, Failure::NoResolveGraph) => true,
            (
                LicenseError::NoLicense { name, version },
                Failure::NoLicense { name: n, version: v },
            ) => name@ == n && version@ == v,
            (
                LicenseError::CannotParse { license, name, version, reason },
                Failure::CannotParse { license: l, name: n, version: v, reason: r },
            ) => license@ == l && name@ == n && version@ == v && reason@ == r,
            (
                LicenseError::NotAccepted { license, name, version },
                Failure::NotAccepted { license: l, name: n, version: v },
            ) => license@ == l && name@ == n && version@ == v,
            _ => false,
        },
{
}

/// A crate that is refused is told by its license, its name and its version.
pub proof fn refusal_tells_license_name_and_version(
    license: Seq<char>,
    name: Seq<char>,
    version: Seq<char>,
    reason: Seq<char>,
)
    ensures
        failure_message(Failure::NotAccepted { license, name, version }) == "License `"@ + license
            + "` of crate "@ + name + " "@ + version + " is not in the accepted list"@,
        failure_message(Failure::CannotParse { license, name, version, reason })
            == "Cannot parse license `"@ + license + "` of "@ + name + " "@ + version,
        failure_cause(Failure::CannotParse { license, name, version, reason }) == Some(reason),
        failure_message(Failure::NoLicense { name, version }) == "Crate "@ + name + " "@ + version
            + " has no license information"@,
{
}

/// A failed call of cargo is told by its arguments.
pub proof fn failed_call_tells_its_arguments(arguments: Seq<char>)
    ensures
        failure_message(Failure::CargoNotStarted { arguments }) == "Failed to run cargo "@
            + arguments,
        failure_message(Failure::CargoFailed { arguments }) == "cargo "@ + arguments + " failed"@,
        failure_message(Failure::NonUtf8ManifestPath) == "Non-UTF-8 manifest path"@,
        failure_message(Failure::NoResolveGraph) == "cargo metadata returned no resolve graph"@,
{
}

/// Both forms show the sections of one listing, which is that of all the crates without
/// those that name no license; and both fail alike.
pub proof fn both_forms_show_one_listing(inputs: Seq<CrateInput>)
    ensures
        match all_listings(inputs, true) {
            Ok(listings) => {
                &&& generated(Format::Html, inputs) == Ok::<Seq<char>, Failure>(
                    page(listed_sections(listings)),
                )
                &&& generated(Format::Json, inputs) == Ok::<Seq<char>, Failure>(
                    pretty_json(document(listed_sections(listings))),
                )
            },
            Err(failure) => {
                &&& generated(Format::Html, inputs) == Err::<Seq<char>, Failure>(failure)
                &&& generated(Format::Json, inputs) == Err::<Seq<char>, Failure>(failure)
            },
        },
{
}

} // verus!
