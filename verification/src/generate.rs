//! The listing as a whole.

use crate::command::{Format, GenerateArgs};
use crate::error::{Failure, LicenseError};
use crate::html::{page, render_html};
use crate::json::{document, pretty_json, render_json};
use crate::laws::{acceptable, accepted_where_all_satisfied, unlicensed_crate_is_dropped};
use crate::listing::{all_listings, license_sections, listed_sections, sections_of, CrateInput,
    LicenseSection, SectionEntry, FILTER_NOASSERTION};
use vstd::prelude::*;

verus! {

/// The listing in the form `format`.
pub open spec fn rendered(format: Format, sections: Seq<SectionEntry>) -> Seq<char> {
    match format {
        Format::Html => page(sections),
        Format::Json => pretty_json(document(sections)),
    }
}

/// What is generated for the given crates, or why it is not.
pub open spec fn generated(format: Format, inputs: Seq<CrateInput>) -> Result<Seq<char>, Failure> {
    match all_listings(inputs, FILTER_NOASSERTION) {
        Ok(listings) => Ok(rendered(format, listed_sections(listings))),
        Err(failure) => Err(failure),
    }
}

/// The listing in the form `format`.
pub fn render(format: Format, sections: &Vec<LicenseSection>) -> (r: String)
    ensures
        r@ == rendered(format, sections_of(sections@)),
{
    match format {
        Format::Html => render_html(sections),
        Format::Json => render_json(sections),
    }
}

/// The license listing for the resolved crates, each given with its license files.
/// A crate is rejected unless its license expression is satisfiable by the accepted
/// licenses.
pub fn generate(args: &GenerateArgs, inputs: &Vec<CrateInput>) -> (r: Result<String, LicenseError>)
    ensures
        match r {
            Ok(text) => generated(args.format, inputs@) == Ok::<Seq<char>, Failure>(text@),
            Err(error) => generated(args.format, inputs@) == Err::<Seq<char>, Failure>(error@),
        },
{
    match license_sections(inputs, FILTER_NOASSERTION) {
        Ok(sections) => Ok(render(args.format, &sections)),
        Err(error) => Err(error),
    }
}

/// A listing is generated exactly where every crate that names a license has an
/// expression that can be parsed and that the accepted licenses satisfy.
pub proof fn generated_where_all_acceptable(format: Format, inputs: Seq<CrateInput>)
    ensures
        generated(format, inputs) is Ok <==> forall|i: int|
            0 <= i < inputs.len() ==> acceptable(#[trigger] inputs[i]),
{
    accepted_where_all_satisfied(inputs);
}

/// A crate without license information does not change what is generated.
pub proof fn unlicensed_crate_changes_nothing(
    format: Format,
    before: Seq<CrateInput>,
    input: CrateInput,
    after: Seq<CrateInput>,
)
    requires
        input.package.license is None,
    ensures
        generated(format, before + seq![input] + after) == generated(format, before + after),
{
    unlicensed_crate_is_dropped(before, input, after);
}

} // verus!
