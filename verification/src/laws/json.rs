//! What holds of the JSON document.

use crate::json::{crate_json, document, license_json, overview_json, Json};
use crate::listing::{CrateEntry, SectionEntry};
use crate::text::decimal;
use vstd::prelude::*;

verus! {

/// The field `key` of an object.
pub open spec fn field(json: Json, key: Seq<char>) -> Json {
    json->Object_0[key]
}

/// Whether a value is an object with exactly the fields `keys`.
pub open spec fn has_fields(json: Json, keys: Set<Seq<char>>) -> bool {
    json is Object && json->Object_0.dom() == keys
}

proof fn keys_are_different()
    ensures
        "name"@ != "id"@,
        "name"@ != "count"@,
        "name"@ != "text"@,
        "name"@ != "used_by"@,
        "name"@ != "version"@,
        "name"@ != "repository"@,
        "id"@ != "count"@,
        "id"@ != "text"@,
        "id"@ != "used_by"@,
        "text"@ != "used_by"@,
        "version"@ != "repository"@,
        "overview"@ != "licenses"@,
{
    reveal_strlit("name");
    reveal_strlit("id");
    reveal_strlit("count");
    reveal_strlit("text");
    reveal_strlit("used_by");
    reveal_strlit("version");
    reveal_strlit("repository");
    reveal_strlit("overview");
    reveal_strlit("licenses");
    assert("name"@[0] == 'n' && "text"@[0] == 't');
    assert("overview"@[0] == 'o' && "licenses"@[0] == 'l');
    assert("name"@.len() == 4 && "id"@.len() == 2 && "count"@.len() == 5 && "text"@.len() == 4);
    assert("used_by"@.len() == 7 && "version"@.len() == 7 && "repository"@.len() == 10);
}

/// The document has an overview and the licenses, with an item for each section in order.
pub proof fn document_has_an_item_for_every_section(sections: Seq<SectionEntry>)
    ensures
        has_fields(document(sections), set!["overview"@, "licenses"@]),
        field(document(sections), "overview"@) is Array,
        field(document(sections), "overview"@)->Array_0.len() == sections.len(),
        field(document(sections), "licenses"@) is Array,
        field(document(sections), "licenses"@)->Array_0.len() == sections.len(),
{
    keys_are_different();
    assert(document(sections)->Object_0.dom() =~= set!["overview"@, "licenses"@]);
}

/// In the overview a license has its name, its id and the number of its crates.
pub proof fn overview_item_has_name_id_and_count(sections: Seq<SectionEntry>, i: int)
    requires
        0 <= i < sections.len(),
    ensures
        ({
            let item = field(document(sections), "overview"@)->Array_0[i];
            &&& has_fields(item, set!["name"@, "id"@, "count"@])
            &&& field(item, "name"@) == Json::Text(sections[i].name)
            &&& field(item, "id"@) == Json::Text(sections[i].id)
            &&& field(item, "count"@) == Json::Number(decimal(sections[i].count))
        }),
{
    keys_are_different();
    let item = field(document(sections), "overview"@)->Array_0[i];
    assert(item == overview_json(sections[i]));
    assert(item->Object_0.dom() =~= set!["name"@, "id"@, "count"@]);
}

/// Among the licenses a license has its name, its id, its text and an item for each of its
/// crates in order.
pub proof fn license_item_has_text_and_crates(sections: Seq<SectionEntry>, i: int)
    requires
        0 <= i < sections.len(),
    ensures
        ({
            let item = field(document(sections), "licenses"@)->Array_0[i];
            &&& has_fields(item, set!["name"@, "id"@, "text"@, "used_by"@])
            &&& field(item, "name"@) == Json::Text(sections[i].name)
            &&& field(item, "id"@) == Json::Text(sections[i].id)
            &&& field(item, "text"@) == Json::Text(sections[i].text)
            &&& field(item, "used_by"@) is Array
            &&& field(item, "used_by"@)->Array_0.len() == sections[i].used_by.len()
        }),
{
    keys_are_different();
    let item = field(document(sections), "licenses"@)->Array_0[i];
    assert(item == license_json(sections[i]));
    assert(item->Object_0.dom() =~= set!["name"@, "id"@, "text"@, "used_by"@]);
}

/// A crate under a license has its name, its version and its repository, which is null
/// where there is none.
pub proof fn crate_item_has_name_version_and_repository(
    sections: Seq<SectionEntry>,
    i: int,
    n: int,
)
    requires
        0 <= i < sections.len(),
        0 <= n < sections[i].used_by.len(),
    ensures
        ({
            let license = field(document(sections), "licenses"@)->Array_0[i];
            let item = field(license, "used_by"@)->Array_0[n];
            let c = sections[i].used_by[n];
            &&& has_fields(item, set!["crate"@])
            &&& has_fields(field(item, "crate"@), set!["name"@, "version"@, "repository"@])
            &&& field(field(item, "crate"@), "name"@) == Json::Text(c.name)
            &&& field(field(item, "crate"@), "version"@) == Json::Text(c.version)
            &&& c.repository is Some ==> field(field(item, "crate"@), "repository"@) == Json::Text(
                c.repository->0,
            )
            &&& c.repository is None ==> field(field(item, "crate"@), "repository"@) == Json::Null
        }),
{
    keys_are_different();
    license_item_has_text_and_crates(sections, i);
    let license = field(document(sections), "licenses"@)->Array_0[i];
    assert(license == license_json(sections[i]));
    let c = sections[i].used_by[n];
    let items = sections[i].used_by.map_values(|c: CrateEntry| crate_json(c));
    assert(field(license, "used_by"@) == Json::Array(items));
    assert(items[n] == crate_json(c));
    assert(items[n]->Object_0.dom() =~= set!["crate"@]);
    assert(field(items[n], "crate"@)->Object_0.dom() =~= set!["name"@, "version"@, "repository"@]);
}

} // verus!
