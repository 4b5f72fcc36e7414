//! The listing as a JSON document.

use crate::listing::{entries_of, sections_of, CrateEntry, CrateRef, LicenseSection, SectionEntry};
use crate::text::decimal;
use vstd::prelude::*;

verus! {

/// A JSON value. A number is given by the text of its literal.
pub enum Json {
    Null,
    Bool(bool),
    Number(Seq<char>),
    Text(Seq<char>),
    Array(Seq<Json>),
    Object(Map<Seq<char>, Json>),
}

/// A JSON value of the `serde_json` crate.
#[verifier::external_type_specification]
#[verifier::external_body]
pub struct ExValue(serde_json::Value);

/// What a JSON value of the `serde_json` crate holds.
pub uninterp spec fn json_of(value: serde_json::Value) -> Json;

/// What `serde_json` writes for a JSON value when it writes it prettily.
pub uninterp spec fn pretty_json(json: Json) -> Seq<char>;

/// What values hold.
pub open spec fn jsons_of(values: Seq<serde_json::Value>) -> Seq<Json> {
    values.map_values(|v: serde_json::Value| json_of(v))
}

/// The object with `entries`; of those with one key the last.
pub open spec fn object_of(entries: Seq<(String, serde_json::Value)>) -> Map<Seq<char>, Json>
    decreases entries.len(),
{
    if entries.len() == 0 {
        Map::empty()
    } else {
        object_of(entries.drop_last()).insert(entries.last().0@, json_of(entries.last().1))
    }
}

/// `serde_json::Value::Null`.
#[verifier::external_body]
fn null_value() -> (r: serde_json::Value)
    ensures
        json_of(r) == Json::Null,
{
    serde_json::Value::Null
}

/// `serde_json::Value::from` of a `usize`: a number, which is written in decimal.
#[verifier::external_body]
fn number_value(n: usize) -> (r: serde_json::Value)
    ensures
        json_of(r) == Json::Number(decimal(n as nat)),
{
    serde_json::Value::from(n)
}

/// `serde_json::Value::from` of a `&str`: a text with the same characters.
#[verifier::external_body]
fn text_value(s: &str) -> (r: serde_json::Value)
    ensures
        json_of(r) == Json::Text(s@),
{
    serde_json::Value::from(s)
}

/// `serde_json::Value::from` of a vector: an array with the same elements.
#[verifier::external_body]
fn array_value(values: Vec<serde_json::Value>) -> (r: serde_json::Value)
    ensures
        json_of(r) == Json::Array(jsons_of(values@)),
{
    serde_json::Value::from(values)
}

/// `serde_json::Value::from_iter` of pairs: an object in which each key has the value
/// that it has last in `entries`.
#[verifier::external_body]
fn object_value(entries: Vec<(String, serde_json::Value)>) -> (r: serde_json::Value)
    ensures
        json_of(r) == Json::Object(object_of(entries@)),
{
    entries.into_iter().collect::<serde_json::Value>()
}

/// `serde_json::to_string_pretty` of a value: a function of what the value holds. It
/// fails where a map has keys other than texts or a `Serialize` impl fails, and neither
/// happens in a `serde_json::Value`.
#[verifier::external_body]
fn pretty_text(value: &serde_json::Value) -> (r: String)
    ensures
        r@ == pretty_json(json_of(*value)),
{
    serde_json::to_string_pretty(value).expect("serializable")
}

/// A text that may be missing.
pub open spec fn optional_json(text: Option<Seq<char>>) -> Json {
    match text {
        Some(t) => Json::Text(t),
        None => Json::Null,
    }
}

/// A license in the overview.
pub open spec fn overview_json(s: SectionEntry) -> Json {
    Json::Object(
        Map::<Seq<char>, Json>::empty().insert("name"@, Json::Text(s.name)).insert(
            "id"@,
            Json::Text(s.id),
        ).insert("count"@, Json::Number(decimal(s.count))),
    )
}

/// What is said of a crate.
pub open spec fn crate_fields(c: CrateEntry) -> Map<Seq<char>, Json> {
    Map::<Seq<char>, Json>::empty().insert("name"@, Json::Text(c.name)).insert(
        "version"@,
        Json::Text(c.version),
    ).insert("repository"@, optional_json(c.repository))
}

/// A crate under a license.
pub open spec fn crate_json(c: CrateEntry) -> Json {
    Json::Object(Map::<Seq<char>, Json>::empty().insert("crate"@, Json::Object(crate_fields(c))))
}

/// A license with its text and its crates.
pub open spec fn license_json(s: SectionEntry) -> Json {
    Json::Object(
        Map::<Seq<char>, Json>::empty().insert("name"@, Json::Text(s.name)).insert(
            "id"@,
            Json::Text(s.id),
        ).insert("text"@, Json::Text(s.text)).insert(
            "used_by"@,
            Json::Array(s.used_by.map_values(|c: CrateEntry| crate_json(c))),
        ),
    )
}

/// The document.
pub open spec fn document(sections: Seq<SectionEntry>) -> Json {
    Json::Object(
        Map::<Seq<char>, Json>::empty().insert(
            "overview"@,
            Json::Array(sections.map_values(|s: SectionEntry| overview_json(s))),
        ).insert(
            "licenses"@,
            Json::Array(sections.map_values(|s: SectionEntry| license_json(s))),
        ),
    )
}

/// Adds an entry to those of an object.
fn put(entries: &mut Vec<(String, serde_json::Value)>, key: &str, value: serde_json::Value)
    ensures
        object_of(final(entries)@) == object_of(old(entries)@).insert(key@, json_of(value)),
{
    entries.push((key.to_owned(), value));
    assert(entries@.drop_last() == old(entries)@);
}

/// A license in the overview.
fn overview_value(s: &LicenseSection) -> (r: serde_json::Value)
    ensures
        json_of(r) == overview_json(s@),
{
    let mut entries: Vec<(String, serde_json::Value)> = Vec::new();
    put(&mut entries, "name", text_value(s.name.as_str()));
    put(&mut entries, "id", text_value(s.id.as_str()));
    put(&mut entries, "count", number_value(s.count));
    object_value(entries)
}

/// A crate under a license.
fn crate_value(c: &CrateRef) -> (r: serde_json::Value)
    ensures
        json_of(r) == crate_json(c@),
{
    let mut fields: Vec<(String, serde_json::Value)> = Vec::new();
    put(&mut fields, "name", text_value(c.name.as_str()));
    put(&mut fields, "version", text_value(c.version.as_str()));
    let repository = match &c.repository {
        Some(repository) => text_value(repository.as_str()),
        None => null_value(),
    };
    put(&mut fields, "repository", repository);
    let mut entries: Vec<(String, serde_json::Value)> = Vec::new();
    put(&mut entries, "crate", object_value(fields));
    object_value(entries)
}

/// A license with its text and its crates.
fn license_value(s: &LicenseSection) -> (r: serde_json::Value)
    ensures
        json_of(r) == license_json(s@),
{
    let ghost crates = entries_of(s.used_by@);
    let mut used_by: Vec<serde_json::Value> = Vec::new();
    let mut i: usize = 0;
    while i < s.used_by.len()
        invariant
            i <= s.used_by@.len(),
            crates == entries_of(s.used_by@),
            used_by@.len() == i,
            forall|j: int| 0 <= j < i ==> json_of(#[trigger] used_by@[j]) == crate_json(crates[j]),
        decreases s.used_by@.len() - i,
    {
        used_by.push(crate_value(&s.used_by[i]));
        i += 1;
    }
    assert(jsons_of(used_by@) == crates.map_values(|c: CrateEntry| crate_json(c)));
    let mut entries: Vec<(String, serde_json::Value)> = Vec::new();
    put(&mut entries, "name", text_value(s.name.as_str()));
    put(&mut entries, "id", text_value(s.id.as_str()));
    put(&mut entries, "text", text_value(s.text.as_str()));
    put(&mut entries, "used_by", array_value(used_by));
    object_value(entries)
}

/// The listing as a JSON value.
pub fn json_document(sections: &Vec<LicenseSection>) -> (r: serde_json::Value)
    ensures
        json_of(r) == document(sections_of(sections@)),
{
    let ghost all = sections_of(sections@);
    let mut overview: Vec<serde_json::Value> = Vec::new();
    let mut licenses: Vec<serde_json::Value> = Vec::new();
    let mut i: usize = 0;
    while i < sections.len()
        invariant
            i <= sections@.len(),
            all == sections_of(sections@),
            overview@.len() == i,
            licenses@.len() == i,
            forall|j: int| 0 <= j < i ==> json_of(#[trigger] overview@[j]) == overview_json(all[j]),
            forall|j: int| 0 <= j < i ==> json_of(#[trigger] licenses@[j]) == license_json(all[j]),
        decreases sections@.len() - i,
    {
        overview.push(overview_value(&sections[i]));
        licenses.push(license_value(&sections[i]));
        i += 1;
    }
    assert(jsons_of(overview@) == all.map_values(|s: SectionEntry| overview_json(s)));
    assert(jsons_of(licenses@) == all.map_values(|s: SectionEntry| license_json(s)));
    let mut entries: Vec<(String, serde_json::Value)> = Vec::new();
    put(&mut entries, "overview", array_value(overview));
    put(&mut entries, "licenses", array_value(licenses));
    object_value(entries)
}

/// Emit a subset of `cargo about`'s JSON output, for the generators of a documentation
/// site: `licenses[].{name,id,text}` and
/// `licenses[].used_by[].crate.{name,version,repository}`.
pub fn render_json(sections: &Vec<LicenseSection>) -> (r: String)
    ensures
        r@ == pretty_json(document(sections_of(sections@))),
{
    pretty_text(&json_document(sections))
}

proof fn crate_json_determines(a: CrateEntry, b: CrateEntry)
    requires
        crate_json(a) == crate_json(b),
    ensures
        a == b,
{
    reveal_strlit("name");
    reveal_strlit("version");
    reveal_strlit("repository");
    let x = crate_json(a)->Object_0["crate"@]->Object_0;
    let y = crate_json(b)->Object_0["crate"@]->Object_0;
    assert(x == crate_fields(a) && y == crate_fields(b));
    assert("name"@ != "version"@) by {
        assert("name"@.len() != "version"@.len());
    }
    assert("name"@ != "repository"@) by {
        assert("name"@.len() != "repository"@.len());
    }
    assert("version"@ != "repository"@) by {
        assert("version"@.len() != "repository"@.len());
    }
    assert(x["name"@] == Json::Text(a.name) && y["name"@] == Json::Text(b.name));
    assert(x["version"@] == Json::Text(a.version) && y["version"@] == Json::Text(b.version));
    assert(x["repository"@] == optional_json(a.repository));
    assert(y["repository"@] == optional_json(b.repository));
}

proof fn section_json_determines(a: SectionEntry, b: SectionEntry)
    requires
        overview_json(a) == overview_json(b),
        license_json(a) == license_json(b),
    ensures
        a == b,
{
    reveal_strlit("name");
    reveal_strlit("id");
    reveal_strlit("count");
    reveal_strlit("text");
    reveal_strlit("used_by");
    assert("name"@[0] == 'n' && "text"@[0] == 't');
    assert("name"@ != "text"@);
    assert("name"@.len() == 4 && "text"@.len() == 4 && "id"@.len() == 2);
    assert("count"@.len() == 5 && "used_by"@.len() == 7);
    let o = overview_json(a)->Object_0;
    let p = overview_json(b)->Object_0;
    assert(o["count"@] == Json::Number(decimal(a.count)));
    assert(p["count"@] == Json::Number(decimal(b.count)));
    crate::text::decimal_is_injective(a.count, b.count);
    let x = license_json(a)->Object_0;
    let y = license_json(b)->Object_0;
    assert(x["name"@] == Json::Text(a.name) && y["name"@] == Json::Text(b.name));
    assert(x["id"@] == Json::Text(a.id) && y["id"@] == Json::Text(b.id));
    assert(x["text"@] == Json::Text(a.text) && y["text"@] == Json::Text(b.text));
    let c = a.used_by.map_values(|c: CrateEntry| crate_json(c));
    let d = b.used_by.map_values(|c: CrateEntry| crate_json(c));
    assert(x["used_by"@] == Json::Array(c) && y["used_by"@] == Json::Array(d));
    assert(a.used_by.len() == c.len() && b.used_by.len() == d.len());
    assert forall|i: int| 0 <= i < a.used_by.len() implies a.used_by[i] == b.used_by[i] by {
        assert(c[i] == d[i]);
        crate_json_determines(a.used_by[i], b.used_by[i]);
    }
    assert(a.used_by == b.used_by);
}

/// Nothing of a listing is lost in its JSON document: different listings have different
/// documents.
pub proof fn document_determines_sections(a: Seq<SectionEntry>, b: Seq<SectionEntry>)
    requires
        document(a) == document(b),
    ensures
        a == b,
{
    reveal_strlit("overview");
    reveal_strlit("licenses");
    assert("overview"@[0] == 'o' && "licenses"@[0] == 'l');
    let x = document(a)->Object_0;
    let y = document(b)->Object_0;
    let o = a.map_values(|s: SectionEntry| overview_json(s));
    let p = b.map_values(|s: SectionEntry| overview_json(s));
    let l = a.map_values(|s: SectionEntry| license_json(s));
    let m = b.map_values(|s: SectionEntry| license_json(s));
    assert(x["overview"@] == Json::Array(o) && y["overview"@] == Json::Array(p));
    assert(x["licenses"@] == Json::Array(l) && y["licenses"@] == Json::Array(m));
    assert(a.len() == o.len() && b.len() == p.len());
    assert forall|i: int| 0 <= i < a.len() implies a[i] == b[i] by {
        assert(o[i] == p[i] && l[i] == m[i]);
        section_json_determines(a[i], b[i]);
    }
    assert(a == b);
}

} // verus!
