//! What holds of the listings of crates and of the sections made of them.

use crate::error::Failure;
use crate::expression::{accepted, item_full_name, item_string, lax_parse, listed_exactly_accepted,
    required, satisfied};
use crate::files::{contents, license_text};
use crate::harvest::{best_variant, best_variant_is_best, counted, normalized, occurrences,
    preferred, shown_text, spdx_text, tally, tally_counts_occurrences, variant_position,
    variants_of, Variant};
use crate::laws::{id_is_of_a_listing, listing_is_mentioned, one_section_per_license,
    sections_are_ordered};
use crate::listing::{all_listings, contributed, crate_listings, entries_of, entry_key,
    listed_entries, listed_sections, mentions, section_for, section_key, sections_of,
    CrateInput, CrateRef, LicenseSection, Listing, SectionEntry};
use crate::order::{in_order, in_order_ascends, in_order_keeps_first, key_before, keys_of,
    text_before};
use vstd::prelude::*;
use vstd::utf8::encode_utf8;

verus! {

/// Whether a listing stands under the license `id` and contributes `text` to it.
pub open spec fn contributes(id: Seq<char>, text: Seq<char>) -> spec_fn(Listing) -> bool {
    |l: Listing| l.id == id && l.text is Some && l.text->0 == text
}

/// How many of the listings stand under the license `id` and contribute `text` to it.
pub open spec fn contributors(listings: Seq<Listing>, id: Seq<char>, text: Seq<char>) -> nat {
    listings.filter(contributes(id, text)).len()
}

proof fn contributors_are_occurrences(listings: Seq<Listing>, id: Seq<char>, text: Seq<char>)
    ensures
        contributors(listings, id, text) == occurrences(contributed(mentions(listings, id)), text),
    decreases listings.len(),
{
    reveal(Seq::filter);
    if listings.len() > 0 {
        let rest = listings.drop_last();
        let last = listings.last();
        contributors_are_occurrences(rest, id, text);
        let before = mentions(rest, id);
        if last.id == id {
            assert(before.push(last).drop_last() == before);
            if let Some(own) = last.text {
                let texts = contributed(before);
                assert(texts.push(own).drop_last() == texts);
            }
        }
    }
}

/// No text is contributed to a license by more listings than the text that its section
/// shows, and of the texts with as many contributors none is shorter in bytes.
pub proof fn section_shows_the_text_of_most_listings(
    listings: Seq<Listing>,
    section: SectionEntry,
    other: Seq<char>,
)
    requires
        listed_sections(listings).contains(section),
    ensures
        contributors(listings, section.id, other) <= contributors(
            listings,
            section.id,
            section.text,
        ),
        0 < contributors(listings, section.id, other) == contributors(
            listings,
            section.id,
            section.text,
        ) ==> encode_utf8(section.text).len() <= encode_utf8(other).len(),
{
    one_section_per_license(listings, section);
    let texts = contributed(mentions(listings, section.id));
    contributors_are_occurrences(listings, section.id, other);
    contributors_are_occurrences(listings, section.id, section.text);
    tally_counts_occurrences(texts);
    best_variant_is_best(tally(texts));
    if occurrences(texts, other) > 0 {
        let variants = tally(texts);
        let i = choose|i: int| 0 <= i < variants.len() && (#[trigger] variants[i]).0 == other;
        let best = best_variant(variants)->0;
        let b = choose|b: int| 0 <= b < variants.len() && variants[b] == best;
        assert(variants[b].1 == occurrences(texts, best.0));
        assert(!preferred(variants[i], best));
    }
}

/// Where a listing contributes a text to a license, its section shows a contributed text.
pub proof fn section_shows_a_contributed_text(
    listings: Seq<Listing>,
    section: SectionEntry,
    n: int,
)
    requires
        listed_sections(listings).contains(section),
        0 <= n < listings.len(),
        listings[n].id == section.id,
        listings[n].text is Some,
    ensures
        contributors(listings, section.id, section.text) > 0,
{
    let text = listings[n].text->0;
    let kept = listings.filter(contributes(section.id, text));
    assert(kept.contains(listings[n])) by {
        broadcast use vstd::seq_lib::group_filter_ensures;

    }
    section_shows_the_text_of_most_listings(listings, section, text);
}

/// Where no listing contributes a text to a license, its section shows the text of the SPDX
/// list, or, where that has none, says so.
pub proof fn section_falls_back_to_the_canonical_text(
    listings: Seq<Listing>,
    section: SectionEntry,
)
    requires
        listed_sections(listings).contains(section),
        forall|n: int|
            0 <= n < listings.len() && (#[trigger] listings[n]).id == section.id
                ==> listings[n].text is None,
    ensures
        spdx_text(section.id) is Some ==> section.text == spdx_text(section.id)->0,
        spdx_text(section.id) is None ==> section.text == "No license text available for "@
            + section.id + "."@,
{
    one_section_per_license(listings, section);
    nothing_is_contributed(listings, section.id);
}

proof fn nothing_is_contributed(listings: Seq<Listing>, id: Seq<char>)
    requires
        forall|n: int|
            0 <= n < listings.len() && (#[trigger] listings[n]).id == id ==> listings[n].text
                is None,
    ensures
        contributed(mentions(listings, id)).len() == 0,
    decreases listings.len(),
{
    if listings.len() > 0 {
        let rest = listings.drop_last();
        let last = listings.last();
        assert(listings[listings.len() - 1] == last);
        assert forall|n: int| 0 <= n < rest.len() && (#[trigger] rest[n]).id == id implies rest[n].text
            is None by {
            assert(rest[n] == listings[n]);
        }
        nothing_is_contributed(rest, id);
        let before = mentions(rest, id);
        if last.id == id {
            assert(before.push(last).drop_last() == before);
        }
    }
}

/// Of harvested variants one with the greatest count is shown, and among those with that
/// count one that is shortest in bytes.
pub proof fn shown_variant_is_most_frequent_and_shortest(id: Seq<char>, variants: Seq<Variant>)
    requires
        variants.len() > 0,
    ensures
        exists|b: int|
            0 <= b < variants.len() && (#[trigger] variants[b]).0 == shown_text(id, variants)
                && forall|i: int|
                #![trigger variants[i]]
                0 <= i < variants.len() ==> variants[i].1 <= variants[b].1 && (variants[i].1
                    == variants[b].1 ==> encode_utf8(variants[b].0).len() <= encode_utf8(
                    variants[i].0,
                ).len()),
{
    best_variant_is_best(variants);
    let best = best_variant(variants)->0;
    let b = choose|b: int| 0 <= b < variants.len() && variants[b] == best;
    assert forall|i: int|
        #![trigger variants[i]]
        0 <= i < variants.len() implies variants[i].1 <= variants[b].1 && (variants[i].1
        == variants[b].1 ==> encode_utf8(variants[b].0).len() <= encode_utf8(variants[i].0).len()) by {
        assert(!preferred(variants[i], best));
    }
}

/// Where nothing was harvested, the text of the SPDX list is shown, or a remark that there
/// is none.
pub proof fn nothing_harvested_shows_the_canonical_text(id: Seq<char>)
    ensures
        spdx_text(id) is Some ==> shown_text(id, Seq::empty()) == spdx_text(id)->0,
        spdx_text(id) is None ==> shown_text(id, Seq::empty()) == "No license text available for "@
            + id + "."@,
{
}

/// Counting a text that is there adds one to its count and changes nothing else.
pub proof fn known_text_is_counted_once_more(variants: Seq<Variant>, i: int)
    requires
        0 <= i < variants.len(),
        forall|j: int| 0 <= j < variants.len() && j != i ==> (#[trigger] variants[j]).0
            != variants[i].0,
    ensures
        counted(variants, variants[i].0).len() == variants.len(),
        counted(variants, variants[i].0)[i] == (variants[i].0, variants[i].1 + 1),
        forall|j: int|
            0 <= j < variants.len() && j != i ==> #[trigger] counted(variants, variants[i].0)[j]
                == variants[j],
{
    text_stands_at(variants, i);
}

proof fn text_stands_at(variants: Seq<Variant>, i: int)
    requires
        0 <= i < variants.len(),
        forall|j: int| 0 <= j < variants.len() && j != i ==> (#[trigger] variants[j]).0
            != variants[i].0,
    ensures
        variant_position(variants, variants[i].0) == i,
    decreases variants.len(),
{
    if i < variants.len() - 1 {
        let rest = variants.drop_last();
        assert(variants[variants.len() - 1].0 != variants[i].0);
        assert forall|j: int| 0 <= j < rest.len() && j != i implies (#[trigger] rest[j]).0
            != rest[i].0 by {
            assert(rest[j] == variants[j]);
        }
        text_stands_at(rest, i);
    }
}

/// Counting a text that is not there yet adds it with the count of one.
pub proof fn new_text_is_counted_once(variants: Seq<Variant>, text: Seq<char>)
    requires
        forall|j: int| 0 <= j < variants.len() ==> (#[trigger] variants[j]).0 != text,
    ensures
        counted(variants, text) == variants.push((text, 1nat)),
{
    text_stands_nowhere(variants, text);
}

proof fn text_stands_nowhere(variants: Seq<Variant>, text: Seq<char>)
    requires
        forall|j: int| 0 <= j < variants.len() ==> (#[trigger] variants[j]).0 != text,
    ensures
        variant_position(variants, text) == -1,
    decreases variants.len(),
{
    if variants.len() > 0 {
        let rest = variants.drop_last();
        assert(variants[variants.len() - 1].0 != text);
        assert forall|j: int| 0 <= j < rest.len() implies (#[trigger] rest[j]).0 != text by {
            assert(rest[j] == variants[j]);
        }
        text_stands_nowhere(rest, text);
    }
}

/// Harvested texts keep their characters and counts.
pub proof fn harvested_texts_keep_their_counts(harvested: Seq<(String, usize)>, i: int)
    requires
        0 <= i < harvested.len(),
    ensures
        variants_of(harvested).len() == harvested.len(),
        variants_of(harvested)[i].0 == harvested[i].0@,
        variants_of(harvested)[i].1 == harvested[i].1,
{
}

/// Every license that is listed has a section, no license has two, and there is no section
/// without a listing.
pub proof fn sections_are_those_of_the_listed_licenses(listings: Seq<Listing>)
    ensures
        forall|n: int|
            0 <= n < listings.len() ==> exists|s: int|
                0 <= s < listed_sections(listings).len() && (#[trigger] listed_sections(
                    listings,
                )[s]).id == (#[trigger] listings[n]).id,
        forall|s: int|
            0 <= s < listed_sections(listings).len() ==> exists|n: int|
                0 <= n < listings.len() && (#[trigger] listings[n]).id == (
                #[trigger] listed_sections(listings)[s]).id,
        forall|s: int, t: int|
            0 <= s < t < listed_sections(listings).len() ==> (#[trigger] listed_sections(
                listings,
            )[s]).id != (#[trigger] listed_sections(listings)[t]).id,
{
    let sections = listed_sections(listings);
    assert forall|n: int| 0 <= n < listings.len() implies exists|s: int|
        0 <= s < sections.len() && (#[trigger] sections[s]).id == (#[trigger] listings[n]).id by {
        let section = section_for(listings, listings[n].id);
        listing_is_mentioned(listings, n);
        one_section_per_license(listings, section);
        let s = choose|s: int| 0 <= s < sections.len() && sections[s] == section;
        assert(sections[s].id == listings[n].id);
    }
    assert forall|s: int| 0 <= s < sections.len() implies exists|n: int|
        0 <= n < listings.len() && (#[trigger] listings[n]).id == (#[trigger] sections[s]).id by {
        assert(sections.contains(sections[s]));
        one_section_per_license(listings, sections[s]);
        id_is_of_a_listing(listings, sections[s].id);
    }
    assert forall|s: int, t: int| 0 <= s < t < sections.len() implies (#[trigger] sections[s]).id != (
    #[trigger] sections[t]).id by {
        assert(sections.contains(sections[s]) && sections.contains(sections[t]));
        one_section_per_license(listings, sections[s]);
        one_section_per_license(listings, sections[t]);
        sections_are_ordered(listings);
        let keys = keys_of(sections, section_key());
        assert(key_before(keys[s], keys[t]));
        crate::order::key_order_is_irreflexive(keys[s]);
    }
}

/// The sections are in the order of their names, and of their ids where names are the same.
pub proof fn sections_come_in_order_of_names(listings: Seq<Listing>, s: int, t: int)
    requires
        0 <= s < t < listed_sections(listings).len(),
    ensures
        ({
            let a = listed_sections(listings)[s];
            let b = listed_sections(listings)[t];
            text_before(a.name, b.name) || (a.name == b.name && text_before(a.id, b.id))
        }),
{
    sections_are_ordered(listings);
    let keys = keys_of(listed_sections(listings), section_key());
    assert(key_before(keys[s], keys[t]));
}

/// Where the mention `m` of a license stands among the listings; the listings of that
/// license before it are the mentions before `m`.
proof fn mention_has_a_position(listings: Seq<Listing>, id: Seq<char>, m: int) -> (n: int)
    requires
        0 <= m < mentions(listings, id).len(),
    ensures
        0 <= n < listings.len(),
        listings[n] == mentions(listings, id)[m],
        listings[n].id == id,
        forall|k: int|
            0 <= k < n && (#[trigger] listings[k]).id == id ==> mentions(listings, id).take(
                m,
            ).contains(listings[k]),
    decreases listings.len(),
{
    let rest = listings.drop_last();
    let last = listings.len() - 1;
    let before = mentions(rest, id);
    let all = mentions(listings, id);
    if m < before.len() {
        let n = mention_has_a_position(rest, id, m);
        assert(all.take(m) == before.take(m));
        assert forall|k: int| 0 <= k < n && (#[trigger] listings[k]).id == id implies all.take(
            m,
        ).contains(listings[k]) by {
            assert(rest[k] == listings[k]);
        }
        n
    } else {
        assert(all.take(m) == before);
        assert forall|k: int| 0 <= k < last && (#[trigger] listings[k]).id == id implies all.take(
            m,
        ).contains(listings[k]) by {
            assert(rest[k] == listings[k]);
            listing_is_mentioned(rest, k);
        }
        last
    }
}

/// A section is named as in the first listing of its license.
pub proof fn section_is_named_as_first_listed(
    listings: Seq<Listing>,
    section: SectionEntry,
    n: int,
)
    requires
        listed_sections(listings).contains(section),
        0 <= n < listings.len(),
        listings[n].id == section.id,
        forall|k: int| 0 <= k < n ==> (#[trigger] listings[k]).id != section.id,
    ensures
        section.name == listings[n].full_name,
{
    one_section_per_license(listings, section);
    let here = mentions(listings, section.id);
    listing_is_mentioned(listings, n);
    let p = mention_has_a_position(listings, section.id, 0);
    if n < p {
        assert(here.take(0).contains(listings[n]));
    }
    assert(p == n);
}

/// Every crate that is listed under a license stands in its section; the section counts its
/// crates, which are in the order of names and then of versions, none twice.
pub proof fn section_holds_its_crates(listings: Seq<Listing>, section: SectionEntry, n: int)
    requires
        listed_sections(listings).contains(section),
        0 <= n < listings.len(),
        listings[n].id == section.id,
    ensures
        section.count == section.used_by.len(),
        exists|c: int|
            0 <= c < section.used_by.len() && (#[trigger] section.used_by[c]).name
                == listings[n].entry.name && section.used_by[c].version
                == listings[n].entry.version,
        forall|c: int, d: int|
            0 <= c < d < section.used_by.len() ==> text_before(
                (#[trigger] section.used_by[c]).name,
                (#[trigger] section.used_by[d]).name,
            ) || (section.used_by[c].name == section.used_by[d].name && text_before(
                section.used_by[c].version,
                section.used_by[d].version,
            )),
{
    one_section_per_license(listings, section);
    let here = mentions(listings, section.id);
    listing_is_mentioned(listings, n);
    let m = choose|m: int| 0 <= m < here.len() && here[m] == listings[n];
    crate::laws::entry_is_listed(here, m);
    in_order_ascends(listed_entries(here), entry_key());
    let keys = keys_of(section.used_by, entry_key());
    assert forall|c: int, d: int| 0 <= c < d < section.used_by.len() implies text_before(
        (#[trigger] section.used_by[c]).name,
        (#[trigger] section.used_by[d]).name,
    ) || (section.used_by[c].name == section.used_by[d].name && text_before(
        section.used_by[c].version,
        section.used_by[d].version,
    )) by {
        assert(key_before(keys[c], keys[d]));
    }
    let out = in_order(listed_entries(here), entry_key());
    let c = choose|c: int|
        0 <= c < out.len() && (#[trigger] out[c]).name == here[m].entry.name && out[c].version
            == here[m].entry.version;
    assert(section.used_by[c].name == listings[n].entry.name);
}

/// A crate in a section is that of the first listing under the license with its name and
/// version.
pub proof fn crate_stands_as_first_listed(
    listings: Seq<Listing>,
    section: SectionEntry,
    c: int,
) -> (n: int)
    requires
        listed_sections(listings).contains(section),
        0 <= c < section.used_by.len(),
    ensures
        0 <= n < listings.len(),
        listings[n].id == section.id,
        listings[n].entry == section.used_by[c],
        forall|k: int|
            0 <= k < n && (#[trigger] listings[k]).id == section.id ==> !(listings[k].entry.name
                == section.used_by[c].name && listings[k].entry.version
                == section.used_by[c].version),
{
    one_section_per_license(listings, section);
    let here = mentions(listings, section.id);
    let entries = listed_entries(here);
    let entry = section.used_by[c];
    assert(section.used_by.contains(entry));
    in_order_keeps_first(entries, entry_key(), entry);
    let m = choose|m: int|
        0 <= m < entries.len() && #[trigger] entries[m] == entry && !keys_of(
            entries.take(m),
            entry_key(),
        ).contains(entry_key()(entry));
    let n = mention_has_a_position(listings, section.id, m);
    assert forall|k: int| 0 <= k < n && (#[trigger] listings[k]).id == section.id implies !(
    listings[k].entry.name == entry.name && listings[k].entry.version == entry.version) by {
        if listings[k].entry.name == entry.name && listings[k].entry.version == entry.version {
            let early = here.take(m);
            let x = choose|x: int| 0 <= x < early.len() && early[x] == listings[k];
            let keys = keys_of(entries.take(m), entry_key());
            assert(entries.take(m)[x] == here[x].entry);
            assert(keys[x] == entry_key()(entry));
        }
    }
    n
}

/// The listings of crates add up, in their order, and the first refusal stands.
pub proof fn listings_of_crates_add_up(
    a: Seq<CrateInput>,
    b: Seq<CrateInput>,
    filter_noassertion: bool,
)
    ensures
        match (all_listings(a, filter_noassertion), all_listings(b, filter_noassertion)) {
            (Ok(first), Ok(second)) => all_listings(a + b, filter_noassertion) == Ok::<
                Seq<Listing>,
                Failure,
            >(first + second),
            (Ok(_), Err(failure)) => all_listings(a + b, filter_noassertion) == Err::<
                Seq<Listing>,
                Failure,
            >(failure),
            (Err(failure), _) => all_listings(a + b, filter_noassertion) == Err::<
                Seq<Listing>,
                Failure,
            >(failure),
        },
    decreases b.len(),
{
    if b.len() == 0 {
        assert(a + b == a);
        if let Ok(first) = all_listings(a, filter_noassertion) {
            assert(first + Seq::<Listing>::empty() == first);
        }
    } else {
        assert((a + b).drop_last() == a + b.drop_last());
        assert((a + b).last() == b.last());
        listings_of_crates_add_up(a, b.drop_last(), filter_noassertion);
        if let Ok(first) = all_listings(a, filter_noassertion) {
            if let Ok(second) = all_listings(b.drop_last(), filter_noassertion) {
                if let Ok(here) = crate_listings(b.last(), filter_noassertion) {
                    assert(first + second + here == first + (second + here));
                }
            }
        }
    }
}

proof fn one_crate_alone(input: CrateInput, filter_noassertion: bool)
    ensures
        all_listings(seq![input], filter_noassertion) == crate_listings(input, filter_noassertion),
{
    let one = seq![input];
    assert(one.drop_last() == Seq::<CrateInput>::empty());
    assert(all_listings(one.drop_last(), filter_noassertion) == Ok::<Seq<Listing>, Failure>(
        Seq::empty(),
    ));
    if let Ok(here) = crate_listings(input, filter_noassertion) {
        assert(Seq::<Listing>::empty() + here == here);
    }
}

/// A crate without license information is listed nowhere where such crates are dropped,
/// and is refused by name and version where they are not.
pub proof fn unlicensed_crate_is_dropped_or_refused(input: CrateInput)
    requires
        input.package.license is None,
    ensures
        all_listings(seq![input], true) == Ok::<Seq<Listing>, Failure>(Seq::empty()),
        all_listings(seq![input], false) == Err::<Seq<Listing>, Failure>(
            Failure::NoLicense { name: input.package.name@, version: input.package.version@ },
        ),
{
    one_crate_alone(input, true);
    one_crate_alone(input, false);
}

/// A crate whose license expression cannot be parsed, or is not satisfied, is refused with
/// the expression and its name and version.
pub proof fn unacceptable_crate_is_refused(input: CrateInput, filter_noassertion: bool)
    requires
        input.package.license is Some,
    ensures
        ({
            let license = input.package.license->0@;
            let name = input.package.name@;
            let version = input.package.version@;
            let r = all_listings(seq![input], filter_noassertion);
            match lax_parse(license) {
                Err(reason) => r == Err::<Seq<Listing>, Failure>(
                    Failure::CannotParse { license, name, version, reason },
                ),
                Ok(nodes) => if satisfied(nodes) {
                    r is Ok
                } else {
                    r == Err::<Seq<Listing>, Failure>(
                        Failure::NotAccepted { license, name, version },
                    )
                },
            }
        }),
{
    one_crate_alone(input, filter_noassertion);
}

/// An accepted crate is listed under exactly the accepted licenses that its expression
/// mentions.
pub proof fn accepted_crate_is_listed_by_its_licenses(
    input: CrateInput,
    filter_noassertion: bool,
    id: Seq<char>,
    full_name: Seq<char>,
)
    requires
        input.package.license is Some,
        lax_parse(input.package.license->0@) is Ok,
        satisfied(lax_parse(input.package.license->0@)->Ok_0),
    ensures
        ({
            let items = required(lax_parse(input.package.license->0@)->Ok_0);
            let listings = all_listings(seq![input], filter_noassertion)->Ok_0;
            (exists|k: int|
                0 <= k < listings.len() && (#[trigger] listings[k]).id == id
                    && listings[k].full_name == full_name) <==> exists|j: int|
                0 <= j < items.len() && item_string(#[trigger] items[j]) == id && item_full_name(
                    items[j],
                ) == full_name && accepted(id)
        }),
{
    one_crate_alone(input, filter_noassertion);
    let items = required(lax_parse(input.package.license->0@)->Ok_0);
    let pairs = crate::expression::listed_pairs(items);
    let listings = all_listings(seq![input], filter_noassertion)->Ok_0;
    listed_exactly_accepted(items, (id, full_name));
    if exists|k: int|
        0 <= k < listings.len() && (#[trigger] listings[k]).id == id && listings[k].full_name
            == full_name {
        let k = choose|k: int|
            0 <= k < listings.len() && (#[trigger] listings[k]).id == id && listings[k].full_name
                == full_name;
        assert(pairs[k] == (id, full_name));
        assert(pairs.contains((id, full_name)));
    }
    if pairs.contains((id, full_name)) {
        let k = choose|k: int| 0 <= k < pairs.len() && pairs[k] == (id, full_name);
        assert(listings[k].id == id && listings[k].full_name == full_name);
    }
}

/// Each listing of a crate has its name, version and repository, and contributes the
/// harvested form of the text that its files have for the license, if any. A generic file
/// serves only where the expression mentions one license alone.
pub proof fn listing_tells_of_its_crate(input: CrateInput, filter_noassertion: bool, k: int)
    requires
        input.package.license is Some,
        lax_parse(input.package.license->0@) is Ok,
        satisfied(lax_parse(input.package.license->0@)->Ok_0),
        0 <= k < all_listings(seq![input], filter_noassertion)->Ok_0.len(),
    ensures
        ({
            let items = required(lax_parse(input.package.license->0@)->Ok_0);
            let l = all_listings(seq![input], filter_noassertion)->Ok_0[k];
            let single = forall|i: int, j: int|
                0 <= i < items.len() && 0 <= j < items.len() ==> item_string(#[trigger] items[i])
                    == item_string(#[trigger] items[j]);
            let text = license_text(l.id, contents(input.files@), single);
            &&& l.entry.name == input.package.name@
            &&& l.entry.version == input.package.version@
            &&& l.entry.repository is Some == input.package.repository is Some
            &&& l.entry.repository is Some ==> l.entry.repository->0
                == input.package.repository->0@
            &&& l.text is Some == text is Some
            &&& l.text is Some ==> l.text->0 == normalized(text->0)
        }),
{
    one_crate_alone(input, filter_noassertion);
}

/// A crate in a section keeps its name, version and repository.
pub proof fn crates_keep_what_is_said_of_them(crates: Seq<CrateRef>, i: int)
    requires
        0 <= i < crates.len(),
    ensures
        entries_of(crates).len() == crates.len(),
        entries_of(crates)[i].name == crates[i].name@,
        entries_of(crates)[i].version == crates[i].version@,
        entries_of(crates)[i].repository is Some == crates[i].repository is Some,
        crates[i].repository is Some ==> entries_of(crates)[i].repository->0
            == crates[i].repository->0@,
{
}

/// A section keeps its id, name, text, count and crates.
pub proof fn sections_keep_what_is_said_of_them(sections: Seq<LicenseSection>, i: int)
    requires
        0 <= i < sections.len(),
    ensures
        sections_of(sections).len() == sections.len(),
        sections_of(sections)[i].id == sections[i].id@,
        sections_of(sections)[i].name == sections[i].name@,
        sections_of(sections)[i].text == sections[i].text@,
        sections_of(sections)[i].count == sections[i].count,
        sections_of(sections)[i].used_by == entries_of(sections[i].used_by@),
{
}

} // verus!
