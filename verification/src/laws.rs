//! What holds of every listing, and in the modules below of each step on the way to it.

pub mod cfg;
pub mod command;
pub mod expression;
pub mod files;
pub mod html;
pub mod json;
pub mod listing;
pub mod order;
pub mod resolve;
pub mod text;

use crate::expression::{accepted, item_full_name, item_string, lax_parse, listed_exactly_accepted,
    listed_pairs, required, satisfied, satisfied_expression_mentions_accepted, single_license};
use crate::harvest::{canonical_or_remark, occurrences, shown_text_is_most_frequent, spdx_text};
use crate::listing::{all_listings, contributed, crate_listings, entry_key, ids_are_distinct, license_ids,
    listed_entries, listed_sections, listing, mentions, package_entry, pair_listings, section_for,
    section_key, CrateInput, Listing, SectionEntry};
use crate::order::{ascending, in_order, in_order_ascends, in_order_keeps_first, in_order_keys,
    keys_of};
use vstd::prelude::*;

verus! {

/// Whether a crate `name` `version` is listed in a section.
pub open spec fn lists(section: SectionEntry, name: Seq<char>, version: Seq<char>) -> bool {
    exists|n: int|
        0 <= n < section.used_by.len() && (#[trigger] section.used_by[n]).name == name
            && section.used_by[n].version == version
}

/// Whether a crate `name` `version` is listed under the license `id`.
pub open spec fn listed_under(
    sections: Seq<SectionEntry>,
    id: Seq<char>,
    name: Seq<char>,
    version: Seq<char>,
) -> bool {
    exists|s: int|
        0 <= s < sections.len() && (#[trigger] sections[s]).id == id && lists(
            sections[s],
            name,
            version,
        )
}

/// Whether a crate names no license, or one that can be parsed and that the accepted
/// licenses satisfy.
pub open spec fn acceptable(input: CrateInput) -> bool {
    input.package.license matches Some(license) ==> lax_parse(license@) matches Ok(nodes)
        && satisfied(nodes)
}

/// Every crate is accepted exactly where each one that names a license has an expression
/// that can be parsed and that the accepted licenses satisfy: a crate is rejected unless
/// its license expression is satisfiable.
pub proof fn accepted_where_all_satisfied(inputs: Seq<CrateInput>)
    ensures
        all_listings(inputs, true) is Ok <==> forall|i: int|
            0 <= i < inputs.len() ==> acceptable(#[trigger] inputs[i]),
    decreases inputs.len(),
{
    if inputs.len() > 0 {
        let rest = inputs.drop_last();
        let last = inputs.len() - 1;
        accepted_where_all_satisfied(rest);
        assert(crate_listings(inputs[last], true) is Ok <==> acceptable(inputs[last]));
        if all_listings(inputs, true) is Ok {
            assert forall|i: int| 0 <= i < inputs.len() implies acceptable(
                #[trigger] inputs[i],
            ) by {
                if i < last {
                    assert(rest[i] == inputs[i]);
                }
            }
        }
        if forall|i: int| 0 <= i < inputs.len() ==> acceptable(#[trigger] inputs[i]) {
            assert forall|i: int| 0 <= i < rest.len() implies acceptable(#[trigger] rest[i]) by {
                assert(rest[i] == inputs[i]);
            }
            assert(acceptable(inputs[last]));
        }
    }
}

/// A crate without license information leaves no trace in the listing.
pub proof fn unlicensed_crate_is_dropped(
    before: Seq<CrateInput>,
    input: CrateInput,
    after: Seq<CrateInput>,
)
    requires
        input.package.license is None,
    ensures
        all_listings(before + seq![input] + after, true) == all_listings(before + after, true),
    decreases after.len(),
{
    let with = before + seq![input] + after;
    let without = before + after;
    if after.len() == 0 {
        assert(with == before.push(input));
        assert(with.drop_last() == before);
        assert(without == before);
        if let Ok(listings) = all_listings(before, true) {
            assert(listings + Seq::<Listing>::empty() == listings);
        }
    } else {
        unlicensed_crate_is_dropped(before, input, after.drop_last());
        assert(with.drop_last() == before + seq![input] + after.drop_last());
        assert(without.drop_last() == before + after.drop_last());
        assert(with.last() == after.last() && without.last() == after.last());
    }
}

/// The listings of every crate are among those of all.
proof fn crate_listings_are_kept(
    inputs: Seq<CrateInput>,
    filter_noassertion: bool,
    i: int,
    listing: Listing,
)
    requires
        all_listings(inputs, filter_noassertion) is Ok,
        0 <= i < inputs.len(),
        crate_listings(inputs[i], filter_noassertion) matches Ok(here) ==> here.contains(listing),
    ensures
        crate_listings(inputs[i], filter_noassertion) is Ok,
        all_listings(inputs, filter_noassertion)->Ok_0.contains(listing),
    decreases inputs.len(),
{
    let rest = inputs.drop_last();
    let before = all_listings(rest, filter_noassertion)->Ok_0;
    let here = crate_listings(inputs.last(), filter_noassertion)->Ok_0;
    let all = all_listings(inputs, filter_noassertion)->Ok_0;
    assert(all == before + here);
    if i < rest.len() {
        assert(rest[i] == inputs[i]);
        crate_listings_are_kept(rest, filter_noassertion, i, listing);
        let n = choose|n: int| 0 <= n < before.len() && before[n] == listing;
        assert(all[n] == listing);
    } else {
        let n = choose|n: int| 0 <= n < here.len() && here[n] == listing;
        assert(all[before.len() + n] == listing);
    }
}

/// Whether `listing` is one of a crate.
spec fn has_listing(input: CrateInput, filter_noassertion: bool, listing: Listing) -> bool {
    crate_listings(input, filter_noassertion) matches Ok(here) && here.contains(listing)
}

/// Every listing is one of a crate.
proof fn listing_is_of_a_crate(inputs: Seq<CrateInput>, filter_noassertion: bool, listing: Listing)
    requires
        all_listings(inputs, filter_noassertion) matches Ok(all) && all.contains(listing),
    ensures
        exists|i: int|
            0 <= i < inputs.len() && has_listing(
                #[trigger] inputs[i],
                filter_noassertion,
                listing,
            ),
    decreases inputs.len(),
{
    let all = all_listings(inputs, filter_noassertion)->Ok_0;
    let n = choose|n: int| 0 <= n < all.len() && all[n] == listing;
    assert(inputs.len() > 0);
    let rest = inputs.drop_last();
    let before = all_listings(rest, filter_noassertion)->Ok_0;
    let here = crate_listings(inputs.last(), filter_noassertion)->Ok_0;
    assert(all == before + here);
    if n < before.len() {
        assert(before[n] == listing);
        listing_is_of_a_crate(rest, filter_noassertion, listing);
        let i = choose|i: int|
            0 <= i < rest.len() && has_listing(
                #[trigger] rest[i],
                filter_noassertion,
                listing,
            );
        assert(inputs[i] == rest[i]);
    } else {
        assert(here[n - before.len()] == listing);
        assert(inputs[inputs.len() - 1] == inputs.last());
    }
}

/// An id is among the license ids exactly where a listing has it, and then it is
/// mentioned there.
proof fn listing_is_mentioned(listings: Seq<Listing>, n: int)
    requires
        0 <= n < listings.len(),
    ensures
        license_ids(listings).contains(listings[n].id),
        mentions(listings, listings[n].id).contains(listings[n]),
    decreases listings.len(),
{
    let rest = listings.drop_last();
    let l = listings[n];
    let before = license_ids(rest);
    let ids = license_ids(listings);
    let old_mentions = mentions(rest, l.id);
    let new_mentions = mentions(listings, l.id);
    if n < rest.len() {
        assert(rest[n] == l);
        listing_is_mentioned(rest, n);
        let i = choose|i: int| 0 <= i < before.len() && before[i] == l.id;
        assert(ids[i] == l.id);
        let m = choose|m: int| 0 <= m < old_mentions.len() && old_mentions[m] == l;
        assert(new_mentions[m] == l);
    } else {
        if !before.contains(l.id) {
            assert(ids[before.len() as int] == l.id);
        }
        assert(new_mentions[old_mentions.len() as int] == l);
    }
}

/// Every license id is that of a listing.
proof fn id_is_of_a_listing(listings: Seq<Listing>, id: Seq<char>)
    requires
        license_ids(listings).contains(id),
    ensures
        exists|n: int| 0 <= n < listings.len() && (#[trigger] listings[n]).id == id,
    decreases listings.len(),
{
    if listings.len() > 0 {
        let rest = listings.drop_last();
        if license_ids(rest).contains(id) {
            id_is_of_a_listing(rest, id);
            let n = choose|n: int| 0 <= n < rest.len() && (#[trigger] rest[n]).id == id;
            assert(listings[n].id == id);
        } else {
            let ids = license_ids(listings);
            let i = choose|i: int| 0 <= i < ids.len() && ids[i] == id;
            if i < license_ids(rest).len() {
                assert(license_ids(rest)[i] == id);
            }
            assert(listings[listings.len() - 1].id == id);
        }
    }
}

/// There is one section for each license in the listings, and no other.
pub proof fn one_section_per_license(listings: Seq<Listing>, section: SectionEntry)
    ensures
        listed_sections(listings).contains(section) <==> license_ids(listings).contains(
            section.id,
        ) && section == section_for(listings, section.id),
{
    let ids = license_ids(listings);
    let f = |id: Seq<char>| section_for(listings, id);
    let all = ids.map_values(f);
    in_order_keeps_first(all, section_key(), section);
    ids_are_distinct(listings);
    if listed_sections(listings).contains(section) {
        let i = choose|i: int|
            0 <= i < all.len() && #[trigger] all[i] == section && !keys_of(
                all.take(i),
                section_key(),
            ).contains(section_key()(section));
        assert(all[i] == section_for(listings, ids[i]));
        assert(ids[i] == section.id);
    }
    if ids.contains(section.id) && section == section_for(listings, section.id) {
        let i = choose|i: int| 0 <= i < ids.len() && ids[i] == section.id;
        assert(all[i] == section);
        let earlier = keys_of(all.take(i), section_key());
        assert(!earlier.contains(section_key()(section))) by {
            if earlier.contains(section_key()(section)) {
                let j = choose|j: int|
                    0 <= j < earlier.len() && earlier[j] == section_key()(section);
                assert(all.take(i)[j] == all[j]);
                assert(all[j] == section_for(listings, ids[j]));
                assert(ids[j] == ids[i]);
            }
        }
    }
}

/// The sections are in the order of their names; of one name, in the order of the
/// license ids.
pub proof fn sections_are_ordered(listings: Seq<Listing>)
    ensures
        ascending(keys_of(listed_sections(listings), section_key())),
{
    in_order_ascends(
        license_ids(listings).map_values(|id: Seq<char>| section_for(listings, id)),
        section_key(),
    );
}

/// A section holds at least one crate and counts its crates. They are in the order of
/// names, then of versions, and none occurs twice.
pub proof fn section_lists_each_crate_once(listings: Seq<Listing>, section: SectionEntry)
    requires
        listed_sections(listings).contains(section),
    ensures
        section.count == section.used_by.len(),
        section.count > 0,
        ascending(keys_of(section.used_by, entry_key())),
{
    one_section_per_license(listings, section);
    id_is_of_a_listing(listings, section.id);
    let n = choose|n: int| 0 <= n < listings.len() && (#[trigger] listings[n]).id == section.id;
    listing_is_mentioned(listings, n);
    let here = mentions(listings, section.id);
    let m = choose|m: int| 0 <= m < here.len() && here[m] == listings[n];
    entry_is_listed(here, m);
    in_order_ascends(listed_entries(here), entry_key());
}

/// The crate of a listing is among the ordered crates.
proof fn entry_is_listed(here: Seq<Listing>, m: int)
    requires
        0 <= m < here.len(),
    ensures
        exists|n: int|
            0 <= n < in_order(listed_entries(here), entry_key()).len() && (#[trigger] in_order(
                listed_entries(here),
                entry_key(),
            )[n]).name == here[m].entry.name && in_order(listed_entries(here), entry_key())[n].version
                == here[m].entry.version,
{
    let entries = listed_entries(here);
    let key = entry_key()(here[m].entry);
    let keys = keys_of(entries, entry_key());
    assert(entries[m] == here[m].entry);
    assert(keys[m] == key);
    in_order_keys(entries, entry_key(), key);
    let out = in_order(entries, entry_key());
    let n = choose|n: int| 0 <= n < keys_of(out, entry_key()).len() && keys_of(out, entry_key())[n] == key;
    assert(out[n].name == here[m].entry.name);
}

/// A crate is listed under every accepted license that its expression mentions, whether
/// the expression joins licenses by `OR` or by `AND`.
pub proof fn crate_is_listed_under_accepted_licenses(
    inputs: Seq<CrateInput>,
    i: int,
    j: int,
)
    requires
        all_listings(inputs, true) is Ok,
        0 <= i < inputs.len(),
        inputs[i].package.license is Some,
        lax_parse(inputs[i].package.license->0@) is Ok,
        0 <= j < required(lax_parse(inputs[i].package.license->0@)->Ok_0).len(),
        accepted(item_string(required(lax_parse(inputs[i].package.license->0@)->Ok_0)[j])),
    ensures
        listed_under(
            listed_sections(all_listings(inputs, true)->Ok_0),
            item_string(required(lax_parse(inputs[i].package.license->0@)->Ok_0)[j]),
            inputs[i].package.name@,
            inputs[i].package.version@,
        ),
{
    let input = inputs[i];
    let listings = all_listings(inputs, true)->Ok_0;
    let nodes = lax_parse(input.package.license->0@)->Ok_0;
    let items = required(nodes);
    let pair = (item_string(items[j]), item_full_name(items[j]));
    let single = single_license(items);
    let pairs = listed_pairs(items);
    let l = listing(input, pair, single);
    listed_exactly_accepted(items, pair);
    if crate_listings(input, true) is Ok {
        let here = pair_listings(input, pairs, single);
        let n = choose|n: int| 0 <= n < pairs.len() && pairs[n] == pair;
        assert(here[n] == l);
        assert(here.contains(l));
    }
    crate_listings_are_kept(inputs, true, i, l);
    let n = choose|n: int| 0 <= n < listings.len() && listings[n] == l;
    listing_is_mentioned(listings, n);
    let section = section_for(listings, pair.0);
    one_section_per_license(listings, section);
    let here = mentions(listings, pair.0);
    let m = choose|m: int| 0 <= m < here.len() && here[m] == l;
    entry_is_listed(here, m);
    assert(lists(section, input.package.name@, input.package.version@));
    let sections = listed_sections(listings);
    let s = choose|s: int| 0 <= s < sections.len() && sections[s] == section;
    assert(sections[s].id == pair.0);
}

/// Whether a crate mentions the accepted license `id`.
pub open spec fn mentions_accepted(input: CrateInput, id: Seq<char>) -> bool {
    &&& accepted(id)
    &&& input.package.license is Some
    &&& lax_parse(input.package.license->0@) is Ok
    &&& exists|j: int|
        0 <= j < required(lax_parse(input.package.license->0@)->Ok_0).len() && item_string(
            #[trigger] required(lax_parse(input.package.license->0@)->Ok_0)[j],
        ) == id
}

/// Only accepted licenses have a section, and a section lists only crates whose
/// expression mentions its license.
pub proof fn only_mentioned_licenses_are_listed(
    inputs: Seq<CrateInput>,
    section: SectionEntry,
    n: int,
)
    requires
        all_listings(inputs, true) matches Ok(listings) && listed_sections(listings).contains(
            section,
        ),
        0 <= n < section.used_by.len(),
    ensures
        accepted(section.id),
        exists|i: int|
            0 <= i < inputs.len() && mentions_accepted(#[trigger] inputs[i], section.id)
                && section.used_by[n] == package_entry(*inputs[i].package),
{
    let listings = all_listings(inputs, true)->Ok_0;
    one_section_per_license(listings, section);
    let here = mentions(listings, section.id);
    let entries = listed_entries(here);
    let entry = section.used_by[n];
    assert(section.used_by.contains(entry));
    in_order_keeps_first(entries, entry_key(), entry);
    let m = choose|m: int|
        0 <= m < entries.len() && #[trigger] entries[m] == entry && !keys_of(
            entries.take(m),
            entry_key(),
        ).contains(entry_key()(entry));
    let l = here[m];
    assert(l.entry == entry);
    mention_is_a_listing(listings, section.id, m);
    listing_is_of_a_crate(inputs, true, l);
    let i = choose|i: int|
        0 <= i < inputs.len() && has_listing(#[trigger] inputs[i], true, l);
    let input = inputs[i];
    let own = crate_listings(input, true)->Ok_0;
    let k = choose|k: int| 0 <= k < own.len() && own[k] == l;
    assert(input.package.license is Some);
    let nodes = lax_parse(input.package.license->0@)->Ok_0;
    let items = required(nodes);
    let pairs = listed_pairs(items);
    assert(own == pair_listings(input, pairs, single_license(items)));
    assert(own[k] == listing(input, pairs[k], single_license(items)));
    assert(pairs.contains(pairs[k]));
    listed_exactly_accepted(items, pairs[k]);
    let j = choose|j: int|
        0 <= j < items.len() && accepted(item_string(#[trigger] items[j])) && pairs[k] == (
            item_string(items[j]),
            item_full_name(items[j]),
        );
    assert(item_string(required(nodes)[j]) == section.id);
    assert(mentions_accepted(inputs[i], section.id));
}

/// What mentions an id is a listing under it.
proof fn mention_is_a_listing(listings: Seq<Listing>, id: Seq<char>, m: int)
    requires
        0 <= m < mentions(listings, id).len(),
    ensures
        listings.contains(mentions(listings, id)[m]),
        mentions(listings, id)[m].id == id,
    decreases listings.len(),
{
    let rest = listings.drop_last();
    let before = mentions(rest, id);
    let l = mentions(listings, id)[m];
    if m < before.len() {
        mention_is_a_listing(rest, id, m);
        let n = choose|n: int| 0 <= n < rest.len() && rest[n] == before[m];
        assert(listings[n] == l);
    } else {
        assert(listings[listings.len() - 1] == l);
    }
}

/// Whether a crate `name` `version` is listed at all.
pub open spec fn listed_somewhere(
    sections: Seq<SectionEntry>,
    name: Seq<char>,
    version: Seq<char>,
) -> bool {
    exists|s: int| 0 <= s < sections.len() && lists(#[trigger] sections[s], name, version)
}

/// In a listing every crate that names a license is listed: none is passed over.
pub proof fn every_licensed_crate_is_listed(inputs: Seq<CrateInput>, i: int)
    requires
        all_listings(inputs, true) is Ok,
        0 <= i < inputs.len(),
        inputs[i].package.license is Some,
    ensures
        listed_somewhere(
            listed_sections(all_listings(inputs, true)->Ok_0),
            inputs[i].package.name@,
            inputs[i].package.version@,
        ),
{
    accepted_where_all_satisfied(inputs);
    assert(acceptable(inputs[i]));
    let nodes = lax_parse(inputs[i].package.license->0@)->Ok_0;
    satisfied_expression_mentions_accepted(nodes);
    let j = choose|j: int|
        0 <= j < required(nodes).len() && accepted(item_string(#[trigger] required(nodes)[j]));
    crate_is_listed_under_accepted_licenses(inputs, i, j);
    let sections = listed_sections(all_listings(inputs, true)->Ok_0);
    let s = choose|s: int|
        0 <= s < sections.len() && (#[trigger] sections[s]).id == item_string(required(nodes)[j])
            && lists(sections[s], inputs[i].package.name@, inputs[i].package.version@);
    assert(lists(sections[s], inputs[i].package.name@, inputs[i].package.version@));
}

/// The text of a section is one that a crate under it contributes, and none is
/// contributed more often; where there is none, it is the canonical text or a remark.
pub proof fn section_shows_most_frequent_text(
    listings: Seq<Listing>,
    section: SectionEntry,
    other: Seq<char>,
)
    requires
        listed_sections(listings).contains(section),
    ensures
        ({
            let texts = contributed(mentions(listings, section.id));
            if texts.len() > 0 {
                &&& occurrences(texts, section.text) > 0
                &&& occurrences(texts, other) <= occurrences(texts, section.text)
            } else {
                section.text == canonical_or_remark(section.id, spdx_text(section.id))
            }
        }),
{
    one_section_per_license(listings, section);
    let texts = contributed(mentions(listings, section.id));
    if texts.len() > 0 {
        shown_text_is_most_frequent(section.id, texts, other);
    }
}

} // verus!
