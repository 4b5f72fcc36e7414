//! The listing: the licenses in use, each with its text and the crates under it.

use crate::error::{Failure, LicenseError};
use crate::expression::{judge, lax_parse, licensed, Grant};
use crate::files::{contents, find_license_text, license_text};
use crate::harvest::{count_text, normalize_text, normalized, representative_text, shown_text,
    tally, tally_is_bounded, variants_of};
use crate::order::{ascending, in_order, item_key, item_keys, place, placing_commutes, Key, Keyed};
use crate::resolve::Package;
use crate::text::opt_view;
use vstd::prelude::*;

verus! {

/// Silently drop crates without any license information instead of failing.
pub const FILTER_NOASSERTION: bool = true;

/// A crate that is listed under a license.
#[derive(Debug)]
pub struct CrateRef {
    pub name: String,
    pub version: String,
    pub repository: Option<String>,
}

/// A license with its text and the crates under it.
#[derive(Debug)]
pub struct LicenseSection {
    pub id: String,
    pub name: String,
    pub text: String,
    pub count: usize,
    pub used_by: Vec<CrateRef>,
}

/// A package with the names and texts of its license files.
#[derive(Debug)]
pub struct CrateInput<'a> {
    pub package: &'a Package,
    pub files: Vec<(String, String)>,
}

/// The contents of a [`CrateRef`].
pub struct CrateEntry {
    pub name: Seq<char>,
    pub version: Seq<char>,
    pub repository: Option<Seq<char>>,
}

/// The contents of a [`LicenseSection`].
pub struct SectionEntry {
    pub id: Seq<char>,
    pub name: Seq<char>,
    pub text: Seq<char>,
    pub count: nat,
    pub used_by: Seq<CrateEntry>,
}

/// That a crate is listed under a license, and the text that it contributes.
pub struct Listing {
    pub id: Seq<char>,
    pub full_name: Seq<char>,
    pub entry: CrateEntry,
    pub text: Option<Seq<char>>,
}

impl View for CrateRef {
    type V = CrateEntry;

    open spec fn view(&self) -> CrateEntry {
        CrateEntry {
            name: self.name@,
            version: self.version@,
            repository: opt_view(self.repository),
        }
    }
}

/// How a crate is viewed.
pub open spec fn crate_view() -> spec_fn(CrateRef) -> CrateEntry {
    |c: CrateRef| c@
}

/// The contents of crates.
pub open spec fn entries_of(crates: Seq<CrateRef>) -> Seq<CrateEntry> {
    crates.map_values(crate_view())
}

impl View for LicenseSection {
    type V = SectionEntry;

    open spec fn view(&self) -> SectionEntry {
        SectionEntry {
            id: self.id@,
            name: self.name@,
            text: self.text@,
            count: self.count as nat,
            used_by: entries_of(self.used_by@),
        }
    }
}

/// How a section is viewed.
pub open spec fn section_view() -> spec_fn(LicenseSection) -> SectionEntry {
    |s: LicenseSection| s@
}

/// The contents of sections.
pub open spec fn sections_of(sections: Seq<LicenseSection>) -> Seq<SectionEntry> {
    sections.map_values(section_view())
}

/// Crates are ordered by name, then by version.
pub open spec fn entry_key() -> spec_fn(CrateEntry) -> Key {
    |c: CrateEntry| (c.name, c.version)
}

/// Sections are ordered by name, then by license id.
pub open spec fn section_key() -> spec_fn(SectionEntry) -> Key {
    |s: SectionEntry| (s.name, s.id)
}

impl Keyed for CrateRef {
    open spec fn key(&self) -> Key {
        (self.name@, self.version@)
    }

    fn first(&self) -> (r: &str) {
        self.name.as_str()
    }

    fn second(&self) -> (r: &str) {
        self.version.as_str()
    }
}

impl Keyed for LicenseSection {
    open spec fn key(&self) -> Key {
        (self.name@, self.id@)
    }

    fn first(&self) -> (r: &str) {
        self.name.as_str()
    }

    fn second(&self) -> (r: &str) {
        self.id.as_str()
    }
}

/// The entry of a package.
pub open spec fn package_entry(package: Package) -> CrateEntry {
    CrateEntry {
        name: package.name@,
        version: package.version@,
        repository: opt_view(package.repository),
    }
}

/// The listing of a crate under the license `pair`.
pub open spec fn listing(input: CrateInput, pair: Key, single: bool) -> Listing {
    Listing {
        id: pair.0,
        full_name: pair.1,
        entry: package_entry(*input.package),
        text: match license_text(pair.0, contents(input.files@), single) {
            Some(text) => Some(normalized(text)),
            None => None,
        },
    }
}

/// The listings of a crate under the licenses `pairs`.
pub open spec fn pair_listings(input: CrateInput, pairs: Seq<Key>, single: bool) -> Seq<Listing> {
    pairs.map_values(|pair: Key| listing(input, pair, single))
}

/// The listings of a crate, or why it is refused. `filter_noassertion` says whether one
/// without license information is dropped.
pub open spec fn crate_listings(input: CrateInput, filter_noassertion: bool) -> Result<
    Seq<Listing>,
    Failure,
> {
    let package = *input.package;
    match package.license {
        None => if filter_noassertion {
            Ok(Seq::empty())
        } else {
            Err(Failure::NoLicense { name: package.name@, version: package.version@ })
        },
        Some(license) => match licensed(
            package.name@,
            package.version@,
            license@,
            lax_parse(license@),
        ) {
            Ok((pairs, single)) => Ok(pair_listings(input, pairs, single)),
            Err(failure) => Err(failure),
        },
    }
}

/// The listings of all crates, in order, or why the first refused one is refused.
pub open spec fn all_listings(inputs: Seq<CrateInput>, filter_noassertion: bool) -> Result<
    Seq<Listing>,
    Failure,
>
    decreases inputs.len(),
{
    if inputs.len() == 0 {
        Ok(Seq::empty())
    } else {
        match all_listings(inputs.drop_last(), filter_noassertion) {
            Err(failure) => Err(failure),
            Ok(before) => match crate_listings(inputs.last(), filter_noassertion) {
                Err(failure) => Err(failure),
                Ok(here) => Ok(before + here),
            },
        }
    }
}

/// The license ids in `listings`, each once, in the order of first occurrence.
pub open spec fn license_ids(listings: Seq<Listing>) -> Seq<Seq<char>>
    decreases listings.len(),
{
    if listings.len() == 0 {
        Seq::empty()
    } else {
        let before = license_ids(listings.drop_last());
        if before.contains(listings.last().id) {
            before
        } else {
            before.push(listings.last().id)
        }
    }
}

/// The listings under the license `id`.
pub open spec fn mentions(listings: Seq<Listing>, id: Seq<char>) -> Seq<Listing>
    decreases listings.len(),
{
    if listings.len() == 0 {
        Seq::empty()
    } else {
        let before = mentions(listings.drop_last(), id);
        if listings.last().id == id {
            before.push(listings.last())
        } else {
            before
        }
    }
}

/// The crates in `listings`.
pub open spec fn listed_entries(listings: Seq<Listing>) -> Seq<CrateEntry> {
    listings.map_values(|l: Listing| l.entry)
}

/// The texts that are contributed in `listings`.
pub open spec fn contributed(listings: Seq<Listing>) -> Seq<Seq<char>>
    decreases listings.len(),
{
    if listings.len() == 0 {
        Seq::empty()
    } else {
        match listings.last().text {
            Some(text) => contributed(listings.drop_last()).push(text),
            None => contributed(listings.drop_last()),
        }
    }
}

/// The section of the license `id`: named as where it first occurs, with its crates in
/// order, each once.
pub open spec fn section_for(listings: Seq<Listing>, id: Seq<char>) -> SectionEntry {
    let here = mentions(listings, id);
    let used_by = in_order(listed_entries(here), entry_key());
    SectionEntry {
        id,
        name: here[0].full_name,
        text: shown_text(id, tally(contributed(here))),
        count: used_by.len(),
        used_by,
    }
}

/// The sections of all licenses in `listings`, in order.
pub open spec fn listed_sections(listings: Seq<Listing>) -> Seq<SectionEntry> {
    in_order(
        license_ids(listings).map_values(|id: Seq<char>| section_for(listings, id)),
        section_key(),
    )
}

/// What is gathered of one license.
struct Group {
    id: String,
    name: String,
    crates: Vec<CrateRef>,
    texts: Vec<(String, usize)>,
}

/// Whether `group` holds what `listings` say of its license.
spec fn gathers(group: Group, listings: Seq<Listing>) -> bool {
    let here = mentions(listings, group.id@);
    &&& here.len() > 0
    &&& group.name@ == here[0].full_name
    &&& entries_of(group.crates@) == listed_entries(here)
    &&& variants_of(group.texts@) == tally(contributed(here))
}

/// What is gathered of all licenses.
struct Gathering {
    groups: Vec<Group>,
    listings: Ghost<Seq<Listing>>,
}

impl Gathering {
    spec fn well_formed(self) -> bool {
        let ids = license_ids(self.listings@);
        &&& self.groups@.len() == ids.len()
        &&& forall|i: int|
            0 <= i < ids.len() ==> (#[trigger] self.groups@[i]).id@ == ids[i] && gathers(
                self.groups@[i],
                self.listings@,
            )
    }

    fn new() -> (r: Gathering)
        ensures
            r.well_formed(),
            r.listings@ == Seq::<Listing>::empty(),
    {
        Gathering { groups: Vec::new(), listings: Ghost(Seq::empty()) }
    }

    /// Adds a listing.
    fn add(&mut self, id: &str, full_name: &str, entry: CrateRef, text: Option<String>)
        requires
            old(self).well_formed(),
        ensures
            final(self).well_formed(),
            final(self).listings@ == old(self).listings@.push(
                Listing { id: id@, full_name: full_name@, entry: entry@, text: opt_view(text) },
            ),
    {
        let ghost before = self.listings@;
        let ghost new = Listing {
            id: id@,
            full_name: full_name@,
            entry: entry@,
            text: opt_view(text),
        };
        let ghost ids = license_ids(before);
        let ghost old_groups = self.groups@;
        proof {
            self.listings@ = before.push(new);
            assert(before.push(new).drop_last() == before);
            ids_are_distinct(before);
        }
        let mut i: usize = 0;
        while i < self.groups.len()
            invariant
                i <= self.groups@.len(),
                self.groups@ == old_groups,
                self.listings@ == before.push(new),
                old_groups.len() == ids.len(),
                forall|j: int| 0 <= j < ids.len() ==> (#[trigger] old_groups[j]).id@ == ids[j],
                forall|j: int| 0 <= j < i ==> (#[trigger] ids[j]) != id@,
            ensures
                i <= self.groups@.len(),
                self.groups@ == old_groups,
                self.listings@ == before.push(new),
                i < ids.len() ==> ids[i as int] == id@,
                i == ids.len() ==> forall|j: int| 0 <= j < ids.len() ==> (#[trigger] ids[j]) != id@,
            decreases self.groups@.len() - i,
        {
            if self.groups[i].id.as_str().eq(id) {
                break ;
            }
            i += 1;
        }
        proof {
            assert forall|other: Seq<char>| other != id@ implies #[trigger] mentions(
                before.push(new),
                other,
            ) == mentions(before, other) by {}
        }
        if i < self.groups.len() {
            let ghost group = old_groups[i as int];
            let ghost here = mentions(before, id@);
            let mut updated = self.groups.remove(i);
            proof {
                assert(gathers(group, before));
                contributions_are_bounded(here);
                assert forall|n: int| 0 <= n < updated.texts@.len() implies (
                #[trigger] updated.texts@[n]).1 <= here.len() by {
                    tally_is_bounded(contributed(here), n);
                    assert(variants_of(updated.texts@)[n] == tally(contributed(here))[n]);
                }
                assert(entries_of(updated.crates@).len() == here.len());
            }
            updated.crates.push(entry);
            assert(updated.crates.len() == here.len() + 1);
            if let Some(text) = text {
                count_text(&mut updated.texts, text);
            }
            proof {
                assert(mentions(before.push(new), id@) == here.push(new));
                assert(here.push(new).drop_last() == here);
                assert(entries_of(updated.crates@) == listed_entries(here).push(new.entry));
                assert(listed_entries(here.push(new)) == listed_entries(here).push(new.entry));
                if new.text is Some {
                    let texts = contributed(here);
                    assert(texts.push(new.text->0).drop_last() == texts);
                }
                assert(ids.contains(id@)) by {
                    assert(ids[i as int] == id@);
                }
                assert(gathers(updated, before.push(new)));
            }
            self.groups.insert(i, updated);
            assert(self.groups@ == old_groups.update(i as int, updated));
        } else {
            let mut crates: Vec<CrateRef> = Vec::new();
            crates.push(entry);
            let mut texts: Vec<(String, usize)> = Vec::new();
            if let Some(text) = text {
                count_text(&mut texts, text);
            }
            let group = Group { id: id.to_owned(), name: full_name.to_owned(), crates, texts };
            proof {
                unlisted_id_is_not_mentioned(before, id@);
                let here = Seq::<Listing>::empty();
                assert(mentions(before.push(new), id@) == here.push(new));
                assert(here.push(new).drop_last() == here);
                assert(entries_of(group.crates@) == listed_entries(here.push(new)));
                let none = Seq::<Seq<char>>::empty();
                assert(contributed(here) == none);
                assert(tally(none) == Seq::<(Seq<char>, nat)>::empty());
                if new.text is Some {
                    assert(none.push(new.text->0).drop_last() == none);
                    assert(variants_of(Seq::<(String, usize)>::empty()) == tally(none));
                }
                assert(variants_of(group.texts@) == tally(contributed(here.push(new))));
                assert(gathers(group, before.push(new)));
            }
            self.groups.push(group);
        }
        assert forall|j: int| 0 <= j < self.groups@.len() implies (#[trigger] self.groups@[j]).id@
            == license_ids(before.push(new))[j] && gathers(self.groups@[j], before.push(new)) by {
            if j != i {
                assert(self.groups@[j] == old_groups[j]);
                assert(gathers(old_groups[j], before));
                assert(ids[j] != id@);
                assert(mentions(before.push(new), ids[j]) == mentions(before, ids[j]));
            }
        }
    }
}

/// No id occurs twice.
pub proof fn ids_are_distinct(listings: Seq<Listing>)
    ensures
        license_ids(listings).no_duplicates(),
    decreases listings.len(),
{
    if listings.len() > 0 {
        ids_are_distinct(listings.drop_last());
    }
}

proof fn unlisted_id_is_not_mentioned(listings: Seq<Listing>, id: Seq<char>)
    requires
        !license_ids(listings).contains(id),
    ensures
        mentions(listings, id) == Seq::<Listing>::empty(),
    decreases listings.len(),
{
    if listings.len() > 0 {
        let before = license_ids(listings.drop_last());
        let ids = license_ids(listings);
        assert(!before.contains(id)) by {
            if before.contains(id) {
                let i = choose|i: int| 0 <= i < before.len() && before[i] == id;
                assert(ids[i] == id);
            }
        }
        assert(listings.last().id != id) by {
            if !before.contains(listings.last().id) {
                assert(ids[before.len() as int] == listings.last().id);
            }
        }
        unlisted_id_is_not_mentioned(listings.drop_last(), id);
    }
}

proof fn contributions_are_bounded(listings: Seq<Listing>)
    ensures
        contributed(listings).len() <= listings.len(),
    decreases listings.len(),
{
    if listings.len() > 0 {
        contributions_are_bounded(listings.drop_last());
    }
}

/// A refusal among the first crates is that of all of them.
proof fn refusal_stands(inputs: Seq<CrateInput>, filter_noassertion: bool, n: int)
    requires
        0 <= n <= inputs.len(),
        all_listings(inputs.take(n), filter_noassertion) is Err,
    ensures
        all_listings(inputs, filter_noassertion) == all_listings(
            inputs.take(n),
            filter_noassertion,
        ),
    decreases inputs.len() - n,
{
    if n == inputs.len() {
        assert(inputs.take(n) == inputs);
    } else {
        assert(inputs.take(n + 1).drop_last() == inputs.take(n));
        refusal_stands(inputs, filter_noassertion, n + 1);
    }
}

/// The entry of a package.
fn entry_of(package: &Package) -> (r: CrateRef)
    ensures
        r@ == package_entry(*package),
{
    let repository = match &package.repository {
        Some(url) => Some(url.clone()),
        None => None,
    };
    CrateRef { name: package.name.clone(), version: package.version.clone(), repository }
}

/// Adds the listings of a crate under the licenses that it is granted.
fn gather_crate(gathering: &mut Gathering, input: &CrateInput, grant: &Grant)
    requires
        old(gathering).well_formed(),
    ensures
        final(gathering).well_formed(),
        final(gathering).listings@ == old(gathering).listings@ + pair_listings(
            *input,
            item_keys(grant.licenses@),
            grant.single,
        ),
{
    let ghost before = gathering.listings@;
    let ghost added = pair_listings(*input, item_keys(grant.licenses@), grant.single);
    let mut i: usize = 0;
    assert(before + added.take(0) == before);
    while i < grant.licenses.len()
        invariant
            i <= grant.licenses@.len(),
            gathering.well_formed(),
            added == pair_listings(*input, item_keys(grant.licenses@), grant.single),
            gathering.listings@ == before + added.take(i as int),
        decreases grant.licenses@.len() - i,
    {
        let id = grant.licenses[i].0.as_str();
        let full_name = grant.licenses[i].1.as_str();
        let text = normalize_text(find_license_text(id, &input.files, grant.single));
        gathering.add(id, full_name, entry_of(input.package), text);
        assert(added.take(i + 1) == added.take(i as int).push(added[i as int]));
        assert(before + added.take(i + 1) == (before + added.take(i as int)).push(
            added[i as int],
        ));
        i += 1;
    }
    assert(added.take(grant.licenses@.len() as int) == added);
}

/// The listings of all crates, gathered by license.
fn gather(inputs: &Vec<CrateInput>, filter_noassertion: bool) -> (r: Result<
    Gathering,
    LicenseError,
>)
    ensures
        match r {
            Ok(gathering) => gathering.well_formed() && all_listings(inputs@, filter_noassertion)
                == Ok::<Seq<Listing>, Failure>(gathering.listings@),
            Err(error) => all_listings(inputs@, filter_noassertion) == Err::<
                Seq<Listing>,
                Failure,
            >(error@),
        },
{
    let mut gathering = Gathering::new();
    let mut i: usize = 0;
    while i < inputs.len()
        invariant
            i <= inputs@.len(),
            gathering.well_formed(),
            all_listings(inputs@.take(i as int), filter_noassertion) == Ok::<
                Seq<Listing>,
                Failure,
            >(gathering.listings@),
        decreases inputs@.len() - i,
    {
        let input = &inputs[i];
        assert(inputs@.take(i + 1).drop_last() == inputs@.take(i as int));
        assert(inputs@.take(i + 1).last() == *input);
        match &input.package.license {
            None => {
                if !filter_noassertion {
                    proof {
                        refusal_stands(inputs@, filter_noassertion, i + 1);
                    }
                    return Err(
                        LicenseError::NoLicense {
                            name: input.package.name.clone(),
                            version: input.package.version.clone(),
                        },
                    );
                }
                assert(gathering.listings@ + Seq::<Listing>::empty() == gathering.listings@);
            },
            Some(license) => {
                match judge(
                    input.package.name.as_str(),
                    input.package.version.as_str(),
                    license.as_str(),
                ) {
                    Ok(grant) => {
                        gather_crate(&mut gathering, input, &grant);
                    },
                    Err(error) => {
                        proof {
                            refusal_stands(inputs@, filter_noassertion, i + 1);
                        }
                        return Err(error);
                    },
                }
            },
        }
        i += 1;
    }
    assert(inputs@.take(inputs@.len() as int) == inputs@);
    Ok(gathering)
}

/// A crate with the same contents.
fn copy_crate(entry: &CrateRef) -> (r: CrateRef)
    ensures
        r@ == entry@,
{
    let repository = match &entry.repository {
        Some(url) => Some(url.clone()),
        None => None,
    };
    CrateRef { name: entry.name.clone(), version: entry.version.clone(), repository }
}

/// The crates in order, each once.
fn ordered_crates(crates: &Vec<CrateRef>) -> (r: Vec<CrateRef>)
    ensures
        entries_of(r@) == in_order(entries_of(crates@), entry_key()),
{
    let ghost all = entries_of(crates@);
    let mut out: Vec<CrateRef> = Vec::new();
    let mut i: usize = 0;
    assert(entries_of(out@) == in_order(all.take(0), entry_key()));
    while i < crates.len()
        invariant
            i <= crates@.len(),
            all == entries_of(crates@),
            ascending(item_keys(out@)),
            entries_of(out@) == in_order(all.take(i as int), entry_key()),
        decreases crates@.len() - i,
    {
        let entry = copy_crate(&crates[i]);
        assert(all.take(i + 1).drop_last() == all.take(i as int));
        assert(all.take(i + 1).last() == entry@);
        proof {
            placing_commutes(
                out@,
                item_key::<CrateRef>(),
                entry,
                crate_view(),
                entry_key(),
            );
        }
        place(&mut out, entry);
        i += 1;
    }
    assert(all.take(crates@.len() as int) == all);
    out
}

/// The section of a group.
fn section_of_group(group: &Group, Ghost(listings): Ghost<Seq<Listing>>) -> (r: LicenseSection)
    requires
        gathers(*group, listings),
    ensures
        r@ == section_for(listings, group.id@),
{
    let used_by = ordered_crates(&group.crates);
    let text = representative_text(group.id.as_str(), Some(&group.texts));
    let count: usize = used_by.len();
    assert(entries_of(used_by@).len() == count);
    LicenseSection { id: group.id.clone(), name: group.name.clone(), text, count, used_by }
}

/// The sections of what was gathered, in order.
fn sections_of_gathering(gathering: &Gathering) -> (r: Vec<LicenseSection>)
    requires
        gathering.well_formed(),
    ensures
        sections_of(r@) == listed_sections(gathering.listings@),
{
    let ghost listings = gathering.listings@;
    let ghost all = license_ids(listings).map_values(
        |id: Seq<char>| section_for(listings, id),
    );
    let mut out: Vec<LicenseSection> = Vec::new();
    let mut i: usize = 0;
    assert(sections_of(out@) == in_order(all.take(0), section_key()));
    while i < gathering.groups.len()
        invariant
            i <= gathering.groups@.len(),
            gathering.well_formed(),
            listings == gathering.listings@,
            all == license_ids(listings).map_values(|id: Seq<char>| section_for(listings, id)),
            ascending(item_keys(out@)),
            sections_of(out@) == in_order(all.take(i as int), section_key()),
        decreases gathering.groups@.len() - i,
    {
        let section = section_of_group(&gathering.groups[i], Ghost(listings));
        assert(all.take(i + 1).drop_last() == all.take(i as int));
        assert(all.take(i + 1).last() == section@);
        proof {
            placing_commutes(
                out@,
                item_key::<LicenseSection>(),
                section,
                section_view(),
                section_key(),
            );
        }
        place(&mut out, section);
        i += 1;
    }
    assert(all.take(gathering.groups@.len() as int) == all);
    out
}

/// The sections for the given crates, or why the first refused crate is refused:
/// its license expression cannot be parsed, is not satisfied by the accepted licenses,
/// or is missing where `filter_noassertion` does not say to drop such a crate.
pub fn license_sections(inputs: &Vec<CrateInput>, filter_noassertion: bool) -> (r: Result<
    Vec<LicenseSection>,
    LicenseError,
>)
    ensures
        match r {
            Ok(sections) => all_listings(inputs@, filter_noassertion) matches Ok(listings)
                && sections_of(sections@) == listed_sections(listings),
            Err(error) => all_listings(inputs@, filter_noassertion) == Err::<
                Seq<Listing>,
                Failure,
            >(error@),
        },
{
    match gather(inputs, filter_noassertion) {
        Ok(gathering) => Ok(sections_of_gathering(&gathering)),
        Err(error) => Err(error),
    }
}

} // verus!
