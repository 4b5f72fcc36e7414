//! License files of a crate, and which of them holds the text of a license.

use crate::text::{after_prefix, begins_with, opt_view, same_ignoring_case, stem, stem_of, to_upper,
    upper};
use vstd::prelude::*;

verus! {

/// An entry of a directory.
#[derive(Debug)]
pub struct DirEntry {
    pub name: String,
    pub is_file: bool,
}

/// Whether a file at the top of a crate is named like one about licenses.
pub open spec fn license_file_name(name: Seq<char>) -> bool {
    ||| "LICENSE"@.is_prefix_of(upper(name))
    ||| "LICENCE"@.is_prefix_of(upper(name))
    ||| "COPYING"@.is_prefix_of(upper(name))
    ||| "COPYRIGHT"@.is_prefix_of(upper(name))
    ||| "UNLICENSE"@.is_prefix_of(upper(name))
    ||| "NOTICE"@.is_prefix_of(upper(name))
}

/// Whether an entry is a license file; in a `LICENSES` directory every file is.
pub open spec fn wanted(entry: DirEntry, in_licenses_dir: bool) -> bool {
    entry.is_file && (in_licenses_dir || license_file_name(entry.name@))
}

/// The positions of the license files among `entries`, in order.
pub open spec fn wanted_positions(entries: Seq<DirEntry>, in_licenses_dir: bool) -> Seq<int>
    decreases entries.len(),
{
    if entries.len() == 0 {
        Seq::empty()
    } else {
        let rest = wanted_positions(entries.drop_last(), in_licenses_dir);
        if wanted(entries.last(), in_licenses_dir) {
            rest.push(entries.len() - 1)
        } else {
            rest
        }
    }
}

/// A license file as it was read: its name, where that is UTF-8, and its text, where it
/// could be read as such.
#[derive(Debug)]
pub struct ReadFile {
    pub name: Option<String>,
    pub text: Option<String>,
}

/// The names and texts of the files that have both.
pub open spec fn readable(read: Seq<ReadFile>) -> Seq<(Seq<char>, Seq<char>)>
    decreases read.len(),
{
    if read.len() == 0 {
        Seq::empty()
    } else {
        match (read.last().name, read.last().text) {
            (Some(name), Some(text)) => readable(read.drop_last()).push((name@, text@)),
            _ => readable(read.drop_last()),
        }
    }
}

/// The license that a suffix in upper case most likely refers to.
pub open spec fn upper_suffix_license(suffix: Seq<char>) -> Option<Seq<char>> {
    if suffix == "APACHE"@ || suffix == "APACHE2"@ || suffix == "APACHE-2.0"@ || suffix
        == "APACHE2.0"@ {
        Some("Apache-2.0"@)
    } else if suffix == "MIT"@ {
        Some("MIT"@)
    } else if suffix == "ZLIB"@ {
        Some("Zlib"@)
    } else if suffix == "MPL"@ || suffix == "MPL-2.0"@ || suffix == "MPL2"@ {
        Some("MPL-2.0"@)
    } else if suffix == "ISC"@ {
        Some("ISC"@)
    } else if suffix == "BSL"@ || suffix == "BOOST"@ {
        Some("BSL-1.0"@)
    } else if suffix == "UNICODE"@ {
        Some("Unicode-3.0"@)
    } else {
        None
    }
}

/// The license that a suffix most likely refers to, whatever the case of its letters.
pub open spec fn suffix_license(suffix: Seq<char>) -> Option<Seq<char>> {
    upper_suffix_license(upper(suffix))
}

/// What follows `LICENSE-`, `LICENSE.`, `LICENCE-` or `LICENCE.` in a file name in
/// upper case.
pub open spec fn conventional_suffix(name: Seq<char>) -> Option<Seq<char>> {
    if "LICENSE-"@.is_prefix_of(name) {
        Some(name.skip("LICENSE-"@.len() as int))
    } else if "LICENSE."@.is_prefix_of(name) {
        Some(name.skip("LICENSE."@.len() as int))
    } else if "LICENCE-"@.is_prefix_of(name) {
        Some(name.skip("LICENCE-"@.len() as int))
    } else if "LICENCE."@.is_prefix_of(name) {
        Some(name.skip("LICENCE."@.len() as int))
    } else {
        None
    }
}

/// The license that a conventional file name tells by its suffix, be it the whole suffix,
/// as in `LICENSE-APACHE-2.0`, or what stands before an extension, as in
/// `LICENSE-MIT.txt`.
pub open spec fn named_license(name: Seq<char>) -> Option<Seq<char>> {
    match conventional_suffix(upper(name)) {
        Some(suffix) => if suffix_license(suffix) is Some {
            suffix_license(suffix)
        } else {
            suffix_license(stem(suffix))
        },
        None => None,
    }
}

/// Whether a file name is that of a license file that tells no particular license,
/// such as `LICENSE`, `LICENSE.md` or `COPYING`.
pub open spec fn generic_name(name: Seq<char>) -> bool {
    &&& named_license(name) is None
    &&& upper(stem(name)) == "LICENSE"@ || upper(stem(name)) == "LICENCE"@ || upper(stem(name))
        == "COPYING"@
}

/// Names and texts of files.
pub open spec fn contents(files: Seq<(String, String)>) -> Seq<(Seq<char>, Seq<char>)> {
    files.map_values(|f: (String, String)| (f.0@, f.1@))
}

/// The text of the first file whose name without its extension is `id`.
pub open spec fn reuse_text(id: Seq<char>, files: Seq<(Seq<char>, Seq<char>)>) -> Option<Seq<char>>
    decreases files.len(),
{
    if files.len() == 0 {
        None
    } else if upper(stem(files[0].0)) == upper(id) {
        Some(files[0].1)
    } else {
        reuse_text(id, files.skip(1))
    }
}

/// The text of the first file whose suffix tells the license `id`.
pub open spec fn suffix_text(id: Seq<char>, files: Seq<(Seq<char>, Seq<char>)>) -> Option<Seq<char>>
    decreases files.len(),
{
    if files.len() == 0 {
        None
    } else if named_license(files[0].0) == Some(id) {
        Some(files[0].1)
    } else {
        suffix_text(id, files.skip(1))
    }
}

/// The texts of the files with a generic name.
pub open spec fn generic_texts(files: Seq<(Seq<char>, Seq<char>)>) -> Seq<Seq<char>>
    decreases files.len(),
{
    if files.len() == 0 {
        Seq::empty()
    } else if generic_name(files.last().0) {
        generic_texts(files.drop_last()).push(files.last().1)
    } else {
        generic_texts(files.drop_last())
    }
}

/// The text for the license `id` among `files`: by a file with that name, else by a
/// conventional suffix, else, for a crate with a `single` license, the only file with
/// a generic name.
pub open spec fn license_text(
    id: Seq<char>,
    files: Seq<(Seq<char>, Seq<char>)>,
    single: bool,
) -> Option<Seq<char>> {
    if reuse_text(id, files) is Some {
        reuse_text(id, files)
    } else if suffix_text(id, files) is Some {
        suffix_text(id, files)
    } else if single && generic_texts(files).len() == 1 {
        Some(generic_texts(files)[0])
    } else {
        None
    }
}

/// Whether a file at the top of a crate is named like one about licenses.
pub fn is_license_file_name(name: &str) -> (r: bool)
    ensures
        r == license_file_name(name@),
{
    let name = to_upper(name);
    let name = name.as_str();
    begins_with(name, "LICENSE") || begins_with(name, "LICENCE") || begins_with(name, "COPYING")
        || begins_with(name, "COPYRIGHT") || begins_with(name, "UNLICENSE") || begins_with(
        name,
        "NOTICE",
    )
}

/// The positions of the license files among the entries of one directory.
fn wanted_files(entries: &Vec<DirEntry>, in_licenses_dir: bool) -> (r: Vec<usize>)
    ensures
        r@.map_values(|i: usize| i as int) == wanted_positions(entries@, in_licenses_dir),
{
    let mut out: Vec<usize> = Vec::new();
    let mut i: usize = 0;
    assert(out@.map_values(|i: usize| i as int) == wanted_positions(
        entries@.take(0),
        in_licenses_dir,
    ));
    while i < entries.len()
        invariant
            i <= entries@.len(),
            out@.map_values(|i: usize| i as int) == wanted_positions(
                entries@.take(i as int),
                in_licenses_dir,
            ),
        decreases entries@.len() - i,
    {
        let ghost before = out@;
        assert(entries@.take(i + 1).drop_last() == entries@.take(i as int));
        if entries[i].is_file && (in_licenses_dir || is_license_file_name(entries[i].name.as_str()))
        {
            out.push(i);
            assert(out@.map_values(|i: usize| i as int) == before.map_values(
                |i: usize| i as int,
            ).push(i as int));
        }
        i += 1;
    }
    assert(entries@.take(entries@.len() as int) == entries@);
    out
}

/// The positions of the candidate license files in a crate directory: among the entries
/// at its `top` the conventional `LICENSE*`/`COPYING*` files, and among those of its
/// `licenses` directory any REUSE-style `<id>.*` files.
pub fn license_files(top: &Vec<DirEntry>, licenses: &Vec<DirEntry>) -> (r: (Vec<usize>, Vec<usize>))
    ensures
        r.0@.map_values(|i: usize| i as int) == wanted_positions(top@, false),
        r.1@.map_values(|i: usize| i as int) == wanted_positions(licenses@, true),
{
    (wanted_files(top, false), wanted_files(licenses, true))
}

/// The names and texts of the license files that could be read; the others are passed
/// over.
fn readable_files(read: &Vec<ReadFile>) -> (r: Vec<(String, String)>)
    ensures
        contents(r@) == readable(read@),
{
    let mut out: Vec<(String, String)> = Vec::new();
    let mut i: usize = 0;
    assert(contents(out@) == readable(read@.take(0)));
    while i < read.len()
        invariant
            i <= read@.len(),
            contents(out@) == readable(read@.take(i as int)),
        decreases read@.len() - i,
    {
        let ghost before = contents(out@);
        assert(read@.take(i + 1).drop_last() == read@.take(i as int));
        assert(read@.take(i + 1).last() == read@[i as int]);
        if let (Some(name), Some(text)) = (&read[i].name, &read[i].text) {
            out.push((name.clone(), text.clone()));
            assert(contents(out@) == before.push((name@, text@)));
        }
        i += 1;
    }
    assert(read@.take(read@.len() as int) == read@);
    out
}

/// The license files of a crate with their texts, out of what was read at its `top` and in
/// its `licenses` directory: first those at the top. Files that could not be read are
/// passed over.
pub fn crate_license_files(top: &Vec<ReadFile>, licenses: &Vec<ReadFile>) -> (r: Vec<
    (String, String),
>)
    ensures
        contents(r@) == readable(top@) + readable(licenses@),
{
    let mut out = readable_files(top);
    let mut rest = readable_files(licenses);
    let ghost first = contents(out@);
    let ghost second = contents(rest@);
    out.append(&mut rest);
    assert(contents(out@) == first + second);
    out
}

/// Suffix found on a license file name (after `LICENSE-`/`LICENSE.`) mapped to
/// the SPDX id it most likely refers to.
pub fn suffix_to_id(suffix: &str) -> (r: Option<&'static str>)
    ensures
        match r {
            Some(id) => suffix_license(suffix@) == Some(id@),
            None => suffix_license(suffix@) is None,
        },
{
    let suffix = to_upper(suffix);
    let suffix = suffix.as_str();
    if suffix.eq("APACHE") || suffix.eq("APACHE2") || suffix.eq("APACHE-2.0") || suffix.eq(
        "APACHE2.0",
    ) {
        Some("Apache-2.0")
    } else if suffix.eq("MIT") {
        Some("MIT")
    } else if suffix.eq("ZLIB") {
        Some("Zlib")
    } else if suffix.eq("MPL") || suffix.eq("MPL-2.0") || suffix.eq("MPL2") {
        Some("MPL-2.0")
    } else if suffix.eq("ISC") {
        Some("ISC")
    } else if suffix.eq("BSL") || suffix.eq("BOOST") {
        Some("BSL-1.0")
    } else if suffix.eq("UNICODE") {
        Some("Unicode-3.0")
    } else {
        None
    }
}

/// The license that a conventional file name tells by its suffix.
fn name_to_id(name: &str) -> (r: Option<&'static str>)
    ensures
        match r {
            Some(id) => named_license(name@) == Some(id@),
            None => named_license(name@) is None,
        },
{
    let name = to_upper(name);
    let name = name.as_str();
    let suffix = if let Some(suffix) = after_prefix(name, "LICENSE-") {
        suffix
    } else if let Some(suffix) = after_prefix(name, "LICENSE.") {
        suffix
    } else if let Some(suffix) = after_prefix(name, "LICENCE-") {
        suffix
    } else if let Some(suffix) = after_prefix(name, "LICENCE.") {
        suffix
    } else {
        return None;
    };
    match suffix_to_id(suffix.as_str()) {
        Some(id) => Some(id),
        None => suffix_to_id(stem_of(suffix.as_str()).as_str()),
    }
}

/// Whether a file name is that of a license file that tells no particular license.
fn is_generic_name(name: &str) -> (r: bool)
    ensures
        r == generic_name(name@),
{
    if name_to_id(name).is_some() {
        return false;
    }
    let stem = to_upper(stem_of(name).as_str());
    stem.as_str().eq("LICENSE") || stem.as_str().eq("LICENCE") || stem.as_str().eq("COPYING")
}

/// The text of the first file whose name without its extension is `id`.
fn find_reuse_text(id: &str, files: &Vec<(String, String)>) -> (r: Option<String>)
    ensures
        opt_view(r) == reuse_text(id@, contents(files@)),
{
    let ghost all = contents(files@);
    let mut i: usize = 0;
    assert(all.skip(0) == all);
    while i < files.len()
        invariant
            i <= files@.len(),
            all == contents(files@),
            reuse_text(id@, all) == reuse_text(id@, all.skip(i as int)),
        decreases files@.len() - i,
    {
        assert(all.skip(i as int).skip(1) == all.skip(i + 1));
        if same_ignoring_case(stem_of(files[i].0.as_str()).as_str(), id) {
            return Some(files[i].1.clone());
        }
        i += 1;
    }
    None
}

/// The text of the first file whose suffix tells the license `id`.
fn find_suffix_text(id: &str, files: &Vec<(String, String)>) -> (r: Option<String>)
    ensures
        opt_view(r) == suffix_text(id@, contents(files@)),
{
    let ghost all = contents(files@);
    let mut i: usize = 0;
    assert(all.skip(0) == all);
    while i < files.len()
        invariant
            i <= files@.len(),
            all == contents(files@),
            suffix_text(id@, all) == suffix_text(id@, all.skip(i as int)),
        decreases files@.len() - i,
    {
        assert(all.skip(i as int).skip(1) == all.skip(i + 1));
        if let Some(named) = name_to_id(files[i].0.as_str()) {
            if named.eq(id) {
                return Some(files[i].1.clone());
            }
        }
        i += 1;
    }
    None
}

/// The text of the only file with a generic name, where there is one alone.
fn find_generic_text(files: &Vec<(String, String)>) -> (r: Option<String>)
    ensures
        opt_view(r) == (if generic_texts(contents(files@)).len() == 1 {
            Some(generic_texts(contents(files@))[0])
        } else {
            None
        }),
{
    let ghost all = contents(files@);
    let mut count: usize = 0;
    let mut last: Option<usize> = None;
    let mut i: usize = 0;
    while i < files.len()
        invariant
            count <= i <= files@.len(),
            all == contents(files@),
            count == generic_texts(all.take(i as int)).len(),
            last is Some == (count > 0),
            last matches Some(n) ==> n < files@.len() && files@[n as int].1@ == generic_texts(
                all.take(i as int),
            ).last(),
        decreases files@.len() - i,
    {
        assert(all.take(i + 1).drop_last() == all.take(i as int));
        if is_generic_name(files[i].0.as_str()) {
            count += 1;
            last = Some(i);
        }
        i += 1;
    }
    assert(all.take(files@.len() as int) == all);
    match last {
        Some(n) => if count == 1 {
            Some(files[n].1.clone())
        } else {
            None
        },
        None => None,
    }
}

/// Find the license text for a given license id among the crate's license
/// files. Matches REUSE files by stem, conventional files by suffix, and falls
/// back to a single generic license file when the crate has only one license, which
/// `only_license` tells.
pub fn find_license_text(id: &str, files: &Vec<(String, String)>, only_license: bool) -> (r: Option<
    String,
>)
    ensures
        opt_view(r) == license_text(id@, contents(files@), only_license),
{
    if let Some(text) = find_reuse_text(id, files) {
        return Some(text);
    }
    if let Some(text) = find_suffix_text(id, files) {
        return Some(text);
    }
    if only_license {
        find_generic_text(files)
    } else {
        None
    }
}

/// The license files of a directory are exactly its wanted entries, each once and in
/// order; in a `LICENSES` directory that is every file, whatever its name.
pub proof fn license_files_are_the_wanted(entries: Seq<DirEntry>, in_licenses_dir: bool)
    ensures
        forall|i: int|
            #![trigger wanted_positions(entries, in_licenses_dir).contains(i)]
            wanted_positions(entries, in_licenses_dir).contains(i) <==> 0 <= i < entries.len()
                && wanted(entries[i], in_licenses_dir),
        forall|m: int, n: int|
            0 <= m < n < wanted_positions(entries, in_licenses_dir).len() ==> wanted_positions(
                entries,
                in_licenses_dir,
            )[m] < wanted_positions(entries, in_licenses_dir)[n],
    decreases entries.len(),
{
    let out = wanted_positions(entries, in_licenses_dir);
    if entries.len() > 0 {
        let rest = entries.drop_last();
        let last = entries.len() - 1;
        let before = wanted_positions(rest, in_licenses_dir);
        license_files_are_the_wanted(rest, in_licenses_dir);
        assert forall|n: int| 0 <= n < before.len() implies 0 <= #[trigger] before[n] < last by {
            assert(before.contains(before[n]));
        }
        assert forall|i: int| #[trigger] out.contains(i) <==> 0 <= i < entries.len() && wanted(
            entries[i],
            in_licenses_dir,
        ) by {
            if out.contains(i) {
                let n = choose|n: int| 0 <= n < out.len() && out[n] == i;
                if n < before.len() {
                    assert(before[n] == i);
                    assert(before.contains(i));
                    assert(rest[i] == entries[i]);
                }
            }
            if 0 <= i < last && wanted(entries[i], in_licenses_dir) {
                assert(rest[i] == entries[i]);
                assert(before.contains(i));
                let n = choose|n: int| 0 <= n < before.len() && before[n] == i;
                assert(out[n] == i);
            }
            if i == last && wanted(entries[i], in_licenses_dir) {
                assert(out[before.len() as int] == i);
            }
        }
    }
}

/// A file at the top of a crate that is named after the license decides before those in
/// its `LICENSES` directory.
pub proof fn top_file_wins(
    id: Seq<char>,
    top: Seq<(Seq<char>, Seq<char>)>,
    licenses: Seq<(Seq<char>, Seq<char>)>,
    single: bool,
)
    requires
        reuse_text(id, top) is Some,
    ensures
        license_text(id, top + licenses, single) == reuse_text(id, top),
{
    reuse_text_is_of_the_first_part(id, top, licenses);
}

proof fn reuse_text_is_of_the_first_part(
    id: Seq<char>,
    first: Seq<(Seq<char>, Seq<char>)>,
    second: Seq<(Seq<char>, Seq<char>)>,
)
    requires
        reuse_text(id, first) is Some,
    ensures
        reuse_text(id, first + second) == reuse_text(id, first),
    decreases first.len(),
{
    if upper(stem(first[0].0)) != upper(id) {
        assert((first + second).skip(1) == first.skip(1) + second);
        reuse_text_is_of_the_first_part(id, first.skip(1), second);
    }
}

/// Where the whole suffix of a conventional file name is one of the table, dots included,
/// the name tells the license that the table has for it.
pub proof fn whole_suffix_tells_license(name: Seq<char>, suffix: Seq<char>)
    requires
        conventional_suffix(upper(name)) == Some(suffix),
        suffix_license(suffix) is Some,
    ensures
        named_license(name) == suffix_license(suffix),
{
}

/// A license text is that of one of the files.
pub proof fn license_text_is_of_a_file(
    id: Seq<char>,
    files: Seq<(Seq<char>, Seq<char>)>,
    single: bool,
)
    ensures
        license_text(id, files, single) matches Some(text) ==> exists|i: int|
            0 <= i < files.len() && (#[trigger] files[i]).1 == text,
{
    reuse_text_is_of_a_file(id, files);
    suffix_text_is_of_a_file(id, files);
    if generic_texts(files).len() > 0 {
        generic_text_is_of_a_file(files, 0);
    }
}

/// A file that is named after the license, apart from case and extension, decides
/// before every other file.
pub proof fn named_file_wins(
    id: Seq<char>,
    files: Seq<(Seq<char>, Seq<char>)>,
    single: bool,
    i: int,
)
    requires
        0 <= i < files.len(),
        upper(stem(files[i].0)) == upper(id),
        forall|j: int| 0 <= j < i ==> upper(stem((#[trigger] files[j]).0)) != upper(id),
    ensures
        license_text(id, files, single) == Some(files[i].1),
{
    reuse_text_skips(id, files, i);
}

proof fn reuse_text_skips(id: Seq<char>, files: Seq<(Seq<char>, Seq<char>)>, i: int)
    requires
        0 <= i < files.len(),
        upper(stem(files[i].0)) == upper(id),
        forall|j: int| 0 <= j < i ==> upper(stem((#[trigger] files[j]).0)) != upper(id),
    ensures
        reuse_text(id, files) == Some(files[i].1),
    decreases i,
{
    if i > 0 {
        assert(files.skip(1)[i - 1] == files[i]);
        assert forall|j: int| 0 <= j < i - 1 implies upper(
            stem((#[trigger] files.skip(1)[j]).0),
        ) != upper(id) by {
            assert(files.skip(1)[j] == files[j + 1]);
        }
        reuse_text_skips(id, files.skip(1), i - 1);
    }
}

/// A crate with several licenses gets no text from a file with a generic name.
pub proof fn generic_file_needs_single_license(
    id: Seq<char>,
    files: Seq<(Seq<char>, Seq<char>)>,
)
    requires
        forall|i: int|
            0 <= i < files.len() ==> upper(stem((#[trigger] files[i]).0)) != upper(id)
                && named_license(files[i].0) != Some(id),
    ensures
        license_text(id, files, false) is None,
    decreases files.len(),
{
    if files.len() > 0 {
        assert(upper(stem(files[0].0)) != upper(id));
        let rest = files.skip(1);
        assert forall|i: int| 0 <= i < rest.len() implies upper(stem((#[trigger] rest[i]).0))
            != upper(id) && named_license(rest[i].0) != Some(id) by {
            assert(rest[i] == files[i + 1]);
        }
        generic_file_needs_single_license(id, rest);
    }
}

proof fn reuse_text_is_of_a_file(id: Seq<char>, files: Seq<(Seq<char>, Seq<char>)>)
    ensures
        reuse_text(id, files) matches Some(text) ==> exists|i: int|
            0 <= i < files.len() && (#[trigger] files[i]).1 == text,
    decreases files.len(),
{
    if files.len() > 0 {
        reuse_text_is_of_a_file(id, files.skip(1));
        if let Some(text) = reuse_text(id, files) {
            if upper(stem(files[0].0)) != upper(id) {
                let rest = files.skip(1);
                let i = choose|i: int| 0 <= i < rest.len() && (#[trigger] rest[i]).1 == text;
                assert(files[i + 1].1 == text);
            } else {
                assert(files[0].1 == text);
            }
        }
    }
}

proof fn suffix_text_is_of_a_file(id: Seq<char>, files: Seq<(Seq<char>, Seq<char>)>)
    ensures
        suffix_text(id, files) matches Some(text) ==> exists|i: int|
            0 <= i < files.len() && (#[trigger] files[i]).1 == text,
    decreases files.len(),
{
    if files.len() > 0 {
        suffix_text_is_of_a_file(id, files.skip(1));
        if let Some(text) = suffix_text(id, files) {
            if named_license(files[0].0) != Some(id) {
                let rest = files.skip(1);
                let i = choose|i: int| 0 <= i < rest.len() && (#[trigger] rest[i]).1 == text;
                assert(files[i + 1].1 == text);
            } else {
                assert(files[0].1 == text);
            }
        }
    }
}

proof fn generic_text_is_of_a_file(files: Seq<(Seq<char>, Seq<char>)>, n: int)
    requires
        0 <= n < generic_texts(files).len(),
    ensures
        exists|i: int|
            0 <= i < files.len() && (#[trigger] files[i]).1 == generic_texts(files)[n],
    decreases files.len(),
{
    let rest = files.drop_last();
    if n < generic_texts(rest).len() {
        generic_text_is_of_a_file(rest, n);
        let i = choose|i: int|
            0 <= i < rest.len() && (#[trigger] rest[i]).1 == generic_texts(rest)[n];
        assert(files[i].1 == generic_texts(files)[n]);
    } else {
        assert(files[files.len() - 1].1 == generic_texts(files)[n]);
    }
}

} // verus!
