//! What holds of license files and of the texts that are found in them.

use crate::files::{contents, conventional_suffix, generic_name, generic_texts,
    license_files_are_the_wanted, license_text, named_license, readable, reuse_text,
    suffix_license, suffix_text, wanted_positions, DirEntry, ReadFile};
use crate::laws::text::{stem_lacks_the_extension, stem_without_dot_is_whole};
use crate::text::{stem, upper};
use vstd::prelude::*;

verus! {

/// Whether `whole` begins with `start`.
pub open spec fn starts_with(whole: Seq<char>, start: Seq<char>) -> bool {
    exists|rest: Seq<char>| whole == #[trigger] (start + rest)
}

proof fn prefix_is_a_start(whole: Seq<char>, start: Seq<char>)
    ensures
        start.is_prefix_of(whole) <==> starts_with(whole, start),
{
    if start.is_prefix_of(whole) {
        assert(whole == start + whole.skip(start.len() as int));
    }
    if starts_with(whole, start) {
        let rest = choose|rest: Seq<char>| whole == #[trigger] (start + rest);
        assert(whole.subrange(0, start.len() as int) == start);
    }
}

/// At the top of a crate the license files are the files whose names begin, in whatever
/// case, with one of six words; in its `LICENSES` directory they are all files.
pub proof fn license_files_are_told_by_name(entries: Seq<DirEntry>, i: int)
    requires
        0 <= i < entries.len(),
    ensures
        wanted_positions(entries, true).contains(i) <==> entries[i].is_file,
        wanted_positions(entries, false).contains(i) <==> entries[i].is_file && ({
            let name = upper(entries[i].name@);
            ||| starts_with(name, "LICENSE"@)
            ||| starts_with(name, "LICENCE"@)
            ||| starts_with(name, "COPYING"@)
            ||| starts_with(name, "COPYRIGHT"@)
            ||| starts_with(name, "UNLICENSE"@)
            ||| starts_with(name, "NOTICE"@)
        }),
{
    license_files_are_the_wanted(entries, true);
    license_files_are_the_wanted(entries, false);
    let name = upper(entries[i].name@);
    prefix_is_a_start(name, "LICENSE"@);
    prefix_is_a_start(name, "LICENCE"@);
    prefix_is_a_start(name, "COPYING"@);
    prefix_is_a_start(name, "COPYRIGHT"@);
    prefix_is_a_start(name, "UNLICENSE"@);
    prefix_is_a_start(name, "NOTICE"@);
}

/// License files are collected in the order of their directory, each once.
pub proof fn license_files_keep_their_order(
    entries: Seq<DirEntry>,
    in_licenses_dir: bool,
    m: int,
    n: int,
)
    requires
        0 <= m < n < wanted_positions(entries, in_licenses_dir).len(),
    ensures
        0 <= wanted_positions(entries, in_licenses_dir)[m] < wanted_positions(
            entries,
            in_licenses_dir,
        )[n] < entries.len(),
{
    license_files_are_the_wanted(entries, in_licenses_dir);
    let out = wanted_positions(entries, in_licenses_dir);
    assert(out.contains(out[m]) && out.contains(out[n]));
}

/// A file counts exactly where both its name and its text could be read, and then with
/// these.
pub proof fn file_counts_where_it_was_read(file: ReadFile)
    ensures
        file.name is Some && file.text is Some ==> readable(seq![file]) == seq![
            (file.name->0@, file.text->0@),
        ],
        file.name is None || file.text is None ==> readable(seq![file]).len() == 0,
{
    let one = seq![file];
    assert(one.drop_last() == Seq::<ReadFile>::empty());
    assert(one.last() == file);
    assert(readable(one.drop_last()) == Seq::<(Seq<char>, Seq<char>)>::empty());
}

/// What was read first comes first, and no file depends on another.
pub proof fn readable_files_add_up(a: Seq<ReadFile>, b: Seq<ReadFile>)
    ensures
        readable(a + b) == readable(a) + readable(b),
    decreases b.len(),
{
    if b.len() == 0 {
        assert(a + b == a);
        assert(readable(a) + readable(b) == readable(a));
    } else {
        assert((a + b).drop_last() == a + b.drop_last());
        readable_files_add_up(a, b.drop_last());
        assert(readable(a + b) == readable(a) + readable(b));
    }
}

/// Files keep their names and texts.
pub proof fn files_keep_names_and_texts(files: Seq<(String, String)>, i: int)
    requires
        0 <= i < files.len(),
    ensures
        contents(files).len() == files.len(),
        contents(files)[i] == (files[i].0@, files[i].1@),
{
}

/// Each suffix refers to its license, whatever the case of its letters, and no other suffix
/// to any.
pub proof fn suffixes_refer_to_licenses(suffix: Seq<char>)
    ensures
        ({
            let s = upper(suffix);
            let license = suffix_license(suffix);
            let apache = s == "APACHE"@ || s == "APACHE2"@ || s == "APACHE-2.0"@ || s
                == "APACHE2.0"@;
            let mpl = s == "MPL"@ || s == "MPL-2.0"@ || s == "MPL2"@;
            let boost = s == "BSL"@ || s == "BOOST"@;
            &&& apache ==> license == Some("Apache-2.0"@)
            &&& s == "MIT"@ ==> license == Some("MIT"@)
            &&& s == "ZLIB"@ ==> license == Some("Zlib"@)
            &&& mpl ==> license == Some("MPL-2.0"@)
            &&& s == "ISC"@ ==> license == Some("ISC"@)
            &&& boost ==> license == Some("BSL-1.0"@)
            &&& s == "UNICODE"@ ==> license == Some("Unicode-3.0"@)
            &&& license is Some ==> apache || s == "MIT"@ || s == "ZLIB"@ || mpl || s == "ISC"@
                || boost || s == "UNICODE"@
        }),
{
    reveal_strlit("APACHE");
    reveal_strlit("APACHE2");
    reveal_strlit("APACHE-2.0");
    reveal_strlit("APACHE2.0");
    reveal_strlit("MIT");
    reveal_strlit("ZLIB");
    reveal_strlit("MPL");
    reveal_strlit("MPL-2.0");
    reveal_strlit("MPL2");
    reveal_strlit("ISC");
    reveal_strlit("BSL");
    reveal_strlit("BOOST");
    reveal_strlit("UNICODE");
    assert("APACHE"@[0] == 'A' && "APACHE2"@[0] == 'A' && "APACHE-2.0"@[0] == 'A' && "APACHE2.0"@[0]
        == 'A');
    assert("MIT"@[0] == 'M' && "MIT"@[1] == 'I' && "ZLIB"@[0] == 'Z' && "ISC"@[0] == 'I');
    assert("MPL"@[0] == 'M' && "MPL-2.0"@[0] == 'M' && "MPL2"@[0] == 'M' && "MPL"@[1] == 'P'
        && "MPL-2.0"@[1] == 'P' && "MPL2"@[1] == 'P');
    assert("BSL"@[0] == 'B' && "BOOST"@[0] == 'B' && "UNICODE"@[0] == 'U');
}

/// Whether `prefix` is one behind which a conventional file name has its suffix.
pub open spec fn conventional_prefix(prefix: Seq<char>) -> bool {
    prefix == "LICENSE-"@ || prefix == "LICENSE."@ || prefix == "LICENCE-"@ || prefix
        == "LICENCE."@
}

proof fn suffix_follows_prefix(prefix: Seq<char>, suffix: Seq<char>)
    requires
        conventional_prefix(prefix),
    ensures
        conventional_suffix(prefix + suffix) == Some(suffix),
{
    reveal_strlit("LICENSE-");
    reveal_strlit("LICENSE.");
    reveal_strlit("LICENCE-");
    reveal_strlit("LICENCE.");
    let name = prefix + suffix;
    assert(name.subrange(0, 8) == prefix);
    assert(name.skip(8) == suffix);
    assert("LICENSE-"@[5] == 'S' && "LICENSE-"@[7] == '-');
    assert("LICENSE."@[5] == 'S' && "LICENSE."@[7] == '.');
    assert("LICENCE-"@[5] == 'C' && "LICENCE-"@[7] == '-');
    assert("LICENCE."@[5] == 'C' && "LICENCE."@[7] == '.');
}

/// A conventional file name tells the license to which its whole suffix refers, dots
/// included.
pub proof fn whole_suffix_comes_first(name: Seq<char>, prefix: Seq<char>, suffix: Seq<char>)
    requires
        conventional_prefix(prefix),
        upper(name) == prefix + suffix,
        suffix_license(suffix) is Some,
    ensures
        named_license(name) == suffix_license(suffix),
{
    suffix_follows_prefix(prefix, suffix);
}

/// Where the whole suffix refers to none, a conventional file name tells the license to
/// which the suffix before its extension refers.
pub proof fn extension_does_not_matter(
    name: Seq<char>,
    prefix: Seq<char>,
    suffix: Seq<char>,
    extension: Seq<char>,
)
    requires
        conventional_prefix(prefix),
        !extension.contains('.'),
        upper(name) == prefix + (suffix + seq!['.'] + extension),
        suffix_license(suffix + seq!['.'] + extension) is None,
    ensures
        named_license(name) == suffix_license(suffix),
{
    suffix_follows_prefix(prefix, suffix + seq!['.'] + extension);
    stem_lacks_the_extension(suffix, extension);
}

/// A conventional file name whose suffix has no dot tells the license to which the suffix
/// refers, if any.
pub proof fn suffix_without_dot_is_taken_whole(
    name: Seq<char>,
    prefix: Seq<char>,
    suffix: Seq<char>,
)
    requires
        conventional_prefix(prefix),
        !suffix.contains('.'),
        upper(name) == prefix + suffix,
    ensures
        named_license(name) == suffix_license(suffix),
{
    suffix_follows_prefix(prefix, suffix);
    stem_without_dot_is_whole(suffix);
}

/// Any other file name tells no license by a suffix.
pub proof fn unconventional_name_tells_no_license(name: Seq<char>)
    requires
        !starts_with(upper(name), "LICENSE-"@),
        !starts_with(upper(name), "LICENSE."@),
        !starts_with(upper(name), "LICENCE-"@),
        !starts_with(upper(name), "LICENCE."@),
    ensures
        named_license(name) is None,
{
    prefix_is_a_start(upper(name), "LICENSE-"@);
    prefix_is_a_start(upper(name), "LICENSE."@);
    prefix_is_a_start(upper(name), "LICENCE-"@);
    prefix_is_a_start(upper(name), "LICENCE."@);
}

/// The generic license files are those called `LICENSE`, `LICENCE` or `COPYING`, in
/// whatever case and with whatever extension, that tell no license by a suffix.
pub proof fn generic_files_are_named_license_or_copying(
    name: Seq<char>,
    base: Seq<char>,
    extension: Seq<char>,
)
    requires
        !extension.contains('.'),
        name == base + seq!['.'] + extension || (name == base && !base.contains('.')),
    ensures
        generic_name(name) <==> named_license(name) is None && (upper(base) == "LICENSE"@ || upper(
            base,
        ) == "LICENCE"@ || upper(base) == "COPYING"@),
{
    if name == base && !base.contains('.') {
        stem_without_dot_is_whole(base);
    } else {
        stem_lacks_the_extension(base, extension);
    }
}

/// Whether no file is named after the license `id`.
pub open spec fn none_named_after(id: Seq<char>, files: Seq<(Seq<char>, Seq<char>)>) -> bool {
    forall|j: int| 0 <= j < files.len() ==> upper(stem((#[trigger] files[j]).0)) != upper(id)
}

/// Whether no file tells the license `id` by its suffix.
pub open spec fn none_suffixed_with(id: Seq<char>, files: Seq<(Seq<char>, Seq<char>)>) -> bool {
    forall|j: int| 0 <= j < files.len() ==> named_license((#[trigger] files[j]).0) != Some(id)
}

proof fn unnamed_license_has_no_reuse_text(id: Seq<char>, files: Seq<(Seq<char>, Seq<char>)>)
    requires
        none_named_after(id, files),
    ensures
        reuse_text(id, files) is None,
    decreases files.len(),
{
    if files.len() > 0 {
        assert(upper(stem(files[0].0)) != upper(id));
        let rest = files.skip(1);
        assert forall|j: int| 0 <= j < rest.len() implies upper(stem((#[trigger] rest[j]).0))
            != upper(id) by {
            assert(rest[j] == files[j + 1]);
        }
        unnamed_license_has_no_reuse_text(id, rest);
    }
}

proof fn first_suffix_decides(id: Seq<char>, files: Seq<(Seq<char>, Seq<char>)>, i: int)
    requires
        0 <= i <= files.len(),
        i < files.len() ==> named_license(files[i].0) == Some(id),
        forall|j: int| 0 <= j < i ==> named_license((#[trigger] files[j]).0) != Some(id),
    ensures
        suffix_text(id, files) == (if i < files.len() {
            Some(files[i].1)
        } else {
            None
        }),
    decreases i,
{
    if i > 0 {
        let rest = files.skip(1);
        assert(named_license(files[0].0) != Some(id));
        assert forall|j: int| 0 <= j < i - 1 implies named_license((#[trigger] rest[j]).0) != Some(
            id,
        ) by {
            assert(rest[j] == files[j + 1]);
        }
        if i < files.len() {
            assert(rest[i - 1] == files[i]);
        }
        first_suffix_decides(id, rest, i - 1);
    }
}

/// Where no file is named after the license, the first one that tells it by its suffix
/// decides.
pub proof fn suffixed_file_comes_next(
    id: Seq<char>,
    files: Seq<(Seq<char>, Seq<char>)>,
    single: bool,
    i: int,
)
    requires
        none_named_after(id, files),
        0 <= i < files.len(),
        named_license(files[i].0) == Some(id),
        forall|j: int| 0 <= j < i ==> named_license((#[trigger] files[j]).0) != Some(id),
    ensures
        license_text(id, files, single) == Some(files[i].1),
{
    unnamed_license_has_no_reuse_text(id, files);
    first_suffix_decides(id, files, i);
}

proof fn no_generic_text(files: Seq<(Seq<char>, Seq<char>)>)
    requires
        forall|j: int| 0 <= j < files.len() ==> !generic_name((#[trigger] files[j]).0),
    ensures
        generic_texts(files).len() == 0,
    decreases files.len(),
{
    if files.len() > 0 {
        let rest = files.drop_last();
        assert(files[files.len() - 1] == files.last());
        assert forall|j: int| 0 <= j < rest.len() implies !generic_name((#[trigger] rest[j]).0) by {
            assert(rest[j] == files[j]);
        }
        no_generic_text(rest);
    }
}

proof fn generic_text_is_counted(files: Seq<(Seq<char>, Seq<char>)>, i: int)
    requires
        0 <= i < files.len(),
        generic_name(files[i].0),
    ensures
        generic_texts(files).len() > 0,
        (forall|j: int| 0 <= j < files.len() && j != i ==> !generic_name((#[trigger] files[j]).0))
            ==> generic_texts(files) == seq![files[i].1],
        (exists|j: int| 0 <= j < files.len() && j != i && generic_name((#[trigger] files[j]).0))
            ==> generic_texts(files).len() > 1,
    decreases files.len(),
{
    let rest = files.drop_last();
    let last = files.len() - 1;
    assert(files[last] == files.last());
    if i < last {
        assert(rest[i] == files[i]);
        generic_text_is_counted(rest, i);
        if forall|j: int| 0 <= j < files.len() && j != i ==> !generic_name((#[trigger] files[j]).0) {
            assert forall|j: int| 0 <= j < rest.len() && j != i implies !generic_name(
                (#[trigger] rest[j]).0,
            ) by {
                assert(rest[j] == files[j]);
            }
            assert(!generic_name(files[last].0));
        }
        if exists|j: int| 0 <= j < files.len() && j != i && generic_name((#[trigger] files[j]).0) {
            let j = choose|j: int|
                0 <= j < files.len() && j != i && generic_name((#[trigger] files[j]).0);
            if j < last {
                assert(rest[j] == files[j]);
            }
        }
    } else {
        if forall|j: int| 0 <= j < files.len() && j != i ==> !generic_name((#[trigger] files[j]).0) {
            assert forall|j: int| 0 <= j < rest.len() implies !generic_name(
                (#[trigger] rest[j]).0,
            ) by {
                assert(rest[j] == files[j]);
            }
            no_generic_text(rest);
            assert(generic_texts(files) == seq![files[i].1]);
        }
        if exists|j: int| 0 <= j < files.len() && j != i && generic_name((#[trigger] files[j]).0) {
            let j = choose|j: int|
                0 <= j < files.len() && j != i && generic_name((#[trigger] files[j]).0);
            assert(rest[j] == files[j]);
            generic_text_is_counted(rest, j);
        }
    }
}

/// Where no file tells the license, the only generic file serves a crate that has only one
/// license.
pub proof fn only_generic_file_serves_a_single_license(
    id: Seq<char>,
    files: Seq<(Seq<char>, Seq<char>)>,
    i: int,
)
    requires
        none_named_after(id, files),
        none_suffixed_with(id, files),
        0 <= i < files.len(),
        generic_name(files[i].0),
        forall|j: int| 0 <= j < files.len() && j != i ==> !generic_name((#[trigger] files[j]).0),
    ensures
        license_text(id, files, true) == Some(files[i].1),
        license_text(id, files, false) is None,
{
    unnamed_license_has_no_reuse_text(id, files);
    first_suffix_decides(id, files, files.len() as int);
    generic_text_is_counted(files, i);
}

/// Where no file tells the license and there is no generic file, or more than one, no text
/// is found.
pub proof fn nothing_is_found_otherwise(
    id: Seq<char>,
    files: Seq<(Seq<char>, Seq<char>)>,
    single: bool,
)
    requires
        none_named_after(id, files),
        none_suffixed_with(id, files),
        (forall|j: int| 0 <= j < files.len() ==> !generic_name((#[trigger] files[j]).0)) || (
        exists|i: int, j: int|
            0 <= i < j < files.len() && generic_name((#[trigger] files[i]).0) && generic_name(
                (#[trigger] files[j]).0,
            )),
    ensures
        license_text(id, files, single) is None,
{
    unnamed_license_has_no_reuse_text(id, files);
    first_suffix_decides(id, files, files.len() as int);
    if forall|j: int| 0 <= j < files.len() ==> !generic_name((#[trigger] files[j]).0) {
        no_generic_text(files);
    } else {
        let (i, j) = choose|i: int, j: int|
            0 <= i < j < files.len() && generic_name((#[trigger] files[i]).0) && generic_name(
                (#[trigger] files[j]).0,
            );
        generic_text_is_counted(files, i);
        assert(generic_name(files[j].0));
    }
}

} // verus!
