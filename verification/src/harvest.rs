//! The texts that crates contribute to a license, and the one that is shown.

use crate::text::{normalize, trimmed, unix_lines};
use vstd::prelude::*;
use vstd::utf8::encode_utf8;

verus! {

/// A text and the number of times that it was contributed.
pub type Variant = (Seq<char>, nat);

/// A text in the form in which texts are compared and shown.
pub open spec fn normalized(text: Seq<char>) -> Seq<char> {
    trimmed(unix_lines(text))
}

/// Where `text` stands among `variants`, or -1.
pub open spec fn variant_position(variants: Seq<Variant>, text: Seq<char>) -> int
    decreases variants.len(),
{
    if variants.len() == 0 {
        -1
    } else if variants.last().0 == text {
        variants.len() - 1
    } else {
        variant_position(variants.drop_last(), text)
    }
}

/// `variants` with one more contribution of `text`.
pub open spec fn counted(variants: Seq<Variant>, text: Seq<char>) -> Seq<Variant> {
    let i = variant_position(variants, text);
    if i >= 0 {
        variants.update(i, (text, variants[i].1 + 1))
    } else {
        variants.push((text, 1))
    }
}

/// The different texts among `texts`, each with its number of occurrences, in the
/// order of first occurrence.
pub open spec fn tally(texts: Seq<Seq<char>>) -> Seq<Variant>
    decreases texts.len(),
{
    if texts.len() == 0 {
        Seq::empty()
    } else {
        counted(tally(texts.drop_last()), texts.last())
    }
}

/// Whether `a` is to be shown rather than `b`: it is more frequent, or as frequent
/// and shorter in bytes.
pub open spec fn preferred(a: Variant, b: Variant) -> bool {
    a.1 > b.1 || (a.1 == b.1 && encode_utf8(a.0).len() < encode_utf8(b.0).len())
}

/// The variant to which none is preferred: the first one, where several are.
pub open spec fn best_variant(variants: Seq<Variant>) -> Option<Variant>
    decreases variants.len(),
{
    if variants.len() == 0 {
        None
    } else {
        match best_variant(variants.drop_last()) {
            None => Some(variants.last()),
            Some(best) => if preferred(variants.last(), best) {
                Some(variants.last())
            } else {
                Some(best)
            },
        }
    }
}

/// What the `spdx` crate has as the text of the license with a short identifier.
pub uninterp spec fn spdx_text(id: Seq<char>) -> Option<Seq<char>>;

/// The canonical text of the license `id`, or a remark that there is none.
pub open spec fn canonical_or_remark(id: Seq<char>, canonical: Option<Seq<char>>) -> Seq<char> {
    match canonical {
        Some(text) => text,
        None => "No license text available for "@ + id + "."@,
    }
}

/// The text shown for the license `id`, of which `variants` were harvested.
pub open spec fn shown_text(id: Seq<char>, variants: Seq<Variant>) -> Seq<char> {
    match best_variant(variants) {
        Some(best) => best.0,
        None => canonical_or_remark(id, spdx_text(id)),
    }
}

/// The contents of harvested texts.
pub open spec fn variants_of(harvested: Seq<(String, usize)>) -> Seq<Variant> {
    harvested.map_values(|v: (String, usize)| (v.0@, v.1 as nat))
}

/// `spdx::license_id` and `spdx::LicenseId::text`: the text of the license with the short
/// identifier `id`, where the list has that license. Both read tables that are part of
/// the crate, so the outcome is a function of the identifier.
#[verifier::external_body]
fn canonical_text(id: &str) -> (r: Option<String>)
    ensures
        match r {
            Some(text) => spdx_text(id@) == Some(text@),
            None => spdx_text(id@) is None,
        },
{
    spdx::license_id(id).map(|l| l.text().to_string())
}

/// The canonical text of the license `id`, or a remark that there is none.
pub fn text_or_remark(id: &str, canonical: Option<String>) -> (r: String)
    ensures
        r@ == canonical_or_remark(
            id@,
            match canonical {
                Some(text) => Some(text@),
                None => None,
            },
        ),
{
    match canonical {
        Some(text) => text,
        None => {
            let mut out = String::new();
            out.append("No license text available for ");
            out.append(id);
            out.append(".");
            out
        },
    }
}

/// Pick the text shown for a license: the most frequently harvested variant,
/// falling back to the canonical SPDX text when nothing was harvested.
pub fn representative_text(id: &str, harvested: Option<&Vec<(String, usize)>>) -> (r: String)
    ensures
        r@ == shown_text(
            id@,
            match harvested {
                Some(h) => variants_of(h@),
                None => Seq::empty(),
            },
        ),
{
    if let Some(harvested) = harvested {
        if harvested.len() > 0 {
            let ghost all = variants_of(harvested@);
            let mut best: usize = 0;
            let mut i: usize = 1;
            assert(best_variant(all.take(1).drop_last()) is None);
            assert(all.take(1).last() == all[0]);
            while i < harvested.len()
                invariant
                    0 < i <= harvested@.len(),
                    best < i,
                    all == variants_of(harvested@),
                    best_variant(all.take(i as int)) == Some(all[best as int]),
                decreases harvested@.len() - i,
            {
                assert(all.take(i + 1).drop_last() == all.take(i as int));
                let more = harvested[i].1 > harvested[best].1;
                let as_many = harvested[i].1 == harvested[best].1;
                let shorter = harvested[i].0.as_str().as_bytes().len()
                    < harvested[best].0.as_str().as_bytes().len();
                if more || (as_many && shorter) {
                    best = i;
                }
                i += 1;
            }
            assert(all.take(harvested@.len() as int) == all);
            return harvested[best].0.clone();
        }
    }
    text_or_remark(id, canonical_text(id))
}

proof fn variant_position_is_right(variants: Seq<Variant>, text: Seq<char>)
    ensures
        -1 <= variant_position(variants, text) < variants.len(),
        variant_position(variants, text) >= 0 ==> variants[variant_position(variants, text)].0
            == text,
        variant_position(variants, text) < 0 ==> forall|i: int|
            0 <= i < variants.len() ==> (#[trigger] variants[i]).0 != text,
    decreases variants.len(),
{
    if variants.len() > 0 && variants.last().0 != text {
        let rest = variants.drop_last();
        variant_position_is_right(rest, text);
        if variant_position(rest, text) < 0 {
            assert forall|i: int| 0 <= i < variants.len() implies (#[trigger] variants[i]).0
                != text by {
                if i < rest.len() {
                    assert(rest[i] == variants[i]);
                }
            }
        }
    }
}

/// No text occurs more often than there are contributions.
pub proof fn tally_is_bounded(texts: Seq<Seq<char>>, i: int)
    requires
        0 <= i < tally(texts).len(),
    ensures
        1 <= tally(texts)[i].1 <= texts.len(),
    decreases texts.len(),
{
    let rest = texts.drop_last();
    let before = tally(rest);
    variant_position_is_right(before, texts.last());
    let n = variant_position(before, texts.last());
    if i < before.len() {
        tally_is_bounded(rest, i);
    }
    if n >= 0 {
        tally_is_bounded(rest, n);
    }
}

/// Adds a contribution of `text` to what was harvested.
pub fn count_text(harvested: &mut Vec<(String, usize)>, text: String)
    requires
        forall|i: int|
            0 <= i < old(harvested)@.len() ==> (#[trigger] old(harvested)@[i]).1 < usize::MAX,
    ensures
        variants_of(final(harvested)@) == counted(variants_of(old(harvested)@), text@),
{
    let ghost all = variants_of(harvested@);
    let mut end: usize = harvested.len();
    assert(all.take(end as int) == all);
    while end > 0
        invariant
            end <= harvested@.len(),
            harvested@ == old(harvested)@,
            all == variants_of(harvested@),
            forall|i: int|
                0 <= i < harvested@.len() ==> (#[trigger] harvested@[i]).1 < usize::MAX,
            variant_position(all, text@) == variant_position(all.take(end as int), text@),
        decreases end,
    {
        assert(all.take(end as int).drop_last() == all.take(end - 1));
        assert(all.take(end as int).last() == all[end - 1]);
        if harvested[end - 1].0 == text {
            let count: usize = harvested[end - 1].1 + 1;
            harvested.set(end - 1, (text, count));
            assert(variants_of(harvested@) == all.update(end - 1, (text@, count as nat)));
            return ;
        }
        end -= 1;
    }
    harvested.push((text, 1));
    assert(variants_of(harvested@) == all.push((text@, 1nat)));
}

/// How often `text` occurs among `texts`.
pub open spec fn occurrences(texts: Seq<Seq<char>>, text: Seq<char>) -> nat
    decreases texts.len(),
{
    if texts.len() == 0 {
        0
    } else {
        occurrences(texts.drop_last(), text) + if texts.last() == text {
            1nat
        } else {
            0nat
        }
    }
}

/// A tally holds each contributed text once, with its number of occurrences.
pub proof fn tally_counts_occurrences(texts: Seq<Seq<char>>)
    ensures
        forall|i: int|
            0 <= i < tally(texts).len() ==> (#[trigger] tally(texts)[i]).1 == occurrences(
                texts,
                tally(texts)[i].0,
            ) && tally(texts)[i].1 > 0,
        forall|i: int, j: int|
            0 <= i < j < tally(texts).len() ==> tally(texts)[i].0 != tally(texts)[j].0,
        forall|text: Seq<char>| #[trigger]
            occurrences(texts, text) > 0 ==> exists|i: int|
                0 <= i < tally(texts).len() && (#[trigger] tally(texts)[i]).0 == text,
    decreases texts.len(),
{
    if texts.len() > 0 {
        let rest = texts.drop_last();
        let last = texts.last();
        let before = tally(rest);
        let out = tally(texts);
        tally_counts_occurrences(rest);
        variant_position_is_right(before, last);
        let n = variant_position(before, last);
        if n < 0 {
            assert(occurrences(rest, last) == 0);
        }
        assert forall|i: int| 0 <= i < out.len() implies (#[trigger] out[i]).1 == occurrences(
            texts,
            out[i].0,
        ) && out[i].1 > 0 by {
            if i < before.len() {
                assert(before[i].1 == occurrences(rest, before[i].0));
            }
        }
        assert forall|text: Seq<char>| #[trigger] occurrences(texts, text) > 0 implies exists|i: int|
            0 <= i < out.len() && (#[trigger] out[i]).0 == text by {
            if text == last {
                let i = if n >= 0 { n } else { before.len() as int };
                assert(out[i].0 == text);
            } else {
                assert(occurrences(rest, text) > 0);
                let i = choose|i: int| 0 <= i < before.len() && (#[trigger] before[i]).0 == text;
                assert(out[i].0 == text);
            }
        }
    }
}

/// The chosen variant is one of the given ones, and none is preferred to it.
pub proof fn best_variant_is_best(variants: Seq<Variant>)
    ensures
        variants.len() > 0 ==> best_variant(variants) is Some,
        best_variant(variants) matches Some(best) ==> variants.contains(best) && forall|i: int|
            0 <= i < variants.len() ==> !preferred(#[trigger] variants[i], best),
    decreases variants.len(),
{
    if variants.len() > 0 {
        let rest = variants.drop_last();
        best_variant_is_best(rest);
        let best = best_variant(variants)->0;
        if let Some(old_best) = best_variant(rest) {
            if best == old_best {
                let n = choose|n: int| 0 <= n < rest.len() && rest[n] == old_best;
                assert(variants[n] == best);
            }
        }
        assert(variants[variants.len() - 1] == variants.last());
        assert forall|i: int| 0 <= i < variants.len() implies !preferred(
            #[trigger] variants[i],
            best,
        ) by {
            if i < rest.len() {
                assert(rest[i] == variants[i]);
            }
        }
    }
}

/// The text that is shown of harvested ones was contributed, and no text was
/// contributed more often.
pub proof fn shown_text_is_most_frequent(
    id: Seq<char>,
    texts: Seq<Seq<char>>,
    other: Seq<char>,
)
    requires
        texts.len() > 0,
    ensures
        occurrences(texts, shown_text(id, tally(texts))) > 0,
        occurrences(texts, other) <= occurrences(texts, shown_text(id, tally(texts))),
{
    let variants = tally(texts);
    tally_counts_occurrences(texts);
    best_variant_is_best(variants);
    assert(occurrences(texts, texts.last()) > 0);
    let n = choose|n: int| 0 <= n < variants.len() && (#[trigger] variants[n]).0 == texts.last();
    let best = best_variant(variants)->0;
    let b = choose|b: int| 0 <= b < variants.len() && variants[b] == best;
    assert(variants[b].1 == occurrences(texts, best.0));
    if occurrences(texts, other) > 0 {
        let i = choose|i: int| 0 <= i < variants.len() && (#[trigger] variants[i]).0 == other;
        assert(!preferred(variants[i], best));
    }
}

/// The normalized form of a text that may be missing.
pub fn normalize_text(text: Option<String>) -> (r: Option<String>)
    ensures
        match (text, r) {
            (Some(t), Some(n)) => n@ == normalized(t@),
            (None, None) => true,
            _ => false,
        },
{
    match text {
        Some(text) => Some(normalize(text.as_str())),
        None => None,
    }
}

} // verus!
