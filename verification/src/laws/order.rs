//! What holds of the order of texts and of items.

use crate::listing::{CrateRef, LicenseSection};
use crate::order::{ascending, in_order, in_order_ascends, in_order_keeps_first, item_keys,
    key_before, keys_of, text_before, text_order_is_irreflexive, Key};
use crate::resolve::Package;
use vstd::prelude::*;

verus! {

/// Of two texts that agree on their first `k` characters the one that ends there, or that
/// has the smaller code point there, comes first, and only that one.
pub proof fn first_difference_decides(a: Seq<char>, b: Seq<char>, k: int)
    requires
        0 <= k <= a.len(),
        k < b.len(),
        forall|i: int| 0 <= i < k ==> a[i] == b[i],
        k == a.len() || a[k] < b[k],
    ensures
        text_before(a, b),
        !text_before(b, a),
    decreases k,
{
    if k > 0 {
        assert(a[0] == b[0]);
        let x = a.skip(1);
        let y = b.skip(1);
        assert forall|i: int| 0 <= i < k - 1 implies x[i] == y[i] by {
            assert(a[i + 1] == b[i + 1]);
        }
        first_difference_decides(x, y, k - 1);
    }
}

/// Keys are ordered by their first texts, and by the second ones only where the first are
/// the same.
pub proof fn first_text_decides(a: Key, b: Key)
    ensures
        a.0 != b.0 ==> (key_before(a, b) <==> text_before(a.0, b.0)),
        a.0 == b.0 ==> (key_before(a, b) <==> text_before(a.1, b.1)),
{
    text_order_is_irreflexive(a.0);
}

/// Where keys ascend, the earlier of any two comes first.
pub proof fn earlier_key_comes_first(keys: Seq<Key>, i: int, j: int)
    requires
        ascending(keys),
        0 <= i < j < keys.len(),
    ensures
        text_before(keys[i].0, keys[j].0) || (keys[i].0 == keys[j].0 && text_before(
            keys[i].1,
            keys[j].1,
        )),
{
    assert(key_before(keys[i], keys[j]));
}

/// Putting items in order loses no key, doubles none, and keeps of the items with one key
/// the first.
pub proof fn ordered_items_are_the_first_of_each_key<V>(
    items: Seq<V>,
    key: spec_fn(V) -> Key,
    i: int,
)
    requires
        0 <= i < items.len(),
        forall|j: int| 0 <= j < i ==> key(#[trigger] items[j]) != key(items[i]),
    ensures
        in_order(items, key).contains(items[i]),
        forall|m: int, n: int|
            0 <= m < n < in_order(items, key).len() ==> key_before(
                key(#[trigger] in_order(items, key)[m]),
                key(#[trigger] in_order(items, key)[n]),
            ),
{
    in_order_keeps_first(items, key, items[i]);
    let earlier = keys_of(items.take(i), key);
    if earlier.contains(key(items[i])) {
        let j = choose|j: int| 0 <= j < earlier.len() && earlier[j] == key(items[i]);
        assert(items.take(i)[j] == items[j]);
    }
    in_order_ascends(items, key);
    let out = in_order(items, key);
    assert forall|m: int, n: int| 0 <= m < n < out.len() implies key_before(
        key(#[trigger] out[m]),
        key(#[trigger] out[n]),
    ) by {
        assert(keys_of(out, key)[m] == key(out[m]) && keys_of(out, key)[n] == key(out[n]));
    }
}

/// Pairs of texts are keyed by both texts.
pub proof fn pairs_are_keyed_by_both_texts(items: Seq<(String, String)>, i: int)
    requires
        0 <= i < items.len(),
    ensures
        item_keys(items).len() == items.len(),
        item_keys(items)[i] == (items[i].0@, items[i].1@),
{
}

/// Packages are keyed by their ids alone.
pub proof fn packages_are_keyed_by_id(a: &Package, b: &Package)
    ensures
        item_keys(seq![a])[0].0 == a.id@,
        a.id@ == b.id@ ==> item_keys(seq![a]) == item_keys(seq![b]),
{
    assert(item_keys(seq![a])[0] == (a.id@, ""@));
    assert(item_keys(seq![b])[0] == (b.id@, ""@));
}

/// Crates are keyed by name and version.
pub proof fn crates_are_keyed_by_name_and_version(items: Seq<CrateRef>, i: int)
    requires
        0 <= i < items.len(),
    ensures
        item_keys(items).len() == items.len(),
        item_keys(items)[i] == (items[i].name@, items[i].version@),
{
}

/// Sections are keyed by name and license id.
pub proof fn sections_are_keyed_by_name_and_id(items: Seq<LicenseSection>, i: int)
    requires
        0 <= i < items.len(),
    ensures
        item_keys(items).len() == items.len(),
        item_keys(items)[i] == (items[i].name@, items[i].id@),
{
}

} // verus!
