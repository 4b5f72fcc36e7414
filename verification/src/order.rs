//! The order of texts and of keyed items, and sequences kept in that order.

use crate::text::characters;
use vstd::prelude::*;

verus! {

/// Two texts by which an item is ordered: by the first, then by the second.
pub type Key = (Seq<char>, Seq<char>);

/// Whether `a` comes before `b` in the lexicographic order of code points.
pub open spec fn text_before(a: Seq<char>, b: Seq<char>) -> bool
    decreases a.len(),
{
    if b.len() == 0 {
        false
    } else if a.len() == 0 {
        true
    } else if a[0] != b[0] {
        a[0] < b[0]
    } else {
        text_before(a.skip(1), b.skip(1))
    }
}

/// Whether `a` comes before `b`: by the first text, then by the second.
pub open spec fn key_before(a: Key, b: Key) -> bool {
    text_before(a.0, b.0) || (a.0 == b.0 && text_before(a.1, b.1))
}

/// Whether each key comes before all that follow it.
pub open spec fn ascending(keys: Seq<Key>) -> bool {
    forall|i: int, j: int| 0 <= i < j < keys.len() ==> key_before(keys[i], keys[j])
}

/// How many keys at the front of `keys` come before `k`.
pub open spec fn slot(keys: Seq<Key>, k: Key) -> int
    decreases keys.len(),
{
    if keys.len() > 0 && key_before(keys[0], k) {
        1 + slot(keys.skip(1), k)
    } else {
        0
    }
}

/// The keys of `items`.
pub open spec fn keys_of<V>(items: Seq<V>, key: spec_fn(V) -> Key) -> Seq<Key> {
    items.map_values(key)
}

/// `items` with `v` in its place, or `items` alone where one of them has the key
/// of `v` there already.
pub open spec fn placed<V>(items: Seq<V>, key: spec_fn(V) -> Key, v: V) -> Seq<V> {
    let i = slot(keys_of(items, key), key(v));
    if i < items.len() && key(items[i]) == key(v) {
        items
    } else {
        items.insert(i, v)
    }
}

/// The items in the order of their keys; of those with one key, only the first.
pub open spec fn in_order<V>(items: Seq<V>, key: spec_fn(V) -> Key) -> Seq<V>
    decreases items.len(),
{
    if items.len() == 0 {
        items
    } else {
        placed(in_order(items.drop_last(), key), key, items.last())
    }
}

/// No text comes before itself.
pub proof fn text_order_is_irreflexive(a: Seq<char>)
    ensures
        !text_before(a, a),
    decreases a.len(),
{
    if a.len() > 0 {
        text_order_is_irreflexive(a.skip(1));
    }
}

/// Of two different texts one comes before the other.
pub proof fn text_order_is_total(a: Seq<char>, b: Seq<char>)
    requires
        a != b,
    ensures
        text_before(a, b) || text_before(b, a),
    decreases a.len(),
{
    if a.len() == 0 || b.len() == 0 {
        if a.len() == 0 && b.len() == 0 {
            assert(a == b);
        }
    } else if a[0] == b[0] {
        if a.skip(1) == b.skip(1) {
            assert(a == seq![a[0]] + a.skip(1));
            assert(b == seq![b[0]] + b.skip(1));
        }
        text_order_is_total(a.skip(1), b.skip(1));
    }
}

/// Of three texts, where the first comes before the second and that before the third, the
/// first comes before the third.
pub proof fn text_order_is_transitive(a: Seq<char>, b: Seq<char>, c: Seq<char>)
    requires
        text_before(a, b),
        text_before(b, c),
    ensures
        text_before(a, c),
    decreases a.len(),
{
    if a.len() > 0 && a[0] == b[0] && b[0] == c[0] {
        text_order_is_transitive(a.skip(1), b.skip(1), c.skip(1));
    }
}

/// No key comes before itself.
pub proof fn key_order_is_irreflexive(a: Key)
    ensures
        !key_before(a, a),
{
    text_order_is_irreflexive(a.0);
    text_order_is_irreflexive(a.1);
}

/// Of two different keys one comes before the other.
pub proof fn key_order_is_total(a: Key, b: Key)
    requires
        a != b,
    ensures
        key_before(a, b) || key_before(b, a),
{
    if a.0 != b.0 {
        text_order_is_total(a.0, b.0);
    } else {
        text_order_is_total(a.1, b.1);
    }
}

/// Of three keys, where the first comes before the second and that before the third, the
/// first comes before the third.
pub proof fn key_order_is_transitive(a: Key, b: Key, c: Key)
    requires
        key_before(a, b),
        key_before(b, c),
    ensures
        key_before(a, c),
{
    if text_before(a.0, b.0) && text_before(b.0, c.0) {
        text_order_is_transitive(a.0, b.0, c.0);
    }
    if text_before(a.1, b.1) && text_before(b.1, c.1) {
        text_order_is_transitive(a.1, b.1, c.1);
    }
}

/// What lies before the slot of `k` comes before `k`, and the key at the slot
/// does not.
pub proof fn slot_splits(keys: Seq<Key>, k: Key)
    ensures
        0 <= slot(keys, k) <= keys.len(),
        forall|j: int| 0 <= j < slot(keys, k) ==> key_before(#[trigger] keys[j], k),
        slot(keys, k) < keys.len() ==> !key_before(keys[slot(keys, k)], k),
    decreases keys.len(),
{
    if keys.len() > 0 && key_before(keys[0], k) {
        slot_splits(keys.skip(1), k);
        assert forall|j: int| 0 <= j < slot(keys, k) implies key_before(#[trigger] keys[j], k) by {
            if j > 0 {
                assert(keys.skip(1)[j - 1] == keys[j]);
            }
        }
    }
}

/// Placing an item keeps the keys ascending, keeps every item, and brings in the
/// new one unless its key is there already.
pub proof fn placing_keeps_order<V>(items: Seq<V>, key: spec_fn(V) -> Key, v: V)
    requires
        ascending(keys_of(items, key)),
    ensures
        ascending(keys_of(placed(items, key, v), key)),
        forall|x: V| #[trigger]
            placed(items, key, v).contains(x) <==> items.contains(x) || (x == v
                && !keys_of(items, key).contains(key(v))),
{
    let keys = keys_of(items, key);
    let k = key(v);
    let i = slot(keys, k);
    slot_splits(keys, k);
    let out = placed(items, key, v);
    if i < items.len() && key(items[i]) == k {
        assert(keys[i] == k);
    } else {
        assert forall|j: int| i <= j < keys.len() implies key_before(k, #[trigger] keys[j]) by {
            assert(keys[i] == key(items[i]));
            key_order_is_total(keys[i], k);
            if j > i {
                key_order_is_transitive(k, keys[i], keys[j]);
            }
        }
        assert(keys_of(out, key) == keys.insert(i, k));
        assert(!keys.contains(k)) by {
            key_order_is_irreflexive(k);
        }
        assert forall|x: V| #[trigger] out.contains(x) <==> items.contains(x) || x == v by {
            if items.contains(x) {
                let j = choose|j: int| 0 <= j < items.len() && items[j] == x;
                assert(out[if j < i { j } else { j + 1 }] == x);
            }
            if x == v {
                assert(out[i] == v);
            }
        }
    }
}

/// Putting items in order gives ascending keys: none occurs twice.
pub proof fn in_order_ascends<V>(items: Seq<V>, key: spec_fn(V) -> Key)
    ensures
        ascending(keys_of(in_order(items, key), key)),
    decreases items.len(),
{
    if items.len() > 0 {
        in_order_ascends(items.drop_last(), key);
        placing_keeps_order(in_order(items.drop_last(), key), key, items.last());
    }
}

/// An item stands in the ordered sequence exactly where it is the first of the
/// given items with its key.
pub proof fn in_order_keeps_first<V>(items: Seq<V>, key: spec_fn(V) -> Key, x: V)
    ensures
        in_order(items, key).contains(x) <==> exists|i: int|
            0 <= i < items.len() && #[trigger] items[i] == x && !keys_of(items.take(i), key).contains(
                key(x),
            ),
    decreases items.len(),
{
    let out = in_order(items, key);
    if items.len() > 0 {
        let rest = items.drop_last();
        let last = items.len() - 1;
        let before = in_order(rest, key);
        in_order_keeps_first(rest, key, x);
        in_order_ascends(rest, key);
        placing_keeps_order(before, key, items.last());
        in_order_keys(rest, key, key(items.last()));
        assert(items.take(last) == rest);
        if out.contains(x) {
            if before.contains(x) {
                let i = choose|i: int|
                    0 <= i < rest.len() && #[trigger] rest[i] == x && !keys_of(
                        rest.take(i),
                        key,
                    ).contains(key(x));
                assert(items[i] == x);
                assert(items.take(i) == rest.take(i));
            } else {
                assert(items[last] == x);
            }
        }
        if exists|i: int|
            0 <= i < items.len() && #[trigger] items[i] == x && !keys_of(items.take(i), key).contains(
                key(x),
            ) {
            let i = choose|i: int|
                0 <= i < items.len() && #[trigger] items[i] == x && !keys_of(
                    items.take(i),
                    key,
                ).contains(key(x));
            if i < last {
                assert(rest[i] == x);
                assert(items.take(i) == rest.take(i));
            }
        }
    }
}

/// The ordered sequence holds exactly the keys of the given items.
pub proof fn in_order_keys<V>(items: Seq<V>, key: spec_fn(V) -> Key, k: Key)
    ensures
        keys_of(in_order(items, key), key).contains(k) <==> keys_of(items, key).contains(k),
    decreases items.len(),
{
    if items.len() > 0 {
        let rest = items.drop_last();
        let before = in_order(rest, key);
        let out = in_order(items, key);
        let v = items.last();
        in_order_keys(rest, key, k);
        in_order_ascends(rest, key);
        placing_keeps_order(before, key, v);
        let given = keys_of(items, key);
        let old_keys = keys_of(before, key);
        let new_keys = keys_of(out, key);
        assert(given == keys_of(rest, key).push(key(v)));
        if new_keys.contains(k) {
            let i = choose|i: int| 0 <= i < new_keys.len() && new_keys[i] == k;
            assert(out.contains(out[i]));
            if before.contains(out[i]) {
                let j = choose|j: int| 0 <= j < before.len() && before[j] == out[i];
                assert(old_keys[j] == k);
                let n = choose|n: int| 0 <= n < keys_of(rest, key).len() && keys_of(rest, key)[n] == k;
                assert(given[n] == k);
            } else {
                assert(given[given.len() - 1] == k);
            }
        }
        if given.contains(k) {
            if k == key(v) {
                if old_keys.contains(k) {
                    let j = choose|j: int| 0 <= j < old_keys.len() && old_keys[j] == k;
                    assert(before.contains(before[j]));
                    assert(out.contains(before[j]));
                    let n = choose|n: int| 0 <= n < out.len() && out[n] == before[j];
                    assert(new_keys[n] == k);
                } else {
                    assert(out.contains(v));
                    let n = choose|n: int| 0 <= n < out.len() && out[n] == v;
                    assert(new_keys[n] == k);
                }
            } else {
                let n = choose|n: int| 0 <= n < given.len() && given[n] == k;
                assert(keys_of(rest, key)[n] == k);
                let j = choose|j: int| 0 <= j < old_keys.len() && old_keys[j] == k;
                assert(before.contains(before[j]));
                assert(out.contains(before[j]));
                let m = choose|m: int| 0 <= m < out.len() && out[m] == before[j];
                assert(new_keys[m] == k);
            }
        }
    }
}

/// Whether `a` comes before `b` in the lexicographic order of code points, which
/// is how `std` orders strings.
pub fn comes_before(a: &str, b: &str) -> (r: bool)
    ensures
        r == text_before(a@, b@),
{
    let x = characters(a);
    let y = characters(b);
    let mut i: usize = 0;
    assert(x@.skip(0) == x@ && y@.skip(0) == y@);
    while i < x.len() && i < y.len() && x[i] == y[i]
        invariant
            i <= x@.len(),
            i <= y@.len(),
            text_before(x@, y@) == text_before(x@.skip(i as int), y@.skip(i as int)),
        decreases x@.len() - i,
    {
        assert(x@.skip(i as int).skip(1) == x@.skip(i + 1));
        assert(y@.skip(i as int).skip(1) == y@.skip(i + 1));
        i += 1;
    }
    if i == y.len() {
        false
    } else if i == x.len() {
        true
    } else {
        x[i] < y[i]
    }
}

/// An item that is ordered by two texts.
pub trait Keyed {
    /// The two texts.
    spec fn key(&self) -> Key;

    fn first(&self) -> (r: &str)
        ensures
            r@ == self.key().0,
    ;

    fn second(&self) -> (r: &str)
        ensures
            r@ == self.key().1,
    ;
}

impl Keyed for (String, String) {
    open spec fn key(&self) -> Key {
        (self.0@, self.1@)
    }

    fn first(&self) -> (r: &str) {
        self.0.as_str()
    }

    fn second(&self) -> (r: &str) {
        self.1.as_str()
    }
}

/// How a keyed item gives its key.
pub open spec fn item_key<T: Keyed>() -> spec_fn(T) -> Key {
    |t: T| t.key()
}

/// The keys of `items`.
pub open spec fn item_keys<T: Keyed>(items: Seq<T>) -> Seq<Key> {
    keys_of(items, item_key::<T>())
}

/// Where `v` belongs among `items`, or `None` where one of them has its key.
pub fn slot_for<T: Keyed>(items: &Vec<T>, v: &T) -> (r: Option<usize>)
    ensures
        match r {
            Some(i) => {
                &&& i == slot(item_keys(items@), v.key())
                &&& i < items@.len() ==> items@[i as int].key() != v.key()
            },
            None => {
                let i = slot(item_keys(items@), v.key());
                i < items@.len() && items@[i].key() == v.key()
            },
        },
{
    let ghost keys = item_keys(items@);
    let mut i: usize = 0;
    assert(keys.skip(0) == keys);
    while i < items.len()
        invariant
            i <= items@.len(),
            keys == item_keys(items@),
            slot(keys, v.key()) == i + slot(keys.skip(i as int), v.key()),
        decreases items@.len() - i,
    {
        let ghost rest = keys.skip(i as int);
        assert(rest[0] == items@[i as int].key());
        if comes_before(items[i].first(), v.first()) {
        } else if items[i].first().eq(v.first()) {
            if comes_before(items[i].second(), v.second()) {
            } else if items[i].second().eq(v.second()) {
                return None;
            } else {
                return Some(i);
            }
        } else {
            return Some(i);
        }
        assert(rest.skip(1) == keys.skip(i + 1));
        i += 1;
    }
    Some(i)
}

/// Puts `v` in its place among `items`, unless one of them has its key.
pub fn place<T: Keyed>(items: &mut Vec<T>, v: T)
    requires
        ascending(item_keys(old(items)@)),
    ensures
        final(items)@ == placed(old(items)@, item_key::<T>(), v),
        ascending(item_keys(final(items)@)),
{
    proof {
        slot_splits(item_keys(items@), v.key());
        placing_keeps_order(items@, item_key::<T>(), v);
    }
    if let Some(i) = slot_for(items, &v) {
        items.insert(i, v);
    }
}

/// Ascending keys are determined by which keys they are.
pub proof fn ascending_keys_are_determined(a: Seq<Key>, b: Seq<Key>)
    requires
        ascending(a),
        ascending(b),
        forall|k: Key| a.contains(k) <==> b.contains(k),
    ensures
        a == b,
    decreases a.len(),
{
    if a.len() == 0 {
        if b.len() > 0 {
            assert(b.contains(b[0]));
        }
        assert(a == b);
    } else {
        assert(a.contains(a[0]));
        assert(b.len() > 0) by {
            assert(b.contains(a[0]));
        }
        let x = a.last();
        let y = b.last();
        assert(x == y) by {
            assert(a.contains(x) && b.contains(y));
            let i = choose|i: int| 0 <= i < b.len() && b[i] == x;
            let j = choose|j: int| 0 <= j < a.len() && a[j] == y;
            if x != y {
                assert(key_before(b[i], b[b.len() - 1]));
                assert(key_before(a[j], a[a.len() - 1]));
                key_order_is_transitive(x, y, x);
                key_order_is_irreflexive(x);
            }
        }
        let c = a.drop_last();
        let d = b.drop_last();
        assert forall|k: Key| c.contains(k) <==> d.contains(k) by {
            if c.contains(k) {
                let i = choose|i: int| 0 <= i < c.len() && c[i] == k;
                assert(a.contains(k)) by {
                    assert(a[i] == k);
                }
                let j = choose|j: int| 0 <= j < b.len() && b[j] == k;
                assert(key_before(a[i], a[a.len() - 1]));
                key_order_is_irreflexive(x);
                assert(d[j] == k);
            }
            if d.contains(k) {
                let i = choose|i: int| 0 <= i < d.len() && d[i] == k;
                assert(b.contains(k)) by {
                    assert(b[i] == k);
                }
                let j = choose|j: int| 0 <= j < a.len() && a[j] == k;
                assert(key_before(b[i], b[b.len() - 1]));
                key_order_is_irreflexive(y);
                assert(c[j] == k);
            }
        }
        ascending_keys_are_determined(c, d);
        assert(a == c.push(x) && b == d.push(y));
    }
}

/// A key is its own key.
pub open spec fn own_key() -> spec_fn(Key) -> Key {
    |k: Key| k
}

/// Placing and then viewing each item by `f`, which keeps the key, is the same as
/// viewing and then placing.
pub proof fn placing_commutes<V, W>(
    items: Seq<V>,
    key: spec_fn(V) -> Key,
    v: V,
    f: spec_fn(V) -> W,
    other_key: spec_fn(W) -> Key,
)
    requires
        forall|x: V| other_key(#[trigger] f(x)) == key(x),
    ensures
        placed(items, key, v).map_values(f) == placed(items.map_values(f), other_key, f(v)),
{
    let keys = keys_of(items, key);
    assert forall|i: int| 0 <= i < items.len() implies other_key(items.map_values(f)[i]) == key(
        items[i],
    ) by {
        assert(items.map_values(f)[i] == f(items[i]));
    }
    assert(keys_of(items.map_values(f), other_key) == keys);
    slot_splits(keys, key(v));
    let i = slot(keys, key(v));
    assert(items.insert(i, v).map_values(f) == items.map_values(f).insert(i, f(v)));
}

} // verus!
