//! Grouping of keyed values, in the order in which the keys first appear.
use vstd::prelude::*;

verus! {

/// The distinct keys of the items, in the order in which they first appear.
pub open spec fn keys<K, V>(items: Seq<(K, V)>) -> Seq<K>
    decreases items.len(),
{
    if items.len() == 0 {
        Seq::empty()
    } else {
        let before = keys(items.drop_last());
        if before.contains(items.last().0) {
            before
        } else {
            before.push(items.last().0)
        }
    }
}

/// The values that the items have under `key`, in their order.
pub open spec fn values<K, V>(items: Seq<(K, V)>, key: K) -> Seq<V>
    decreases items.len(),
{
    if items.len() == 0 {
        Seq::empty()
    } else if items.last().0 == key {
        values(items.drop_last(), key).push(items.last().1)
    } else {
        values(items.drop_last(), key)
    }
}

/// Each distinct key with its values.
pub open spec fn groups<K, V>(items: Seq<(K, V)>) -> Seq<(K, Seq<V>)> {
    Seq::new(keys(items).len(), |i: int| (keys(items)[i], values(items, keys(items)[i])))
}

/// Whether `i` is the first group with this key.
pub open spec fn is_group_of<K, V>(groups: Seq<(K, Seq<V>)>, key: K, i: int) -> bool {
    &&& 0 <= i < groups.len()
    &&& groups[i].0 == key
    &&& forall|j: int| 0 <= j < i ==> groups[j].0 != key
}

/// The groups with one more value: in the group of its key, or in a new one.
pub open spec fn inserted<K, V>(groups: Seq<(K, Seq<V>)>, key: K, value: V) -> Seq<(K, Seq<V>)> {
    if exists|i: int| is_group_of(groups, key, i) {
        let i = choose|i: int| is_group_of(groups, key, i);
        groups.update(i, (key, groups[i].1.push(value)))
    } else {
        groups.push((key, seq![value]))
    }
}

/// No key has two groups.
pub proof fn law_keys_distinct<K, V>(items: Seq<(K, V)>)
    ensures
        keys(items).no_duplicates(),
    decreases items.len(),
{
    if items.len() > 0 {
        law_keys_distinct(items.drop_last());
    }
}

/// A key has a group if and only if some item has that key.
pub proof fn law_key_has_item<K, V>(items: Seq<(K, V)>, key: K)
    ensures
        keys(items).contains(key) <==> exists|i: int| 0 <= i < items.len() && items[i].0 == key,
        keys(items).contains(key) <==> values(items, key).len() > 0,
    decreases items.len(),
{
    if items.len() > 0 {
        let before = items.drop_last();
        law_key_has_item(before, key);
        let k = items.last().0;
        assert(keys(before).push(k)[keys(before).len() as int] == k);
        assert(items[items.len() - 1].0 == k);
        if keys(items).contains(key) {
            if keys(before).contains(key) {
                let i = choose|i: int| 0 <= i < before.len() && before[i].0 == key;
                assert(items[i].0 == key);
            } else {
                assert(k == key);
            }
        }
        if exists|i: int| 0 <= i < items.len() && items[i].0 == key {
            let i = choose|i: int| 0 <= i < items.len() && items[i].0 == key;
            if i < before.len() {
                assert(before[i].0 == key);
                let j = choose|j: int| 0 <= j < keys(before).len() && keys(before)[j] == key;
                assert(keys(items)[j] == key);
            }
        }
    }
}

/// Grouping item by item gives the same groups as grouping all at once.
pub proof fn law_insert_groups<K, V>(items: Seq<(K, V)>, key: K, value: V)
    ensures
        groups(items.push((key, value))) == inserted(groups(items), key, value),
{
    let all = items.push((key, value));
    assert(all.drop_last() == items);
    let g = groups(items);
    law_keys_distinct(items);
    law_key_has_item(items, key);
    if keys(items).contains(key) {
        let i = choose|i: int| 0 <= i < keys(items).len() && keys(items)[i] == key;
        assert(is_group_of(g, key, i));
        assert(groups(all) =~= inserted(g, key, value));
    } else {
        assert forall|i: int| !is_group_of(g, key, i) by {
            if 0 <= i < g.len() {
                assert(keys(items)[i] == g[i].0);
            }
        }
        assert(values(items, key) =~= Seq::<V>::empty());
        assert forall|i: int| 0 <= i < keys(items).len() implies keys(items)[i] != key by {}
        assert(groups(all) =~= inserted(g, key, value));
    }
}

/// The values under a key in two lists of items, one behind the other, are those
/// in the first and then those in the second.
pub proof fn law_values_add<K, V>(a: Seq<(K, V)>, b: Seq<(K, V)>, key: K)
    ensures
        values(a + b, key) == values(a, key) + values(b, key),
    decreases b.len(),
{
    if b.len() == 0 {
        assert(a + b =~= a);
        assert(values(a, key) + values(b, key) =~= values(a, key));
    } else {
        law_values_add(a, b.drop_last(), key);
        assert((a + b).drop_last() =~= a + b.drop_last());
        assert(values(a + b, key) =~= values(a, key) + values(b, key));
    }
}

/// The order of the items is without effect on which keys there are and on which
/// values each has.
pub proof fn law_order_of_items<K, V>(a: Seq<(K, V)>, b: Seq<(K, V)>)
    requires
        a.to_multiset() == b.to_multiset(),
    ensures
        keys(a).len() == keys(b).len(),
        forall|key: K| #[trigger] keys(a).contains(key) <==> #[trigger] keys(b).contains(key),
        forall|key: K| #[trigger]
            values(a, key).to_multiset() == #[trigger] values(b, key).to_multiset(),
{
    broadcast use vstd::seq_lib::group_to_multiset_ensures;
    assert forall|key: K| #[trigger] values(a, key).to_multiset() == #[trigger] values(
        b,
        key,
    ).to_multiset() by {
        lemma_values_reordered(a, b, key);
    }
    assert forall|key: K| #[trigger] keys(a).contains(key) <==> #[trigger] keys(b).contains(
        key,
    ) by {
        law_key_has_item(a, key);
        law_key_has_item(b, key);
        lemma_values_reordered(a, b, key);
        assert(values(a, key).to_multiset().len() == values(b, key).to_multiset().len());
    }
    law_keys_distinct(a);
    law_keys_distinct(b);
    keys(a).unique_seq_to_set();
    keys(b).unique_seq_to_set();
    assert(keys(a).to_set() =~= keys(b).to_set());
}

proof fn lemma_values_remove<K, V>(items: Seq<(K, V)>, j: int, key: K)
    requires
        0 <= j < items.len(),
    ensures
        values(items, key).to_multiset() == (if items[j].0 == key {
            values(items.remove(j), key).to_multiset().insert(items[j].1)
        } else {
            values(items.remove(j), key).to_multiset()
        }),
{
    broadcast use vstd::seq_lib::group_to_multiset_ensures;
    let before = items.take(j);
    let one = seq![items[j]];
    let after = items.skip(j + 1);
    assert(items =~= before + one + after);
    assert(items.remove(j) =~= before + after);
    law_values_add(before + one, after, key);
    law_values_add(before, one, key);
    law_values_add(before, after, key);
    assert(one.drop_last() =~= Seq::<(K, V)>::empty());
    assert(values(one.drop_last(), key) =~= Seq::<V>::empty());
    let x = values(before, key);
    let y = values(after, key);
    if items[j].0 == key {
        let v = items[j].1;
        assert(values(one, key) =~= seq![v]);
        vstd::seq_lib::to_multiset_insert(x + y, x.len() as int, v);
        assert((x + y).insert(x.len() as int, v) =~= x + seq![v] + y);
    } else {
        assert(x + values(one, key) + y =~= x + y);
    }
}

proof fn lemma_values_reordered<K, V>(a: Seq<(K, V)>, b: Seq<(K, V)>, key: K)
    requires
        a.to_multiset() == b.to_multiset(),
    ensures
        values(a, key).to_multiset() == values(b, key).to_multiset(),
    decreases a.len(),
{
    broadcast use vstd::seq_lib::group_to_multiset_ensures;
    vstd::seq_lib::to_multiset_len(a);
    vstd::seq_lib::to_multiset_len(b);
    if a.len() == 0 {
        assert(a =~= b);
    } else {
        let n = a.len() - 1;
        let item = a[n];
        assert(a.contains(item));
        assert(a.to_multiset().count(item) > 0);
        assert(b.contains(item));
        let j = b.index_of(item);
        lemma_values_reordered(a.remove(n), b.remove(j), key);
        lemma_values_remove(a, n, key);
        lemma_values_remove(b, j, key);
    }
}

/// A single item has its own key and value, and no other key has any.
pub proof fn law_single_item<K, V>(key: K, value: V, other: K)
    ensures
        keys(seq![(key, value)]) == seq![key],
        values(seq![(key, value)], other) == (if other == key {
            seq![value]
        } else {
            Seq::empty()
        }),
        values(Seq::<(K, V)>::empty(), other).len() == 0,
        keys(Seq::<(K, V)>::empty()).len() == 0,
{
    let one = seq![(key, value)];
    assert(one.drop_last() =~= Seq::<(K, V)>::empty());
    assert(keys(one.drop_last()) =~= Seq::<K>::empty());
    assert(values(one.drop_last(), other) =~= Seq::<V>::empty());
    assert(keys(one) =~= seq![key]);
    if other == key {
        assert(values(one, other) =~= seq![value]);
    }
}

/// More items leave the keys that are there where they are.
pub proof fn law_keys_stay<K, V>(a: Seq<(K, V)>, b: Seq<(K, V)>)
    ensures
        keys(a).is_prefix_of(keys(a + b)),
    decreases b.len(),
{
    if b.len() == 0 {
        assert(a + b =~= a);
    } else {
        law_keys_stay(a, b.drop_last());
        assert((a + b).drop_last() =~= a + b.drop_last());
        assert(keys(a) =~= keys(a + b).subrange(0, keys(a).len() as int));
    }
}

/// Every item is found in the group of its key, and a group holds nothing but the
/// values of the items with its key.
pub proof fn law_groups_hold_the_items<K, V>(items: Seq<(K, V)>)
    ensures
        forall|i: int|
            0 <= i < items.len() ==> held(groups(items), (#[trigger] items[i]).0, items[i].1),
        forall|key: K, value: V| #[trigger]
            held(groups(items), key, value) ==> items.contains((key, value)),
        groups(items).len() == keys(items).len(),
        forall|g: int|
            0 <= g < groups(items).len() ==> (#[trigger] groups(items)[g]).0 == keys(items)[g]
                && groups(items)[g].1 == values(items, keys(items)[g]),
{
    assert forall|i: int| 0 <= i < items.len() implies held(
        groups(items),
        (#[trigger] items[i]).0,
        items[i].1,
    ) by {
        let key = items[i].0;
        law_key_has_item(items, key);
        let g = keys(items).index_of(key);
        law_value_is_item(items, key, items[i].1);
        assert(items.contains((key, items[i].1)));
        assert(groups(items)[g].0 == key && groups(items)[g].1.contains(items[i].1));
    }
    assert forall|key: K, value: V| #[trigger] held(
        groups(items),
        key,
        value,
    ) implies items.contains((key, value)) by {
        law_value_is_item(items, key, value);
    }
}

/// Whether the group of this key holds this value.
pub open spec fn held<K, V>(groups: Seq<(K, Seq<V>)>, key: K, value: V) -> bool {
    exists|g: int|
        0 <= g < groups.len() && (#[trigger] groups[g]).0 == key && groups[g].1.contains(value)
}

/// A value stands under a key if and only if some item has both.
pub proof fn law_value_is_item<K, V>(items: Seq<(K, V)>, key: K, value: V)
    ensures
        values(items, key).contains(value) <==> items.contains((key, value)),
    decreases items.len(),
{
    if items.len() > 0 {
        let before = items.drop_last();
        law_value_is_item(before, key, value);
        let n = items.len() - 1;
        if values(items, key).contains(value) {
            if values(before, key).contains(value) {
                let i = before.index_of((key, value));
                assert(items[i] == (key, value));
            } else {
                assert(items[n] == (key, value));
            }
        }
        if items.contains((key, value)) {
            let i = items.index_of((key, value));
            if i < n {
                assert(before[i] == (key, value));
                let k = values(before, key).index_of(value);
                assert(values(items, key)[k] == value);
            } else {
                let k = values(before, key).len() as int;
                assert(values(items, key)[k] == value);
            }
        }
    }
}

} // verus!
