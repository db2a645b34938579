//! Lists of keyed items that stand for finite maps from strings.

use vstd::prelude::*;
use crate::managers::text::{
    lemma_text_before_asymmetric, lemma_text_before_total, lemma_text_before_transitive,
    text_before,
};

verus! {

/// The map that a list of pairs stands for. Where a key occurs twice the
/// later pair counts.
pub open spec fn pairs_map<V>(pairs: Seq<(Seq<char>, V)>) -> Map<Seq<char>, V>
    decreases pairs.len(),
{
    if pairs.len() == 0 {
        Map::empty()
    } else {
        pairs_map(pairs.drop_last()).insert(pairs.last().0, pairs.last().1)
    }
}

/// No key occurs twice among the pairs.
pub open spec fn pairs_distinct<V>(pairs: Seq<(Seq<char>, V)>) -> bool {
    forall|i: int, j: int| 0 <= i < j < pairs.len() ==> pairs[i].0 != pairs[j].0
}

/// No key occurs twice among the items.
pub open spec fn keys_distinct<V>(items: Seq<(String, V)>) -> bool {
    forall|i: int, j: int| 0 <= i < j < items.len() ==> items[i].0@ != items[j].0@
}

/// The key is that of none of the items.
pub open spec fn key_absent<V>(items: Seq<(String, V)>, key: Seq<char>) -> bool {
    forall|j: int| 0 <= j < items.len() ==> (#[trigger] items[j]).0@ != key
}

/// A key is in the map of a list exactly if some pair has it, and the map is
/// finite.
pub proof fn lemma_pairs_dom<V>(pairs: Seq<(Seq<char>, V)>, key: Seq<char>)
    ensures
        pairs_map(pairs).contains_key(key) <==> exists|i: int|
            0 <= i < pairs.len() && (#[trigger] pairs[i]).0 == key,
        pairs_map(pairs).dom().finite(),
    decreases pairs.len(),
{
    if pairs.len() > 0 {
        let front = pairs.drop_last();
        lemma_pairs_dom(front, key);
        if pairs_map(pairs).contains_key(key) {
            if pairs.last().0 == key {
                assert(pairs[pairs.len() - 1].0 == key);
            } else {
                let i = choose|i: int| 0 <= i < front.len() && (#[trigger] front[i]).0 == key;
                assert(pairs[i].0 == key);
            }
        }
        if exists|i: int| 0 <= i < pairs.len() && (#[trigger] pairs[i]).0 == key {
            let i = choose|i: int| 0 <= i < pairs.len() && (#[trigger] pairs[i]).0 == key;
            if i < pairs.len() - 1 {
                assert(front[i].0 == key);
            }
        }
    }
}

/// In a list without a repeated key, the map holds each pair's value under
/// its key.
pub proof fn lemma_pairs_value<V>(pairs: Seq<(Seq<char>, V)>, i: int)
    requires
        pairs_distinct(pairs),
        0 <= i < pairs.len(),
    ensures
        pairs_map(pairs).contains_key(pairs[i].0),
        pairs_map(pairs)[pairs[i].0] == pairs[i].1,
    decreases pairs.len(),
{
    if i < pairs.len() - 1 {
        let front = pairs.drop_last();
        assert(front[i] == pairs[i]);
        lemma_pairs_value(front, i);
    }
}

/// A key that no pair has is not in the map.
pub proof fn lemma_pairs_absent<V>(pairs: Seq<(Seq<char>, V)>, key: Seq<char>)
    requires
        forall|j: int| 0 <= j < pairs.len() ==> (#[trigger] pairs[j]).0 != key,
    ensures
        !pairs_map(pairs).contains_key(key),
{
    lemma_pairs_dom(pairs, key);
}

/// A list without a repeated key stands for a map of as many keys as the
/// list has pairs.
pub proof fn lemma_pairs_len<V>(pairs: Seq<(Seq<char>, V)>)
    requires
        pairs_distinct(pairs),
    ensures
        pairs_map(pairs).len() == pairs.len(),
    decreases pairs.len(),
{
    if pairs.len() > 0 {
        let front = pairs.drop_last();
        let key = pairs.last().0;
        assert(pairs_distinct(front)) by {
            assert forall|a: int, b: int| 0 <= a < b < front.len() implies front[a].0
                != front[b].0 by {
                assert(front[a] == pairs[a]);
                assert(front[b] == pairs[b]);
            }
        }
        lemma_pairs_len(front);
        lemma_pairs_dom(front, key);
        assert(!pairs_map(front).contains_key(key)) by {
            if pairs_map(front).contains_key(key) {
                let i = choose|i: int| 0 <= i < front.len() && (#[trigger] front[i]).0 == key;
                assert(pairs[i].0 == pairs[pairs.len() - 1].0);
            }
        }
        assert(pairs_map(pairs).dom() =~= pairs_map(front).dom().insert(key));
    } else {
        assert(pairs_map(pairs).dom() =~= Set::<Seq<char>>::empty());
    }
}

/// Replacing the value of pair `i` in a list without a repeated key replaces
/// the value under that pair's key in the map.
pub proof fn lemma_pairs_update<V>(pairs: Seq<(Seq<char>, V)>, i: int, value: V)
    requires
        pairs_distinct(pairs),
        0 <= i < pairs.len(),
    ensures
        pairs_distinct(pairs.update(i, (pairs[i].0, value))),
        pairs_map(pairs.update(i, (pairs[i].0, value))) == pairs_map(pairs).insert(
            pairs[i].0,
            value,
        ),
{
    let after = pairs.update(i, (pairs[i].0, value));
    let expected = pairs_map(pairs).insert(pairs[i].0, value);
    assert(pairs_distinct(after)) by {
        assert forall|a: int, b: int| 0 <= a < b < after.len() implies after[a].0 != after[b].0 by {
            assert(after[a].0 == pairs[a].0);
            assert(after[b].0 == pairs[b].0);
        }
    }
    assert forall|key: Seq<char>| pairs_map(after).contains_key(key) <==> expected.contains_key(
        key,
    ) by {
        lemma_pairs_dom(after, key);
        lemma_pairs_dom(pairs, key);
        if pairs_map(after).contains_key(key) {
            let j = choose|j: int| 0 <= j < after.len() && (#[trigger] after[j]).0 == key;
            assert(pairs[j].0 == key);
        }
        if pairs_map(pairs).contains_key(key) {
            let j = choose|j: int| 0 <= j < pairs.len() && (#[trigger] pairs[j]).0 == key;
            assert(after[j].0 == key);
        }
        if key == pairs[i].0 {
            assert(after[i].0 == key);
        }
    }
    assert forall|key: Seq<char>| pairs_map(after).contains_key(key) implies pairs_map(after)[key]
        == expected[key] by {
        lemma_pairs_dom(after, key);
        let j = choose|j: int| 0 <= j < after.len() && (#[trigger] after[j]).0 == key;
        lemma_pairs_value(after, j);
        lemma_pairs_value(pairs, j);
        if j != i {
            assert(after[j] == pairs[j]);
        }
    }
    assert(pairs_map(after) =~= expected);
}

/// Adding a pair at the end adds it to the map; where its key is new, no key
/// occurs twice afterwards either.
pub proof fn lemma_pairs_push<V>(pairs: Seq<(Seq<char>, V)>, key: Seq<char>, value: V)
    ensures
        pairs_map(pairs.push((key, value))) == pairs_map(pairs).insert(key, value),
        pairs_distinct(pairs) && !pairs_map(pairs).contains_key(key) ==> pairs_distinct(
            pairs.push((key, value)),
        ),
{
    let after = pairs.push((key, value));
    assert(after.drop_last() =~= pairs);
    if pairs_distinct(pairs) && !pairs_map(pairs).contains_key(key) {
        lemma_pairs_dom(pairs, key);
        assert forall|a: int, b: int| 0 <= a < b < after.len() implies after[a].0 != after[b].0 by {
            if b == pairs.len() {
                assert(pairs[a].0 != key);
            } else {
                assert(after[a] == pairs[a]);
                assert(after[b] == pairs[b]);
            }
        }
    }
}

/// Taking pair `i` out of a list without a repeated key takes that pair's
/// key out of the map.
pub proof fn lemma_pairs_remove<V>(pairs: Seq<(Seq<char>, V)>, i: int)
    requires
        pairs_distinct(pairs),
        0 <= i < pairs.len(),
    ensures
        pairs_distinct(pairs.remove(i)),
        pairs_map(pairs.remove(i)) == pairs_map(pairs).remove(pairs[i].0),
{
    let after = pairs.remove(i);
    let expected = pairs_map(pairs).remove(pairs[i].0);
    assert forall|a: int| 0 <= a < after.len() implies #[trigger] after[a] == pairs[if a < i {
        a
    } else {
        a + 1
    }] by {}
    assert(pairs_distinct(after)) by {
        assert forall|a: int, b: int| 0 <= a < b < after.len() implies after[a].0 != after[b].0 by {
            let a0 = if a < i { a } else { a + 1 };
            let b0 = if b < i { b } else { b + 1 };
            assert(after[a] == pairs[a0]);
            assert(after[b] == pairs[b0]);
        }
    }
    assert forall|key: Seq<char>| pairs_map(after).contains_key(key) <==> expected.contains_key(
        key,
    ) by {
        lemma_pairs_dom(after, key);
        lemma_pairs_dom(pairs, key);
        if pairs_map(after).contains_key(key) {
            let j = choose|j: int| 0 <= j < after.len() && (#[trigger] after[j]).0 == key;
            let j0 = if j < i { j } else { j + 1 };
            assert(after[j] == pairs[j0]);
            assert(pairs[j0].0 == key);
        }
        if expected.contains_key(key) {
            let j = choose|j: int| 0 <= j < pairs.len() && (#[trigger] pairs[j]).0 == key;
            assert(j != i);
            let j1 = if j < i { j } else { j - 1 };
            assert(after[j1] == pairs[j]);
            assert(after[j1].0 == key);
        }
    }
    assert forall|key: Seq<char>| pairs_map(after).contains_key(key) implies pairs_map(after)[key]
        == expected[key] by {
        lemma_pairs_dom(after, key);
        let j = choose|j: int| 0 <= j < after.len() && (#[trigger] after[j]).0 == key;
        let j0 = if j < i { j } else { j + 1 };
        assert(after[j] == pairs[j0]);
        lemma_pairs_value(after, j);
        lemma_pairs_value(pairs, j0);
    }
    assert(pairs_map(after) =~= expected);
}

/// Returns the position of the item whose key is `key`, if there is one.
pub fn find_key<V>(items: &Vec<(String, V)>, key: &String) -> (r: Option<usize>)
    ensures
        match r {
            Some(i) => i < items@.len() && items@[i as int].0@ == key@,
            None => key_absent(items@, key@),
        },
{
    let mut i: usize = 0;
    while i < items.len()
        invariant
            i <= items@.len(),
            forall|j: int| 0 <= j < i ==> (#[trigger] items@[j]).0@ != key@,
        decreases items@.len() - i,
    {
        if items[i].0 == *key {
            return Some(i);
        }
        i += 1;
    }
    None
}

/// The pairs come in the order of their keys, each key before the next.
pub open spec fn pairs_sorted<V>(pairs: Seq<(Seq<char>, V)>) -> bool {
    forall|i: int, j: int| 0 <= i < j < pairs.len() ==> text_before(pairs[i].0, pairs[j].0)
}

/// The items come in the order of their keys, each key before the next.
pub open spec fn keys_ordered<V>(items: Seq<(String, V)>) -> bool {
    forall|i: int, j: int| 0 <= i < j < items.len() ==> text_before(items[i].0@, items[j].0@)
}

/// Among pairs in the order of their keys no key occurs twice.
pub proof fn lemma_sorted_distinct<V>(pairs: Seq<(Seq<char>, V)>)
    requires
        pairs_sorted(pairs),
    ensures
        pairs_distinct(pairs),
{
    assert forall|i: int, j: int| 0 <= i < j < pairs.len() implies pairs[i].0 != pairs[j].0 by {
        lemma_text_before_asymmetric(pairs[i].0, pairs[j].0);
    }
}

/// Among items in the order of their keys no key occurs twice.
pub proof fn lemma_ordered_distinct<V>(items: Seq<(String, V)>)
    requires
        keys_ordered(items),
    ensures
        keys_distinct(items),
{
    assert forall|i: int, j: int| 0 <= i < j < items.len() implies items[i].0@ != items[j].0@ by {
        lemma_text_before_asymmetric(items[i].0@, items[j].0@);
    }
}

/// A map has one list of its pairs in the order of their keys: two such
/// lists that stand for the same map are the same list.
pub proof fn lemma_sorted_unique<V>(a: Seq<(Seq<char>, V)>, b: Seq<(Seq<char>, V)>)
    requires
        pairs_sorted(a),
        pairs_sorted(b),
        pairs_map(a) == pairs_map(b),
    ensures
        a == b,
    decreases a.len(),
{
    lemma_sorted_distinct(a);
    lemma_sorted_distinct(b);
    lemma_pairs_len(a);
    lemma_pairs_len(b);
    if a.len() > 0 {
        let m = a.len() - 1;
        let ka = a[m].0;
        let kb = b[m].0;
        lemma_pairs_value(a, m);
        lemma_pairs_value(b, m);
        lemma_pairs_dom(a, kb);
        lemma_pairs_dom(b, ka);
        let i = choose|i: int| 0 <= i < a.len() && (#[trigger] a[i]).0 == kb;
        let j = choose|j: int| 0 <= j < b.len() && (#[trigger] b[j]).0 == ka;
        assert(ka == kb) by {
            if i < m && j < m {
                assert(text_before(a[i].0, a[m].0));
                assert(text_before(b[j].0, b[m].0));
                lemma_text_before_asymmetric(ka, kb);
            }
        }
        assert(a[m] == b[m]);
        lemma_pairs_remove(a, m);
        lemma_pairs_remove(b, m);
        assert(a.remove(m) =~= a.drop_last());
        assert(b.remove(m) =~= b.drop_last());
        assert(pairs_sorted(a.drop_last())) by {
            assert forall|x: int, y: int| 0 <= x < y < a.drop_last().len() implies text_before(
                a.drop_last()[x].0,
                a.drop_last()[y].0,
            ) by {
                assert(text_before(a[x].0, a[y].0));
            }
        }
        assert(pairs_sorted(b.drop_last())) by {
            assert forall|x: int, y: int| 0 <= x < y < b.drop_last().len() implies text_before(
                b.drop_last()[x].0,
                b.drop_last()[y].0,
            ) by {
                assert(text_before(b[x].0, b[y].0));
            }
        }
        lemma_sorted_unique(a.drop_last(), b.drop_last());
        assert(a =~= a.drop_last().push(a[m]));
        assert(b =~= b.drop_last().push(b[m]));
    } else {
        assert(a =~= b);
    }
}

/// The pairs with one more pair put in at its place in the order of the
/// keys.
pub open spec fn sorted_with<V>(pairs: Seq<(Seq<char>, V)>, key: Seq<char>, value: V) -> Seq<
    (Seq<char>, V),
>
    decreases pairs.len(),
{
    if pairs.len() == 0 || text_before(pairs.last().0, key) {
        pairs.push((key, value))
    } else {
        sorted_with(pairs.drop_last(), key, value).push(pairs.last())
    }
}

/// Putting a pair with a new key in at its place keeps the order of the keys
/// and adds the pair to the map.
pub proof fn lemma_sorted_with<V>(pairs: Seq<(Seq<char>, V)>, key: Seq<char>, value: V)
    requires
        pairs_sorted(pairs),
        !pairs_map(pairs).contains_key(key),
    ensures
        pairs_sorted(sorted_with(pairs, key, value)),
        pairs_map(sorted_with(pairs, key, value)) == pairs_map(pairs).insert(key, value),
    decreases pairs.len(),
{
    let after = sorted_with(pairs, key, value);
    lemma_pairs_push(pairs, key, value);
    if pairs.len() > 0 && text_before(pairs.last().0, key) {
        assert forall|i: int, j: int| 0 <= i < j < after.len() implies text_before(
            after[i].0,
            after[j].0,
        ) by {
            if j == pairs.len() {
                if i < pairs.len() - 1 {
                    assert(text_before(pairs[i].0, pairs.last().0));
                    lemma_text_before_transitive(pairs[i].0, pairs.last().0, key);
                }
            } else {
                assert(text_before(pairs[i].0, pairs[j].0));
            }
        }
    } else if pairs.len() > 0 {
        let front = pairs.drop_last();
        let last = pairs.last();
        let inner = sorted_with(front, key, value);
        lemma_pairs_dom(pairs, key);
        lemma_pairs_dom(front, key);
        assert(last.0 != key) by {
            if last.0 == key {
                assert(pairs[pairs.len() - 1].0 == key);
            }
        }
        assert(!pairs_map(front).contains_key(key)) by {
            if pairs_map(front).contains_key(key) {
                let i = choose|i: int| 0 <= i < front.len() && (#[trigger] front[i]).0 == key;
                assert(pairs[i].0 == key);
            }
        }
        assert(pairs_sorted(front)) by {
            assert forall|i: int, j: int| 0 <= i < j < front.len() implies text_before(
                front[i].0,
                front[j].0,
            ) by {
                assert(text_before(pairs[i].0, pairs[j].0));
            }
        }
        lemma_sorted_with(front, key, value);
        lemma_text_before_total(key, last.0);
        lemma_sorted_distinct(inner);
        assert forall|i: int, j: int| 0 <= i < j < after.len() implies text_before(
            after[i].0,
            after[j].0,
        ) by {
            if j == inner.len() {
                lemma_pairs_value(inner, i);
                if inner[i].0 != key {
                    lemma_pairs_dom(front, inner[i].0);
                    let k = choose|k: int|
                        0 <= k < front.len() && (#[trigger] front[k]).0 == inner[i].0;
                    assert(text_before(pairs[k].0, pairs[pairs.len() - 1].0));
                }
            } else {
                assert(text_before(inner[i].0, inner[j].0));
            }
        }
        lemma_pairs_push(inner, last.0, last.1);
        assert(pairs_map(front).insert(key, value).insert(last.0, last.1) =~= pairs_map(
            front,
        ).insert(last.0, last.1).insert(key, value));
    }
}

/// Every finite map has a list of its pairs in the order of their keys.
pub proof fn lemma_sorted_exists<V>(map: Map<Seq<char>, V>)
    requires
        map.dom().finite(),
    ensures
        exists|pairs: Seq<(Seq<char>, V)>|
            pairs_sorted(pairs) && #[trigger] pairs_map(pairs) == map,
    decreases map.dom().len(),
{
    if map.dom().len() == 0 {
        let pairs = Seq::<(Seq<char>, V)>::empty();
        assert(map.dom() =~= Set::<Seq<char>>::empty());
        assert(pairs_map(pairs) =~= map);
    } else {
        let key = map.dom().choose();
        let rest = map.remove(key);
        lemma_sorted_exists(rest);
        let inner = choose|pairs: Seq<(Seq<char>, V)>|
            pairs_sorted(pairs) && #[trigger] pairs_map(pairs) == rest;
        lemma_sorted_with(inner, key, map[key]);
        let pairs = sorted_with(inner, key, map[key]);
        assert(rest.insert(key, map[key]) =~= map);
        assert(pairs_sorted(pairs) && pairs_map(pairs) == map);
    }
}

/// The items as pairs of a key's text and a value.
pub open spec fn item_pairs<V>(items: Seq<(String, V)>) -> Seq<(Seq<char>, V)> {
    Seq::new(items.len(), |i: int| (items[i].0@, items[i].1))
}

/// The map that a list of keyed items stands for.
pub open spec fn items_map<V>(items: Seq<(String, V)>) -> Map<Seq<char>, V> {
    pairs_map(item_pairs(items))
}

/// Returns the value under `key`, if there is one.
pub fn lookup<'a, V>(items: &'a Vec<(String, V)>, key: &String) -> (r: Option<&'a V>)
    requires
        keys_distinct(items@),
    ensures
        match r {
            Some(value) => items_map(items@).contains_key(key@) && items_map(items@)[key@]
                == *value,
            None => !items_map(items@).contains_key(key@),
        },
{
    match find_key(items, key) {
        Some(i) => {
            proof {
                lemma_pairs_value(item_pairs(items@), i as int);
            }
            Some(&items[i].1)
        },
        None => {
            proof {
                assert forall|j: int| 0 <= j < item_pairs(items@).len() implies (
                #[trigger] item_pairs(items@)[j]).0 != key@ by {
                    assert(items@[j].0@ != key@);
                }
                lemma_pairs_absent(item_pairs(items@), key@);
            }
            None
        },
    }
}

/// Takes the item under `key` out, if there is one, and returns its value.
pub fn take<V>(items: &mut Vec<(String, V)>, key: &String) -> (r: Option<V>)
    requires
        keys_distinct(old(items)@),
    ensures
        keys_distinct(final(items)@),
        items_map(final(items)@) == items_map(old(items)@).remove(key@),
        match r {
            Some(value) => items_map(old(items)@).contains_key(key@) && items_map(
                old(items)@,
            )[key@] == value,
            None => !items_map(old(items)@).contains_key(key@),
        },
{
    let ghost before = items@;
    match find_key(items, key) {
        Some(i) => {
            proof {
                lemma_pairs_value(item_pairs(before), i as int);
                lemma_pairs_remove(item_pairs(before), i as int);
            }
            let removed = items.remove(i);
            proof {
                assert(item_pairs(items@) =~= item_pairs(before).remove(i as int));
                assert forall|a: int, b: int| 0 <= a < b < items@.len() implies items@[a].0@
                    != items@[b].0@ by {
                    assert(item_pairs(items@)[a].0 != item_pairs(items@)[b].0);
                }
            }
            Some(removed.1)
        },
        None => {
            proof {
                assert forall|j: int| 0 <= j < item_pairs(before).len() implies (
                #[trigger] item_pairs(before)[j]).0 != key@ by {
                    assert(before[j].0@ != key@);
                }
                lemma_pairs_absent(item_pairs(before), key@);
                assert(items_map(before).remove(key@) =~= items_map(before));
            }
            None
        },
    }
}

/// Puts `value` under `key`, in place of the value that was there, if any,
/// which it returns.
pub fn put<V>(items: &mut Vec<(String, V)>, key: String, value: V) -> (r: Option<V>)
    requires
        keys_distinct(old(items)@),
    ensures
        keys_distinct(final(items)@),
        items_map(final(items)@) == items_map(old(items)@).insert(key@, value),
        match r {
            Some(previous) => items_map(old(items)@).contains_key(key@) && items_map(
                old(items)@,
            )[key@] == previous,
            None => !items_map(old(items)@).contains_key(key@),
        },
{
    let ghost before = items@;
    let previous = take(items, &key);
    let ghost between = items@;
    proof {
        lemma_pairs_push(item_pairs(between), key@, value);
        assert(item_pairs(between.push((key, value))) =~= item_pairs(between).push((key@, value)));
        assert(items_map(before).remove(key@).insert(key@, value) =~= items_map(before).insert(
            key@,
            value,
        ));
        assert(pairs_distinct(item_pairs(between)));
        assert forall|a: int, b: int|
            0 <= a < b < between.push((key, value)).len() implies between.push(
            (key, value),
        )[a].0@ != between.push((key, value))[b].0@ by {
            let after = item_pairs(between).push((key@, value));
            assert(after[a].0 != after[b].0);
        }
    }
    items.push((key, value));
    previous
}

} // verus!
