//! What holds of the store's operations taken together.

use vstd::prelude::*;
use crate::managers::assoc::{
    lemma_pairs_dom, lemma_pairs_value, lemma_sorted_distinct, lemma_sorted_exists,
    pairs_distinct, pairs_map,
};
use crate::managers::database_manager::{
    lookup_at, members_of, remove_at, store_delete, store_fetch, store_insert, store_load,
    store_merge, DataBaseView, StoreView,
};
use crate::managers::error::ServerError;
use crate::managers::json::DocumentView;
use crate::managers::json_text::{json_parse, json_text};
use crate::managers::text::{lemma_split_flat, split_spec};

verus! {

/// The store as an insertion leaves it: changed as [`store_insert`] says
/// where the insertion succeeds, and as it was where it fails.
pub open spec fn store_after_insert(store: StoreView, key: Seq<char>, value: DocumentView)
    -> StoreView {
    match store_insert(store, key, value) {
        Ok(after) => after,
        Err(_) => store,
    }
}

/// A value inserted under a key without a `.` is what a fetch of that key
/// then returns, as JSON text.
///
/// This holds whenever the insertion is accepted, and also where it is
/// refused but the value already under the key has the same text.
pub proof fn law_insert_then_fetch(store: StoreView, key: Seq<char>, value: DocumentView)
    requires
        !key.contains('.'),
        store_insert(store, key, value) is Ok || (store.contains_key(key) && json_text(store[key])
            == json_text(value)),
    ensures
        store_fetch(store_after_insert(store, key, value), key) == Ok::<Seq<char>, ServerError>(
            json_text(value),
        ),
{
}

/// A value of another tag never replaces the value under an existing
/// top-level key: the insertion fails with `INCOMPATIBLE_DATA_TYPES` and the
/// store stays as it was.
pub proof fn law_overwrite_needs_same_tag(store: StoreView, key: Seq<char>, value: DocumentView)
    requires
        !key.contains('.'),
        store.contains_key(key),
        store[key].tag() != value.tag(),
    ensures
        store_insert(store, key, value) == Err::<StoreView, ServerError>(
            ServerError::INCOMPATIBLE_DATA_TYPES,
        ),
        store_after_insert(store, key, value) == store,
        store_fetch(store_after_insert(store, key, value), key) == Ok::<Seq<char>, ServerError>(
            json_text(store[key]),
        ),
{
}

/// An insertion at a path needs its parent: it fails with `MISSING_DATA`
/// where the first segment names no top-level entry, and with `INVALID_JSON`
/// where it names one that is not an object.
pub proof fn law_nested_insert_needs_parent(store: StoreView, key: Seq<char>, value: DocumentView)
    requires
        key.contains('.'),
    ensures
        !store.contains_key(split_spec(key, '.')[0]) ==> store_insert(store, key, value) == Err::<
            StoreView,
            ServerError,
        >(ServerError::MISSING_DATA),
        store.contains_key(split_spec(key, '.')[0]) && !(store[split_spec(key, '.')[0]] is Object)
            ==> store_insert(store, key, value) == Err::<StoreView, ServerError>(
            ServerError::INVALID_JSON,
        ),
{
    lemma_split_flat(key, '.');
}

/// Deleting a top-level key twice: the first deletion returns the value and
/// takes the key out, the second fails with `INVALID_DATA`.
pub proof fn law_delete_twice(store: StoreView, key: Seq<char>)
    requires
        !key.contains('.'),
        store.contains_key(key),
    ensures
        store_delete(store, key) == Ok::<(StoreView, Seq<char>), ServerError>(
            (store.remove(key), json_text(store[key])),
        ),
        store_delete(store.remove(key), key) == Err::<(StoreView, Seq<char>), ServerError>(
            ServerError::INVALID_DATA,
        ),
{
}

/// Where a path can be followed but its last segment names no field, a
/// removal changes nothing and reports that nothing was removed.
pub proof fn lemma_remove_missing(d: DocumentView, path: Seq<Seq<char>>)
    requires
        lookup_at(d, path) == Ok::<Option<DocumentView>, ServerError>(None),
    ensures
        remove_at(d, path) == Ok::<(DocumentView, Option<DocumentView>), ServerError>((d, None)),
    decreases path.len(),
{
    if path.len() > 1 {
        let child = d.field(path[0])->Some_0;
        lemma_remove_missing(child, path.drop_first());
        assert(d->Object_0.insert(path[0], child) =~= d->Object_0);
    }
}

/// Deleting at a path whose last segment names no field, while the path up
/// to it exists, succeeds with the answer `NOT_FOUND` and leaves the store as
/// it was.
pub proof fn law_nested_delete_missing_leaf(store: StoreView, key: Seq<char>)
    requires
        key.contains('.'),
        store.contains_key(split_spec(key, '.')[0]),
        lookup_at(store[split_spec(key, '.')[0]], split_spec(key, '.').drop_first()) == Ok::<
            Option<DocumentView>,
            ServerError,
        >(None),
    ensures
        store_delete(store, key) == Ok::<(StoreView, Seq<char>), ServerError>(
            (store, "NOT_FOUND"@),
        ),
{
    let path = split_spec(key, '.');
    lemma_remove_missing(store[path[0]], path.drop_first());
    assert(store.insert(path[0], store[path[0]]) =~= store);
}

/// Merging pairs into an empty store gives the map that the pairs stand
/// for, where no key occurs twice among them and none holds a `.`.
pub proof fn lemma_merge_flat(entries: Seq<(Seq<char>, DocumentView)>)
    requires
        pairs_distinct(entries),
        forall|i: int| 0 <= i < entries.len() ==> !(#[trigger] entries[i]).0.contains('.'),
    ensures
        store_merge(Map::empty(), entries) == pairs_map(entries),
    decreases entries.len(),
{
    if entries.len() > 0 {
        let front = entries.drop_last();
        let last = entries.last();
        assert(pairs_distinct(front)) by {
            assert forall|i: int, j: int| 0 <= i < j < front.len() implies front[i].0
                != front[j].0 by {
                assert(entries[i].0 != entries[j].0);
            }
        }
        assert forall|i: int| 0 <= i < front.len() implies !(#[trigger] front[i]).0.contains(
            '.',
        ) by {
            assert(front[i] == entries[i]);
        }
        lemma_merge_flat(front);
        lemma_pairs_dom(front, last.0);
        assert(!pairs_map(front).contains_key(last.0)) by {
            if pairs_map(front).contains_key(last.0) {
                let i = choose|i: int| 0 <= i < front.len() && (#[trigger] front[i]).0 == last.0;
                assert(entries[i].0 == entries[entries.len() - 1].0);
            }
        }
        assert(!entries[entries.len() - 1].0.contains('.'));
    }
}

/// Loading what was saved reproduces the store: the text that a store is
/// saved as, loaded into a fresh store that has a file bound, leaves that
/// store equal to the saved one.
///
/// This holds of a store in which no top-level key holds a `.`, such a key
/// being read as a path by the load, and where the JSON reader makes of the
/// written text the value that was written.
pub proof fn law_save_then_load(store: StoreView, path: Seq<char>)
    requires
        store.dom().finite(),
        forall|key: Seq<char>| store.contains_key(key) ==> !key.contains('.'),
    ensures
        json_parse(json_text(DocumentView::Object(store))) == Some(DocumentView::Object(store))
            ==> store_load(
            DataBaseView { store: Map::empty(), file: Some(path) },
            Some(json_text(DocumentView::Object(store))),
        ) == Ok::<StoreView, ServerError>(store),
{
    lemma_sorted_exists(store);
    let members = members_of(store);
    lemma_sorted_distinct(members);
    assert forall|i: int| 0 <= i < members.len() implies !(#[trigger] members[i]).0.contains(
        '.',
    ) by {
        lemma_pairs_value(members, i);
    }
    lemma_merge_flat(members);
}

} // verus!
