//! Listings: the items of one subject, newest first, ready to be cut into pages.

use std::collections::HashMap;

use vstd::prelude::*;

use crate::pagination::cursor::Cursor;
use crate::pagination::errors::PaginationError;
use crate::pagination::page::{compute_page, Page};

verus! {

broadcast use vstd::std_specs::hash::group_hash_axioms;

/// Values that have a place in a listing.
pub trait Positioned: Sized {
    /// The key by which a value is placed: a timestamp, then an id.
    spec fn key(self) -> (u64, u64);

    /// The key by which this value is placed.
    fn listing_key(&self) -> (key: (u64, u64))
        ensures
            key == self.key(),
    ;
}

/// The keys of `items`.
pub open spec fn keys_of<T: Positioned>(items: Seq<T>) -> Seq<(u64, u64)> {
    items.map_values(|item: T| item.key())
}

/// Whether no key is less than one that comes after it.
pub open spec fn newest_first<T: Positioned>(items: Seq<T>) -> bool {
    forall|i: int, j: int|
        0 <= i < j < items.len() ==> !crate::pagination::page::key_less(
            (#[trigger] items[i]).key(),
            (#[trigger] items[j]).key(),
        )
}

/// Whether `order` holds each of `ids` once and nothing else.
pub open spec fn arranges(order: Seq<u64>, ids: Set<u64>) -> bool {
    order.no_duplicates() && order.to_set() == ids
}

/// Whether `items` are the items of `ids`, each once, newest first.
pub open spec fn is_listing<T: Positioned>(
    ids: Set<u64>,
    item_of: spec_fn(u64) -> T,
    items: Seq<T>,
) -> bool {
    &&& newest_first(items)
    &&& exists|order: Seq<u64>| #[trigger]
        arranges(order, ids) && items == order.map_values(item_of)
}

/// Collections that can be walked page by page.
///
/// The items of a subject have one order, newest first, and a cursor is bound to
/// the subject whose items it walks.
pub trait PaginatedCollection {
    /// The items of the collection.
    type Item: Clone;

    /// Whether the collection is well formed.
    spec fn valid(&self) -> bool;

    /// The key by which an item is placed.
    spec fn key_of(item: Self::Item) -> (u64, u64);

    /// The subject that an item belongs to.
    spec fn owner_of(item: Self::Item) -> Seq<char>;

    /// Whether `items` are the items of `subject`, in order.
    spec fn lists(&self, subject: Seq<char>, items: Seq<Self::Item>) -> bool;

    /// The items of a subject belong to it, and every key is less than those before
    /// it.
    proof fn law_lists_in_order(&self, subject: Seq<char>, items: Seq<Self::Item>)
        requires
            self.valid(),
            self.lists(subject, items),
        ensures
            forall|i: int|
                0 <= i < items.len() ==> Self::owner_of(#[trigger] items[i]) == subject,
            crate::pagination::page::descending(
                items.map_values(|item: Self::Item| Self::key_of(item)),
            ),
    ;

    /// The key by which an item is placed: `(created_at, id)`.
    fn sort_key(item: &Self::Item) -> (key: (u64, u64))
        ensures
            key == Self::key_of(*item),
    ;

    /// The subject (user id) that an item belongs to.
    fn subject(item: &Self::Item) -> (owner: &str)
        ensures
            owner@ == Self::owner_of(*item),
    ;

    /// The items of `subject` that follow `cursor`, at most a page of them.
    fn query(&self, subject: &str, cursor: Option<&Cursor>, page_size: usize) -> (res: Result<
        Page<Self::Item>,
        PaginationError,
    >)
        ensures
            exists|items: Seq<Self::Item>| #[trigger]
                self.lists(subject@, items) && crate::pagination::page::page_by_key(
                    items,
                    subject@,
                    crate::pagination::cursor::cursor_view(cursor),
                    page_size,
                    |item: Self::Item| Self::key_of(item),
                    res,
                ),
    ;
}

/// Puts `item` in its place among items that are sorted newest first.
pub(crate) fn insert_newest_first<T: Positioned>(items: &mut Vec<T>, item: T)
    requires
        newest_first(old(items)@),
    ensures
        newest_first(final(items)@),
        exists|i: int|
            0 <= i <= old(items)@.len() && final(items)@ == #[trigger] old(items)@.insert(i, item),
{
    let key: (u64, u64) = item.listing_key();
    let mut i: usize = 0;
    let mut found: bool = false;
    while i < items.len() && !found
        invariant
            items@ == old(items)@,
            key == item.key(),
            0 <= i <= items@.len(),
            newest_first(items@),
            forall|j: int|
                0 <= j < i ==> !crate::pagination::page::key_less(
                    (#[trigger] items@[j]).key(),
                    key,
                ),
            found ==> i < items@.len() && crate::pagination::page::key_less(
                items@[i as int].key(),
                key,
            ),
        decreases
                items@.len() - i,
                if found {
                    0int
                } else {
                    1int
                },
    {
        let other: (u64, u64) = items[i].listing_key();
        if other.0 < key.0 || (other.0 == key.0 && other.1 < key.1) {
            found = true;
        } else {
            i = i + 1;
        }
    }
    proof {
        let grown = old(items)@.insert(i as int, item);
        assert forall|a: int, b: int|
            0 <= a < b < grown.len() implies !crate::pagination::page::key_less(
            (#[trigger] grown[a]).key(),
            (#[trigger] grown[b]).key(),
        ) by {
            let before = old(items)@;
            if a < i {
                assert(grown[a] == before[a]);
            } else if a > i {
                assert(grown[a] == before[a - 1]);
            }
            if b < i {
                assert(grown[b] == before[b]);
            } else if b > i {
                assert(grown[b] == before[b - 1]);
            }
            if a == i {
                assert(!crate::pagination::page::key_less(before[i as int].key(), before[b
                    - 1].key()) || b - 1 == i);
            }
        }
    }
    items.insert(i, item);
}

/// The ids of the entries that satisfy `keep`.
pub(crate) fn ids_where<V>(
    map: &HashMap<u64, V>,
    keep: impl Fn(&V) -> bool,
    Ghost(kept): Ghost<spec_fn(V) -> bool>,
) -> (ids: Vec<u64>)
    requires
        forall|v: V| #[trigger] call_requires(keep, (&v,)),
        forall|v: V, b: bool| #[trigger] call_ensures(keep, (&v,), b) ==> b == kept(v),
    ensures
        arranges(ids@, map@.dom().filter(|id: u64| kept(map@[id]))),
        ids@.len() == map@.dom().filter(|id: u64| kept(map@[id])).len(),
{
    let ghost wanted = map@.dom().filter(|id: u64| kept(map@[id]));
    let mut ids: Vec<u64> = Vec::new();
    for id in it: map.keys()
        invariant
            forall|v: V| #[trigger] call_requires(keep, (&v,)),
            forall|v: V, b: bool| #[trigger] call_ensures(keep, (&v,), b) ==> b == kept(v),
            wanted == map@.dom().filter(|id: u64| kept(map@[id])),
            it.seq().unref().to_set() == map@.dom(),
            it.seq().unref().no_duplicates(),
            ids@.no_duplicates(),
            forall|i: int|
                0 <= i < ids@.len() ==> wanted.contains(#[trigger] ids@[i])
                    && it.seq().unref().take(it.index()).contains(ids@[i]),
            forall|k: int|
                0 <= k < it.index() && wanted.contains(#[trigger] it.seq().unref()[k])
                    ==> ids@.contains(it.seq().unref()[k]),
            it.index() == it.seq().len() ==> forall|key: u64|
                wanted.contains(key) ==> #[trigger] ids@.contains(key),
    {
        let ghost before = ids@;
        if let Some(value) = map.get(id) {
            if keep(value) {
                ids.push(*id);
                proof {
                    assert(ids@.last() == *id);
                    assert forall|key: u64| before.contains(key) implies ids@.contains(key) by {
                        let i = choose|i: int| 0 <= i < before.len() && before[i] == key;
                        assert(ids@[i] == key);
                    }
                }
            }
        }
        proof {
            let keys = it.seq().unref();
            let n = it.index();
            assert(keys.to_set().contains(keys[n]));
            assert(keys.take(n + 1) == keys.take(n).push(*id));
            assert(keys.take(n + 1)[n] == *id);
            assert forall|key: u64| keys.take(n).contains(key) implies #[trigger] keys.take(
                n + 1,
            ).contains(key) by {
                let k = choose|k: int| 0 <= k < n && keys.take(n)[k] == key;
                assert(keys.take(n + 1)[k] == key);
            }
            assert forall|key: u64|
                n + 1 == keys.len() && wanted.contains(key) implies #[trigger] ids@.contains(
                key,
            ) by {
                assert(keys.to_set().contains(key));
                let k = choose|k: int| 0 <= k < keys.len() && keys[k] == key;
                assert(wanted.contains(keys[k]));
            }
        }
    }
    proof {
        assert(ids@.to_set() =~= wanted);
        ids@.unique_seq_to_set();
    }
    ids
}

/// The items of `ids`, newest first, where `project` takes an item out of an entry.
pub(crate) fn listed<V, T: Positioned>(
    map: &HashMap<u64, V>,
    ids: &Vec<u64>,
    project: impl Fn(&V) -> T,
    Ghost(projected): Ghost<spec_fn(V) -> T>,
) -> (items: Vec<T>)
    requires
        ids@.no_duplicates(),
        forall|i: int| 0 <= i < ids@.len() ==> map@.contains_key(#[trigger] ids@[i]),
        forall|v: V| #[trigger] call_requires(project, (&v,)),
        forall|v: V, t: T| #[trigger] call_ensures(project, (&v,), t) ==> t == projected(v),
    ensures
        is_listing(ids@.to_set(), |id: u64| projected(map@[id]), items@),
{
    let ghost item_of = |id: u64| projected(map@[id]);
    let mut items: Vec<T> = Vec::new();
    let ghost mut order: Seq<u64> = Seq::empty();
    let mut i: usize = 0;
    proof {
        assert(items@ == order.map_values(item_of));
    }
    while i < ids.len()
        invariant
            0 <= i <= ids@.len(),
            ids@.no_duplicates(),
            item_of == (|id: u64| projected(map@[id])),
            forall|k: int| 0 <= k < ids@.len() ==> map@.contains_key(#[trigger] ids@[k]),
            forall|v: V| #[trigger] call_requires(project, (&v,)),
            forall|v: V, t: T| #[trigger] call_ensures(project, (&v,), t) ==> t == projected(v),
            newest_first(items@),
            items@ == order.map_values(item_of),
            order.len() == i,
            order.no_duplicates(),
            forall|k: int|
                0 <= k < order.len() ==> ids@.take(i as int).contains(#[trigger] order[k]),
            forall|k: int| 0 <= k < i ==> order.contains(#[trigger] ids@[k]),
        decreases ids@.len() - i,
    {
        let id: u64 = ids[i];
        if let Some(value) = map.get(&id) {
            let ghost before = items@;
            let item = project(value);
            insert_newest_first(&mut items, item);
            proof {
                let at = choose|at: int|
                    0 <= at <= before.len() && items@ == #[trigger] before.insert(at, item);
                let grown = order.insert(at, id);
                assert(items@ == grown.map_values(item_of));
                assert(!order.contains(id)) by {
                    if order.contains(id) {
                        let k = choose|k: int| 0 <= k < order.len() && order[k] == id;
                        assert(ids@.take(i as int).contains(order[k]));
                        let j = choose|j: int|
                            0 <= j < i && #[trigger] ids@.take(i as int)[j] == id;
                        assert(ids@[j] == ids@[i as int]);
                    }
                }
                assert forall|k: int| 0 <= k < grown.len() implies ids@.take(i + 1).contains(
                    #[trigger] grown[k],
                ) by {
                    if k == at {
                        assert(ids@.take(i + 1)[i as int] == id);
                    } else {
                        let old_k = if k < at {
                            k
                        } else {
                            k - 1
                        };
                        assert(grown[k] == order[old_k]);
                        let j = choose|j: int|
                            0 <= j < i && #[trigger] ids@.take(i as int)[j] == order[old_k];
                        assert(ids@.take(i + 1)[j] == order[old_k]);
                    }
                }
                assert forall|k: int| 0 <= k < i + 1 implies grown.contains(#[trigger] ids@[k]) by {
                    if k == i {
                        assert(grown[at] == id);
                    } else {
                        let j = choose|j: int| 0 <= j < order.len() && order[j] == ids@[k];
                        assert(grown[if j < at {
                            j
                        } else {
                            j + 1
                        }] == ids@[k]);
                    }
                }
                order = grown;
            }
        }
        i = i + 1;
    }
    proof {
        assert(ids@.take(i as int) == ids@);
        assert(order.to_set() =~= ids@.to_set()) by {
            assert forall|id: u64| order.to_set().contains(id) implies ids@.to_set().contains(
                id,
            ) by {
                let k = choose|k: int| 0 <= k < order.len() && order[k] == id;
                assert(ids@.contains(order[k]));
            }
            assert forall|id: u64| ids@.to_set().contains(id) implies order.to_set().contains(
                id,
            ) by {
                let k = choose|k: int| 0 <= k < ids@.len() && ids@[k] == id;
                assert(order.contains(ids@[k]));
            }
        }
        assert(arranges(order, ids@.to_set()));
    }
    items
}

/// The page of a listing that follows `cursor`.
pub(crate) fn page_of_listing<T: Positioned + Clone>(
    items: &Vec<T>,
    subject: &str,
    cursor: Option<&Cursor>,
    page_size: usize,
) -> (res: Result<Page<T>, PaginationError>)
    ensures
        crate::pagination::page::page_by_key(
            items@,
            subject@,
            crate::pagination::cursor::cursor_view(cursor),
            page_size,
            |item: T| item.key(),
            res,
        ),
{
    let sort_key = |item: &T| -> (key: (u64, u64))
        ensures
            key == item.key(),
        { item.listing_key() };
    let res = compute_page(items.as_slice(), subject, cursor, page_size, sort_key);
    proof {
        crate::pagination::page::law_page_follows_key(
            items@,
            subject@,
            crate::pagination::cursor::cursor_view(cursor),
            page_size,
            sort_key,
            |item: T| item.key(),
            res,
        );
    }
    res
}

/// A listing whose items all have different keys has every key less than those
/// before it.
pub proof fn law_listing_is_descending<T: Positioned>(
    ids: Set<u64>,
    item_of: spec_fn(u64) -> T,
    items: Seq<T>,
)
    requires
        keys_differ(ids, item_of),
        is_listing(ids, item_of, items),
    ensures
        crate::pagination::page::descending(keys_of(items)),
{
    let order = choose|order: Seq<u64>| #[trigger]
        arranges(order, ids) && items == order.map_values(item_of);
    let keys = keys_of(items);
    assert forall|i: int, j: int|
        0 <= i < j < keys.len() implies crate::pagination::page::key_less(
        #[trigger] keys[j],
        #[trigger] keys[i],
    ) by {
        assert(order.to_set().contains(order[i]));
        assert(order.to_set().contains(order[j]));
        assert(items[i] == item_of(order[i]));
        assert(items[j] == item_of(order[j]));
        assert(keys[i] == items[i].key());
        assert(keys[j] == items[j].key());
    }
}

/// Whether the items of different ids have different keys.
pub open spec fn keys_differ<T: Positioned>(ids: Set<u64>, item_of: spec_fn(u64) -> T) -> bool {
    forall|a: u64, b: u64|
        ids.contains(a) && ids.contains(b) && a != b ==> (#[trigger] item_of(a)).key() != (
        #[trigger] item_of(b)).key()
}

/// Two arrangements of the same ids by descending key are the same.
proof fn lemma_arrangement_is_unique<T: Positioned>(
    ids: Set<u64>,
    item_of: spec_fn(u64) -> T,
    first: Seq<u64>,
    second: Seq<u64>,
)
    requires
        keys_differ(ids, item_of),
        arranges(first, ids),
        arranges(second, ids),
        newest_first(first.map_values(item_of)),
        newest_first(second.map_values(item_of)),
    ensures
        first == second,
    decreases first.len(),
{
    first.unique_seq_to_set();
    second.unique_seq_to_set();
    assert(first.len() == second.len());
    if first.len() > 0 {
        let n = first.len() - 1;
        let a = first[n];
        let b = second[n];
        assert(ids.contains(a)) by {
            assert(first.to_set().contains(a));
        }
        assert(ids.contains(b)) by {
            assert(second.to_set().contains(b));
        }
        assert(a == b) by {
            assert(first.to_set().contains(b));
            let i = choose|i: int| 0 <= i < first.len() && first[i] == b;
            assert(second.to_set().contains(a));
            let j = choose|j: int| 0 <= j < second.len() && second[j] == a;
            let x = first.map_values(item_of);
            let y = second.map_values(item_of);
            assert(x[i] == item_of(b) && x[n] == item_of(a));
            assert(y[j] == item_of(a) && y[n] == item_of(b));
        }
        let rest = ids.remove(a);
        let x = first.drop_last();
        let y = second.drop_last();
        assert(x.to_set() =~= rest) by {
            assert forall|id: u64| rest.contains(id) implies x.to_set().contains(id) by {
                assert(first.to_set().contains(id));
                let k = choose|k: int| 0 <= k < first.len() && first[k] == id;
                assert(x[k] == id);
            }
            assert forall|id: u64| x.to_set().contains(id) implies rest.contains(id) by {
                let k = choose|k: int| 0 <= k < x.len() && x[k] == id;
                assert(first[k] == id);
                assert(first.to_set().contains(id));
            }
        }
        assert(y.to_set() =~= rest) by {
            assert forall|id: u64| rest.contains(id) implies y.to_set().contains(id) by {
                assert(second.to_set().contains(id));
                let k = choose|k: int| 0 <= k < second.len() && second[k] == id;
                assert(y[k] == id);
            }
            assert forall|id: u64| y.to_set().contains(id) implies rest.contains(id) by {
                let k = choose|k: int| 0 <= k < y.len() && y[k] == id;
                assert(second[k] == id);
                assert(second.to_set().contains(id));
            }
        }
        lemma_newest_first_prefix(first, item_of);
        lemma_newest_first_prefix(second, item_of);
        lemma_arrangement_is_unique(rest, item_of, x, y);
        assert(first == x.push(a));
        assert(second == y.push(a));
    } else {
        assert(first == second);
    }
}

/// Without its last item a listing is still sorted.
proof fn lemma_newest_first_prefix<T: Positioned>(order: Seq<u64>, item_of: spec_fn(u64) -> T)
    requires
        order.len() > 0,
        newest_first(order.map_values(item_of)),
    ensures
        newest_first(order.drop_last().map_values(item_of)),
{
    let whole = order.map_values(item_of);
    let prefix = order.drop_last().map_values(item_of);
    assert forall|i: int, j: int|
        0 <= i < j < prefix.len() implies !crate::pagination::page::key_less(
        (#[trigger] prefix[i]).key(),
        (#[trigger] prefix[j]).key(),
    ) by {
        assert(prefix[i] == whole[i]);
        assert(prefix[j] == whole[j]);
    }
}

/// The order of a listing is determined: where the items have different keys, there
/// is only one.
pub proof fn law_listing_is_unique<T: Positioned>(
    ids: Set<u64>,
    item_of: spec_fn(u64) -> T,
    first: Seq<T>,
    second: Seq<T>,
)
    requires
        keys_differ(ids, item_of),
        is_listing(ids, item_of, first),
        is_listing(ids, item_of, second),
    ensures
        first == second,
{
    let a = choose|order: Seq<u64>| #[trigger]
        arranges(order, ids) && first == order.map_values(item_of);
    let b = choose|order: Seq<u64>| #[trigger]
        arranges(order, ids) && second == order.map_values(item_of);
    lemma_arrangement_is_unique(ids, item_of, a, b);
}

} // verus!
