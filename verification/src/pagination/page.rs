//! Pages: cutting an ordered collection into pieces and naming where the next
//! one begins.

use vstd::prelude::*;

use crate::pagination::cursor::{Cursor, CursorView};
use crate::pagination::errors::PaginationError;

verus! {

/// Page size where the caller names none.
pub const DEFAULT_PAGE_SIZE: usize = 20;

/// Largest page size.
pub const MAX_PAGE_SIZE: usize = 100;

/// Smallest page size.
pub const MIN_PAGE_SIZE: usize = 1;

/// The page size that a request for `requested` items gets: the default for zero,
/// and never more than the maximum.
pub open spec fn page_size_of(requested: usize) -> usize {
    if requested < MIN_PAGE_SIZE {
        DEFAULT_PAGE_SIZE
    } else if requested > MAX_PAGE_SIZE {
        MAX_PAGE_SIZE
    } else {
        requested
    }
}

/// Brings a requested page size into the allowed range.
pub fn normalize_page_size(requested: usize) -> (size: usize)
    ensures
        size == page_size_of(requested),
        MIN_PAGE_SIZE <= size <= MAX_PAGE_SIZE,
{
    if requested < MIN_PAGE_SIZE {
        DEFAULT_PAGE_SIZE
    } else if requested > MAX_PAGE_SIZE {
        MAX_PAGE_SIZE
    } else {
        requested
    }
}

/// One page of results.
#[derive(Debug, Clone, PartialEq, Eq)]
pub struct Page<T> {
    /// The items of this page.
    pub items: Vec<T>,
    /// The cursor for the next page; `None` on the last page.
    pub next_cursor: Option<Cursor>,
    /// Whether there are results after this page.
    pub has_more: bool,
    /// How many items match the query, on all pages together.
    pub total_count: usize,
}

impl<T> Page<T> {
    /// A page without results.
    pub fn empty(_subject: &str) -> (page: Self)
        ensures
            page.items@ == Seq::<T>::empty(),
            page.next_cursor is None,
            !page.has_more,
            page.total_count == 0,
    {
        Page { items: Vec::new(), next_cursor: None, has_more: false, total_count: 0 }
    }

    /// A page with results.
    pub fn new(
        items: Vec<T>,
        _page_size: usize,
        total_count: usize,
        next_cursor: Option<Cursor>,
        has_more: bool,
    ) -> (page: Self)
        ensures
            page == (Page { items, next_cursor, has_more, total_count }),
    {
        Page { items, next_cursor, has_more, total_count }
    }

    /// Whether this page holds no items.
    pub fn is_empty(&self) -> (empty: bool)
        ensures
            empty == (self.items@.len() == 0),
    {
        self.items.len() == 0
    }

    /// How many items this page holds.
    pub fn len(&self) -> (len: usize)
        ensures
            len == self.items@.len(),
    {
        self.items.len()
    }
}

/// Whether the key `a` is smaller than the key `b`: timestamp first, then id.  In
/// the descending order of a collection the item of `a` then comes after that of
/// `b`.
pub open spec fn key_less(a: (u64, u64), b: (u64, u64)) -> bool {
    a.0 < b.0 || (a.0 == b.0 && a.1 < b.1)
}

/// Whether `sort_key` can give `item` a key that is less than `position`, or, where
/// `less` is false, one that is not.
pub open spec fn compares<T, F: Fn(&T) -> (u64, u64)>(
    sort_key: F,
    item: T,
    position: (u64, u64),
    less: bool,
) -> bool {
    exists|k: (u64, u64)|
        call_ensures(sort_key, (&item,), k) && #[trigger] key_less(k, position) == less
}

/// Where a page begins that follows `cursor`: at the first item whose key, as
/// `sort_key` gives it, is less than the position of the cursor.
pub open spec fn starts_at<T, F: Fn(&T) -> (u64, u64)>(
    items: Seq<T>,
    cursor: Option<CursorView>,
    sort_key: F,
    start: int,
) -> bool {
    match cursor {
        None => start == 0,
        Some(c) => {
            &&& 0 <= start <= items.len()
            &&& forall|i: int|
                0 <= i < start ==> compares(sort_key, #[trigger] items[i], c.position(), false)
            &&& start < items.len() ==> compares(sort_key, items[start], c.position(), true)
        },
    }
}

/// Where a page of at most `size` items that begins at `start` ends.
pub open spec fn end_of(start: int, size: int, len: int) -> int {
    if start + size < len {
        start + size
    } else {
        len
    }
}

/// Whether `page` is the page for `subject` that begins at `start`: copies of the
/// items, their total number, and, where more items follow, a cursor at the last
/// item.
pub open spec fn page_from<T: Clone, F: Fn(&T) -> (u64, u64)>(
    items: Seq<T>,
    subject: Seq<char>,
    requested: usize,
    sort_key: F,
    start: int,
    page: Page<T>,
) -> bool {
    let end = end_of(start, page_size_of(requested) as int, items.len() as int);
    &&& page.items@.len() == end - start
    &&& forall|i: int|
        0 <= i < page.items@.len() ==> cloned(items[start + i], #[trigger] page.items@[i])
    &&& page.total_count == items.len()
    &&& page.has_more == (end < items.len())
    &&& match page.next_cursor {
        Some(next) => {
            &&& end < items.len()
            &&& next.subject@ == subject
            &&& call_ensures(sort_key, (&page.items@.last(),), next@.position())
        },
        None => end == items.len(),
    }
}

/// What computing a page gives: an error for a cursor that is bound to another
/// subject, and otherwise the page.
pub open spec fn page_computed<T: Clone, F: Fn(&T) -> (u64, u64)>(
    items: Seq<T>,
    subject: Seq<char>,
    cursor: Option<CursorView>,
    requested: usize,
    sort_key: F,
    res: Result<Page<T>, PaginationError>,
) -> bool {
    if cursor is Some && cursor.unwrap().subject != subject {
        crate::pagination::cursor::scope_mismatch(cursor.unwrap(), subject, res)
    } else {
        res matches Ok(page) && exists|start: int| #[trigger]
            starts_at(items, cursor, sort_key, start) && page_from(
                items,
                subject,
                requested,
                sort_key,
                start,
                page,
            )
    }
}

/// Computes a page of items that are sorted in descending order by
/// `(created_at, id)`.
pub fn compute_page<T: Clone>(
    sorted_items: &[T],
    subject: &str,
    cursor: Option<&Cursor>,
    page_size: usize,
    sort_key: impl Fn(&T) -> (u64, u64),
) -> (res: Result<Page<T>, PaginationError>)
    requires
        forall|i: int, x: T|
            0 <= i < sorted_items@.len() && #[trigger] cloned(sorted_items@[i], x)
                ==> call_requires(sort_key, (&x,)),
    ensures
        page_computed(
            sorted_items@,
            subject@,
            crate::pagination::cursor::cursor_view(cursor),
            page_size,
            sort_key,
            res,
        ),
{
    let size: usize = normalize_page_size(page_size);
    if let Some(c) = cursor {
        match c.validate_scope(subject) {
            Ok(()) => {},
            Err(e) => return Err(e),
        }
    }
    let total: usize = sorted_items.len();
    let ghost at = crate::pagination::cursor::cursor_view(cursor);
    let mut start: usize = 0;
    if let Some(c) = cursor {
        let mut found: bool = false;
        while start < total && !found
            invariant
                total == sorted_items@.len(),
                0 <= start <= total,
                at == Some(c@),
                forall|i: int, x: T|
                    0 <= i < sorted_items@.len() && #[trigger] cloned(sorted_items@[i], x)
                        ==> call_requires(sort_key, (&x,)),
                forall|i: int|
                    0 <= i < start ==> compares(
                        sort_key,
                        #[trigger] sorted_items@[i],
                        c@.position(),
                        false,
                    ),
                found ==> start < total && compares(
                    sort_key,
                    sorted_items@[start as int],
                    c@.position(),
                    true,
                ),
            decreases
                    total - start,
                    if found {
                        0int
                    } else {
                        1int
                    },
        {
            assert(cloned(sorted_items@[start as int], sorted_items@[start as int]));
            let key: (u64, u64) = sort_key(&sorted_items[start]);
            assert(compares(
                sort_key,
                sorted_items@[start as int],
                c@.position(),
                key_less(key, c@.position()),
            ));
            if key.0 < c.timestamp || (key.0 == c.timestamp && key.1 < c.id) {
                found = true;
            } else {
                start = start + 1;
            }
        }
    }
    assert(starts_at(sorted_items@, at, sort_key, start as int));
    let end: usize = if total - start > size {
        start + size
    } else {
        total
    };
    let mut items: Vec<T> = Vec::new();
    let mut i: usize = start;
    while i < end
        invariant
            start <= i <= end <= sorted_items@.len(),
            items@.len() == i - start,
            forall|k: int|
                0 <= k < items@.len() ==> cloned(
                    sorted_items@[start + k],
                    #[trigger] items@[k],
                ),
        decreases end - i,
    {
        items.push(sorted_items[i].clone());
        i = i + 1;
    }
    let has_more = end < total;
    let next_cursor: Option<Cursor> = if has_more {
        let last = &items[items.len() - 1];
        assert(cloned(sorted_items@[end - 1], *last));
        let key: (u64, u64) = sort_key(last);
        Some(Cursor::new(subject.to_owned(), key.0, key.1))
    } else {
        None
    };
    Ok(Page::new(items, size, total, next_cursor, has_more))
}

/// Whether `sort_key` computes `key`.
pub open spec fn computes_key<T, F: Fn(&T) -> (u64, u64)>(
    sort_key: F,
    key: spec_fn(T) -> (u64, u64),
) -> bool {
    forall|x: T, k: (u64, u64)| #[trigger] call_ensures(sort_key, (&x,), k) ==> k == key(x)
}

/// Whether copies of a value are equal to it.
pub open spec fn clones_faithfully<T: Clone>() -> bool {
    forall|a: T, b: T| #[trigger] cloned(a, b) ==> a == b
}

/// Whether every key is less than those before it.
pub open spec fn descending(keys: Seq<(u64, u64)>) -> bool {
    forall|i: int, j: int|
        0 <= i < j < keys.len() ==> key_less(#[trigger] keys[j], #[trigger] keys[i])
}

/// The place of the first key that is less than `position`, or the number of keys
/// where none is.
pub open spec fn first_less(keys: Seq<(u64, u64)>, position: (u64, u64)) -> int
    decreases keys.len(),
{
    if keys.len() == 0 || key_less(keys[0], position) {
        0
    } else {
        1 + first_less(keys.skip(1), position)
    }
}

/// Where a page begins that follows `position`, or that comes first where there is
/// none.
pub open spec fn page_start(keys: Seq<(u64, u64)>, position: Option<(u64, u64)>) -> int {
    match position {
        Some(p) => first_less(keys, p),
        None => 0,
    }
}

/// The position of a cursor, if there is a cursor.
pub open spec fn position_of(cursor: Option<CursorView>) -> Option<(u64, u64)> {
    match cursor {
        Some(c) => Some(c.position()),
        None => None,
    }
}

/// What asking for a page gives, where `key` says how the items are ordered: an
/// error for a cursor that is bound to another subject, and otherwise the page that
/// follows the cursor.
pub open spec fn page_by_key<T: Clone>(
    items: Seq<T>,
    subject: Seq<char>,
    cursor: Option<CursorView>,
    requested: usize,
    key: spec_fn(T) -> (u64, u64),
    res: Result<Page<T>, PaginationError>,
) -> bool {
    let start = page_start(items.map_values(key), position_of(cursor));
    let end = end_of(start, page_size_of(requested) as int, items.len() as int);
    if cursor is Some && cursor.unwrap().subject != subject {
        crate::pagination::cursor::scope_mismatch(cursor.unwrap(), subject, res)
    } else {
        &&& res matches Ok(page)
        &&& page.items@.len() == end - start
        &&& forall|i: int|
            0 <= i < page.items@.len() ==> cloned(items[start + i], #[trigger] page.items@[i])
        &&& page.total_count == items.len()
        &&& page.has_more == (end < items.len())
        &&& match page.next_cursor {
            Some(next) => end < items.len() && next@ == (CursorView {
                subject,
                timestamp: key(page.items@.last()).0,
                id: key(page.items@.last()).1,
            }),
            None => end == items.len(),
        }
    }
}

/// The position that page number `n` (counted from zero) is asked for with, where
/// each page is asked for with the cursor of the one before it.
pub open spec fn position_of_page(keys: Seq<(u64, u64)>, size: int, n: nat) -> Option<(u64, u64)>
    decreases n,
{
    if n == 0 {
        None
    } else {
        let start = page_start(keys, position_of_page(keys, size, (n - 1) as nat));
        Some(keys[end_of(start, size, keys.len() as int) - 1])
    }
}

/// The first smaller key is where no earlier one is smaller.
proof fn lemma_first_less(keys: Seq<(u64, u64)>, position: (u64, u64))
    ensures
        0 <= first_less(keys, position) <= keys.len(),
        forall|i: int|
            0 <= i < first_less(keys, position) ==> !key_less(#[trigger] keys[i], position),
        first_less(keys, position) < keys.len() ==> key_less(
            keys[first_less(keys, position)],
            position,
        ),
    decreases keys.len(),
{
    if keys.len() > 0 && !key_less(keys[0], position) {
        let rest = keys.skip(1);
        lemma_first_less(rest, position);
        assert forall|i: int| 0 <= i < first_less(keys, position) implies !key_less(
            #[trigger] keys[i],
            position,
        ) by {
            if i > 0 {
                assert(rest[i - 1] == keys[i]);
            }
        }
    }
}

/// A cursor cuts a descending collection in two: the items whose keys are less than
/// its position are those from the start of the page on, and no others.
pub proof fn law_cursor_splits(keys: Seq<(u64, u64)>, position: (u64, u64))
    requires
        descending(keys),
    ensures
        0 <= first_less(keys, position) <= keys.len(),
        forall|i: int|
            0 <= i < keys.len() ==> (key_less(#[trigger] keys[i], position) <==> first_less(
                keys,
                position,
            ) <= i),
{
    lemma_first_less(keys, position);
}

/// The page after a page begins where that page ended.
pub proof fn law_next_page_continues(
    keys: Seq<(u64, u64)>,
    position: Option<(u64, u64)>,
    size: int,
)
    requires
        descending(keys),
        size >= 1,
        end_of(page_start(keys, position), size, keys.len() as int) < keys.len(),
    ensures
        ({
            let end = end_of(page_start(keys, position), size, keys.len() as int);
            &&& page_start(keys, position) < end
            &&& page_start(keys, Some(keys[end - 1])) == end
        }),
{
    if let Some(p) = position {
        lemma_first_less(keys, p);
    }
    let end = end_of(page_start(keys, position), size, keys.len() as int);
    lemma_first_less(keys, keys[end - 1]);
    assert(key_less(keys[end], keys[end - 1]));
}

/// Following the cursors from page to page meets every item once and in order: page
/// number `n` holds the items from `n * size` on.
pub proof fn law_pages_cover_collection(keys: Seq<(u64, u64)>, size: int, n: nat)
    requires
        descending(keys),
        size >= 1,
        n > 0 ==> n * size < keys.len(),
    ensures
        page_start(keys, position_of_page(keys, size, n)) == n * size,
    decreases n,
{
    if n == 0 {
        assert(n * size == 0) by (nonlinear_arith)
            requires
                n == 0,
        ;
    } else {
        let m = (n - 1) as nat;
        assert(n * size == m * size + size) by (nonlinear_arith)
            requires
                n == m + 1,
        ;
        assert(m * size >= 0) by (nonlinear_arith)
            requires
                size >= 1,
        ;
        law_pages_cover_collection(keys, size, m);
        law_next_page_continues(keys, position_of_page(keys, size, m), size);
    }
}

/// A cursor stands at the same place whatever arrives in the meantime: an item that
/// arrives before it leaves the items that follow it as they were, and an item that
/// arrives after it leaves the items that precede it as they were.
pub proof fn law_cursor_survives_insert(
    keys: Seq<(u64, u64)>,
    position: (u64, u64),
    i: int,
    key: (u64, u64),
)
    requires
        0 <= i <= keys.len(),
        descending(keys.insert(i, key)),
    ensures
        !key_less(key, position) ==> keys.insert(i, key).skip(
            first_less(keys.insert(i, key), position),
        ) == keys.skip(first_less(keys, position)),
        key_less(key, position) ==> keys.insert(i, key).take(
            first_less(keys.insert(i, key), position),
        ) == keys.take(first_less(keys, position)),
{
    let grown = keys.insert(i, key);
    assert forall|a: int, b: int| 0 <= a < b < keys.len() implies key_less(
        #[trigger] keys[b],
        #[trigger] keys[a],
    ) by {
        let a2 = if a < i {
            a
        } else {
            a + 1
        };
        let b2 = if b < i {
            b
        } else {
            b + 1
        };
        assert(grown[a2] == keys[a]);
        assert(grown[b2] == keys[b]);
    }
    law_cursor_splits(keys, position);
    law_cursor_splits(grown, position);
    let old_start = first_less(keys, position);
    let new_start = first_less(grown, position);
    assert(grown[i] == key);
    assert forall|a: int| 0 <= a < keys.len() implies #[trigger] keys[a] == grown[if a < i {
        a
    } else {
        a + 1
    }] by {}
    if key_less(key, position) {
        assert(new_start <= i);
        if old_start < new_start {
            assert(grown[old_start] == keys[old_start]);
        }
        if new_start < old_start {
            assert(keys[new_start] == grown[if new_start < i {
                new_start
            } else {
                new_start + 1
            }]);
        }
        assert(new_start == old_start);
        assert(grown.take(new_start) == keys.take(old_start));
    } else {
        assert(i < new_start);
        if old_start + 1 < new_start {
            assert(grown[if old_start < i {
                old_start
            } else {
                old_start + 1
            }] == keys[old_start]);
        }
        if new_start < old_start + 1 {
            assert(keys[new_start - 1] == grown[new_start]);
        }
        assert(new_start == old_start + 1);
        assert(grown.skip(new_start) == keys.skip(old_start));
    }
}

/// Where the sort key is a function, that function says which page comes.
pub proof fn law_page_follows_key<T: Clone, F: Fn(&T) -> (u64, u64)>(
    items: Seq<T>,
    subject: Seq<char>,
    cursor: Option<CursorView>,
    requested: usize,
    sort_key: F,
    key: spec_fn(T) -> (u64, u64),
    res: Result<Page<T>, PaginationError>,
)
    requires
        computes_key(sort_key, key),
        page_computed(items, subject, cursor, requested, sort_key, res),
    ensures
        page_by_key(items, subject, cursor, requested, key, res),
{
    if let Ok(page) = res {
        let start = choose|start: int| #[trigger]
            starts_at(items, cursor, sort_key, start) && page_from(
                items,
                subject,
                requested,
                sort_key,
                start,
                page,
            );
        if let Some(c) = cursor {
            let keys = items.map_values(key);
            lemma_first_less(keys, c.position());
            let first = first_less(keys, c.position());
            if first < start {
                assert(compares(sort_key, items[first], c.position(), false));
                assert(keys[first] == key(items[first]));
            }
            if start < first {
                assert(compares(sort_key, items[start], c.position(), true));
                assert(keys[start] == key(items[start]));
            }
        }
        assert(start == page_start(items.map_values(key), position_of(cursor)));
    }
}

/// A page holds at most the allowed number of items.  It has a cursor exactly where
/// more items follow, and is then full.  A collection without items gives an empty
/// page.
pub proof fn law_page_shape<T: Clone>(
    items: Seq<T>,
    subject: Seq<char>,
    cursor: Option<CursorView>,
    requested: usize,
    key: spec_fn(T) -> (u64, u64),
    page: Page<T>,
)
    requires
        page_by_key(items, subject, cursor, requested, key, Ok(page)),
    ensures
        page.items@.len() <= page_size_of(requested) <= MAX_PAGE_SIZE,
        page.has_more <==> page.next_cursor is Some,
        page.has_more ==> page.items@.len() == page_size_of(requested),
        page.total_count == items.len(),
        items.len() == 0 ==> page.items@.len() == 0 && !page.has_more && page.next_cursor is None,
{
    if let Some(c) = cursor {
        lemma_first_less(items.map_values(key), c.position());
    }
}

/// A cursor that a page for one subject hands out is refused for every other
/// subject.
pub proof fn law_cursor_is_bound_to_subject<T: Clone, U: Clone>(
    items: Seq<T>,
    subject: Seq<char>,
    cursor: Option<CursorView>,
    requested: usize,
    key: spec_fn(T) -> (u64, u64),
    page: Page<T>,
    other_items: Seq<U>,
    other: Seq<char>,
    other_requested: usize,
    other_key: spec_fn(U) -> (u64, u64),
    res: Result<Page<U>, PaginationError>,
)
    requires
        page_by_key(items, subject, cursor, requested, key, Ok(page)),
        page.next_cursor is Some,
        other != subject,
        page_by_key(
            other_items,
            other,
            Some(page.next_cursor.unwrap()@),
            other_requested,
            other_key,
            res,
        ),
    ensures
        res matches Err(PaginationError::CursorScopeMismatch { expected, actual }) && expected@
            == other && actual@ == subject,
{
}

/// Asking for the same page twice gives the same items, the same count and the same
/// cursor.
pub proof fn law_requery_is_idempotent<T: Clone>(
    items: Seq<T>,
    subject: Seq<char>,
    cursor: Option<CursorView>,
    requested: usize,
    key: spec_fn(T) -> (u64, u64),
    first: Page<T>,
    second: Page<T>,
)
    requires
        clones_faithfully::<T>(),
        page_by_key(items, subject, cursor, requested, key, Ok(first)),
        page_by_key(items, subject, cursor, requested, key, Ok(second)),
    ensures
        first.items@ == second.items@,
        first.total_count == second.total_count,
        first.has_more == second.has_more,
        first.next_cursor is Some <==> second.next_cursor is Some,
        first.next_cursor is Some ==> first.next_cursor.unwrap()@ == second.next_cursor.unwrap()@,
{
    let start = page_start(items.map_values(key), position_of(cursor));
    assert forall|i: int| 0 <= i < first.items@.len() implies first.items@[i]
        == second.items@[i] by {
        assert(cloned(items[start + i], first.items@[i]));
        assert(cloned(items[start + i], second.items@[i]));
    }
    assert(first.items@ == second.items@);
}

/// Asking with the cursor of a page gives the items that follow those of the page.
pub proof fn law_next_cursor_resumes<T: Clone>(
    items: Seq<T>,
    subject: Seq<char>,
    cursor: Option<CursorView>,
    requested: usize,
    next_requested: usize,
    key: spec_fn(T) -> (u64, u64),
    page: Page<T>,
    next_res: Result<Page<T>, PaginationError>,
)
    requires
        clones_faithfully::<T>(),
        descending(items.map_values(key)),
        page_by_key(items, subject, cursor, requested, key, Ok(page)),
        page.next_cursor is Some,
        page_by_key(
            items,
            subject,
            Some(page.next_cursor.unwrap()@),
            next_requested,
            key,
            next_res,
        ),
    ensures
        ({
            let start = page_start(items.map_values(key), position_of(cursor));
            let end = start + page.items@.len();
            let next_end = end_of(end, page_size_of(next_requested) as int, items.len() as int);
            &&& 0 <= start < end < next_end
            &&& page.items@ == items.subrange(start, end)
            &&& next_res matches Ok(next_page) && next_page.items@ == items.subrange(end, next_end)
        }),
{
    let keys = items.map_values(key);
    let start = page_start(keys, position_of(cursor));
    let end = end_of(start, page_size_of(requested) as int, keys.len() as int);
    let next_end = end_of(end, page_size_of(next_requested) as int, keys.len() as int);
    let next = page.next_cursor.unwrap()@;
    if let Some(c) = cursor {
        lemma_first_less(keys, c.position());
    }
    law_next_page_continues(keys, position_of(cursor), page_size_of(requested) as int);
    assert forall|i: int| 0 <= i < page.items@.len() implies page.items@[i] == items[start
        + i] by {
        assert(cloned(items[start + i], page.items@[i]));
    }
    assert(page.items@ == items.subrange(start, end));
    assert(keys[end - 1] == key(items[end - 1]));
    assert(next.position() == keys[end - 1]);
    let next_page = next_res.unwrap();
    assert forall|i: int| 0 <= i < next_page.items@.len() implies next_page.items@[i] == items[end
        + i] by {
        assert(cloned(items[end + i], next_page.items@[i]));
    }
    assert(next_page.items@ == items.subrange(end, next_end));
}

/// Of two keys the one with the smaller timestamp is less, whatever the ids; where the
/// timestamps are equal, the one with the smaller id is.
pub proof fn law_key_order(a: (u64, u64), b: (u64, u64))
    ensures
        a.0 < b.0 ==> key_less(a, b) && !key_less(b, a),
        a.0 == b.0 && a.1 < b.1 ==> key_less(a, b) && !key_less(b, a),
        !key_less(a, a),
{
}

/// A page holds as many items as were asked for, but twenty where none were, and never
/// more than a hundred.
pub proof fn law_page_size(requested: usize)
    ensures
        1 <= requested <= 100 ==> page_size_of(requested) == requested,
        requested == 0 ==> page_size_of(requested) == 20,
        requested > 100 ==> page_size_of(requested) == 100,
{
}

/// Asking for a page fails exactly where there is a cursor that is bound to another
/// subject, and the error names both.
pub proof fn law_page_answer<T: Clone>(
    items: Seq<T>,
    subject: Seq<char>,
    cursor: Option<CursorView>,
    requested: usize,
    key: spec_fn(T) -> (u64, u64),
    res: Result<Page<T>, PaginationError>,
)
    requires
        page_by_key(items, subject, cursor, requested, key, res),
    ensures
        res is Err <==> cursor is Some && cursor->0.subject != subject,
        res is Err ==> (res matches Err(PaginationError::CursorScopeMismatch { expected, actual })
            && expected@ == subject && actual@ == cursor->0.subject),
{
}

/// What a page of a collection holds that is sorted newest first.
///
/// Every item on the page comes after the cursor: its timestamp is smaller, or equal
/// with a smaller id.  Every item that comes after the cursor is on the page, or the page
/// is full and the item comes after all of it.  The items keep their order.  There is a
/// cursor for the next page exactly where an item is left; it stands at the last item of
/// the page and is bound to the subject.
pub proof fn law_page_follows_cursor<T: Clone>(
    items: Seq<T>,
    subject: Seq<char>,
    cursor: Option<CursorView>,
    requested: usize,
    key: spec_fn(T) -> (u64, u64),
    page: Page<T>,
)
    requires
        forall|a: T, b: T| #[trigger] cloned(a, b) ==> a == b,
        forall|i: int, j: int|
            0 <= i < j < items.len() ==> key(#[trigger] items[j]).0 < key(#[trigger] items[i]).0 || (
            key(items[j]).0 == key(items[i]).0 && key(items[j]).1 < key(items[i]).1),
        page_by_key(items, subject, cursor, requested, key, Ok(page)),
    ensures
        forall|k: int|
            0 <= k < page.items@.len() ==> items.contains(#[trigger] page.items@[k]) && (
            cursor matches Some(c) ==> key(page.items@[k]).0 < c.timestamp || (key(
                page.items@[k],
            ).0 == c.timestamp && key(page.items@[k]).1 < c.id)),
        forall|i: int|
            0 <= i < items.len() && (cursor matches Some(c) ==> key(#[trigger] items[i]).0
                < c.timestamp || (key(items[i]).0 == c.timestamp && key(items[i]).1 < c.id))
                ==> page.items@.contains(items[i]) || (page.has_more && (key(items[i]).0 < key(
                page.items@.last(),
            ).0 || (key(items[i]).0 == key(page.items@.last()).0 && key(items[i]).1 < key(
                page.items@.last(),
            ).1))),
        forall|k: int, l: int|
            0 <= k < l < page.items@.len() ==> key(#[trigger] page.items@[l]).0 < key(
                #[trigger] page.items@[k],
            ).0 || (key(page.items@[l]).0 == key(page.items@[k]).0 && key(page.items@[l]).1 < key(
                page.items@[k],
            ).1),
        page.total_count == items.len(),
        page.items@.len() <= (if requested == 0 {
            20
        } else if requested > 100 {
            100
        } else {
            requested as int
        }),
        page.has_more ==> page.items@.len() == (if requested == 0 {
            20
        } else if requested > 100 {
            100
        } else {
            requested as int
        }),
        page.has_more <==> exists|i: int|
            0 <= i < items.len() && (cursor matches Some(c) ==> key(#[trigger] items[i]).0
                < c.timestamp || (key(items[i]).0 == c.timestamp && key(items[i]).1 < c.id))
                && !page.items@.contains(items[i]),
        page.next_cursor is Some <==> page.has_more,
        page.next_cursor matches Some(next) ==> next.subject@ == subject && next.timestamp == key(
            page.items@.last(),
        ).0 && next.id == key(page.items@.last()).1,
{
    let keys = items.map_values(key);
    let n = items.len() as int;
    let start = page_start(keys, position_of(cursor));
    let end = end_of(start, page_size_of(requested) as int, n);
    assert forall|i: int, j: int| 0 <= i < j < keys.len() implies key_less(
        #[trigger] keys[j],
        #[trigger] keys[i],
    ) by {
        assert(keys[i] == key(items[i]));
        assert(keys[j] == key(items[j]));
    }
    if let Some(c) = cursor {
        law_cursor_splits(keys, c.position());
    }
    assert forall|i: int| 0 <= i < n implies (start <= i <==> (cursor matches Some(c) ==> key(
        #[trigger] items[i],
    ).0 < c.timestamp || (key(items[i]).0 == c.timestamp && key(items[i]).1 < c.id))) by {
        assert(keys[i] == key(items[i]));
        if let Some(c) = cursor {
            assert(key_less(keys[i], c.position()) <==> start <= i);
        }
    }
    assert forall|k: int| 0 <= k < page.items@.len() implies #[trigger] page.items@[k] == items[start
        + k] by {
        assert(cloned(items[start + k], page.items@[k]));
    }
    assert(page.items@.len() == end - start);
    assert forall|i: int| start <= i < end implies page.items@.contains(#[trigger] items[i]) by {
        assert(page.items@[i - start] == items[i]);
    }
    assert forall|i: int| end <= i < n implies !page.items@.contains(#[trigger] items[i]) by {
        if page.items@.contains(items[i]) {
            let k = choose|k: int| 0 <= k < page.items@.len() && page.items@[k] == items[i];
            assert(items[start + k] == items[i]);
        }
    }
    if end < n {
        assert(page.items@[page.items@.len() - 1] == items[end - 1]);
        assert(!page.items@.contains(items[end]));
        assert(start <= end);
    }
}

/// A page is a run of the collection, whatever the order of the items: it begins at the
/// first item that is less than the cursor, or at the first item of all where there is no
/// cursor, and goes on to the size of a page or the end.
pub proof fn law_page_is_a_run<T: Clone>(
    items: Seq<T>,
    subject: Seq<char>,
    cursor: Option<CursorView>,
    requested: usize,
    key: spec_fn(T) -> (u64, u64),
    page: Page<T>,
)
    requires
        page_by_key(items, subject, cursor, requested, key, Ok(page)),
    ensures
        exists|start: int|
            {
                let size: int = if requested == 0 {
                    20
                } else if requested > 100 {
                    100
                } else {
                    requested as int
                };
                let len = page.items@.len() as int;
                let rest = #[trigger] items.skip(start);
                &&& 0 <= start <= items.len()
                &&& cursor is None ==> start == 0
                &&& cursor matches Some(c) ==> forall|i: int|
                    0 <= i < start ==> c.timestamp < key(#[trigger] items[i]).0 || (c.timestamp
                        == key(items[i]).0 && c.id <= key(items[i]).1)
                &&& cursor matches Some(c) ==> start < items.len() ==> key(items[start]).0
                    < c.timestamp || (key(items[start]).0 == c.timestamp && key(items[start]).1
                    < c.id)
                &&& len <= size && start + len <= items.len()
                &&& len < size ==> start + len == items.len()
                &&& page.has_more <==> start + len < items.len()
                &&& forall|k: int|
                    0 <= k < len ==> cloned(rest[k], #[trigger] page.items@[k])
            },
{
    let keys = items.map_values(key);
    let start = page_start(keys, position_of(cursor));
    if let Some(c) = cursor {
        lemma_first_less(keys, c.position());
        assert forall|i: int| 0 <= i < start implies c.timestamp < key(#[trigger] items[i]).0 || (
        c.timestamp == key(items[i]).0 && c.id <= key(items[i]).1) by {
            assert(keys[i] == key(items[i]));
            assert(!key_less(keys[i], c.position()));
        }
        if start < items.len() {
            assert(keys[start] == key(items[start]));
        }
    }
    let rest = items.skip(start);
    assert forall|k: int| 0 <= k < page.items@.len() implies cloned(
        rest[k],
        #[trigger] page.items@[k],
    ) by {
        assert(rest[k] == items[start + k]);
    }
}

} // verus!
