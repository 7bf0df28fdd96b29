use crate::packet::tokens_view;
use crate::text::{bytes_eq, copy_bytes};
use vstd::prelude::*;

verus! {

/// Key/value pairs as byte strings.
pub open spec fn pairs_view(items: Vec<(Vec<u8>, Vec<u8>)>) -> Seq<(Seq<u8>, Seq<u8>)> {
    items@.map_values(|p: (Vec<u8>, Vec<u8>)| (p.0@, p.1@))
}

/// Pairs written as one list: key, value, key, value, ...
pub open spec fn flatten(ps: Seq<(Seq<u8>, Seq<u8>)>) -> Seq<Seq<u8>> {
    Seq::new(2 * ps.len(), |i: int| if i % 2 == 0 { ps[i / 2].0 } else { ps[i / 2].1 })
}

/// How many pairs to pull from the store for one page: one more than the page
/// where the boundary key is excluded, so that dropping it still fills the page.
pub open spec fn fetch_limit(page_size: u16, exclusive: bool) -> nat {
    if exclusive {
        page_size as nat + 1
    } else {
        page_size as nat
    }
}

/// The page that the pulled pairs give: where the boundary is excluded, the
/// first pair is dropped when its key is exactly `key` (and only then); then
/// at most `page_size` pairs are kept, in the order they came.
pub open spec fn page_spec(
    items: Seq<(Seq<u8>, Seq<u8>)>,
    key: Seq<u8>,
    page_size: u16,
    exclusive: bool,
) -> Seq<(Seq<u8>, Seq<u8>)> {
    let rest = if exclusive && items.len() > 0 && items[0].0 == key {
        items.drop_first()
    } else {
        items
    };
    if rest.len() <= page_size {
        rest
    } else {
        rest.take(page_size as int)
    }
}

/// A forward scan of a store that holds `store` (its pairs in key order) from
/// the key at index `i`, pulling at most `limit` pairs.
pub open spec fn scan_from(store: Seq<(Seq<u8>, Seq<u8>)>, i: int, limit: nat) -> Seq<
    (Seq<u8>, Seq<u8>),
> {
    if i + limit <= store.len() {
        store.subrange(i, i + limit)
    } else {
        store.subrange(i, store.len() as int)
    }
}

/// The pairs that exclusive pages of `page_size` return one after the other,
/// each asked from the last key of the one before, starting after the key at
/// index `i`, until a page comes back empty.
pub open spec fn pages_after(store: Seq<(Seq<u8>, Seq<u8>)>, i: int, page_size: u16) -> Seq<
    (Seq<u8>, Seq<u8>),
>
    decreases store.len() - i,
{
    if 0 <= i < store.len() {
        let page = page_spec(
            scan_from(store, i, fetch_limit(page_size, true)),
            store[i].0,
            page_size,
            true,
        );
        if page.len() == 0 {
            page
        } else {
            page + pages_after(store, i + page.len(), page_size)
        }
    } else {
        seq![]
    }
}

/// What a client that pages through a store sees: a first page from the
/// beginning, then exclusive pages from the last key it received.
pub open spec fn paginate(store: Seq<(Seq<u8>, Seq<u8>)>, page_size: u16) -> Seq<
    (Seq<u8>, Seq<u8>),
> {
    let first = page_spec(scan_from(store, 0, fetch_limit(page_size, false)), seq![], page_size, false);
    if first.len() == 0 {
        first
    } else {
        first + pages_after(store, first.len() - 1, page_size)
    }
}

proof fn lemma_pages_after(store: Seq<(Seq<u8>, Seq<u8>)>, i: int, page_size: u16)
    requires
        page_size >= 1,
        0 <= i < store.len(),
    ensures
        pages_after(store, i, page_size) == store.subrange(i + 1, store.len() as int),
    decreases store.len() - i,
{
    let scan = scan_from(store, i, fetch_limit(page_size, true));
    let page = page_spec(scan, store[i].0, page_size, true);
    let end = if i + 1 + page_size <= store.len() {
        i + 1 + page_size
    } else {
        store.len() as int
    };
    assert(scan[0] == store[i]);
    assert(page =~= store.subrange(i + 1, end));
    if page.len() != 0 {
        if i + page.len() < store.len() {
            lemma_pages_after(store, i + page.len(), page_size);
            assert(page + pages_after(store, i + page.len(), page_size) =~= store.subrange(
                i + 1,
                store.len() as int,
            ));
        } else {
            assert(pages_after(store, i + page.len(), page_size) =~= seq![]);
            assert(page + pages_after(store, i + page.len(), page_size) =~= store.subrange(
                i + 1,
                store.len() as int,
            ));
        }
    }
}

/// Paging through a store with pages of at least one pair, first from the
/// beginning, then each time exclusively from the last key received, returns
/// every pair of the store exactly once, in key order. The store's keys are
/// distinct, and each exclusive page starts at the key it was asked from,
/// which the store still holds.
pub proof fn lemma_pagination_visits_each_once(
    store: Seq<(Seq<u8>, Seq<u8>)>,
    page_size: u16,
)
    requires
        page_size >= 1,
        forall|a: int, b: int| 0 <= a < b < store.len() ==> store[a].0 != store[b].0,
    ensures
        paginate(store, page_size) == store,
{
    let first = page_spec(scan_from(store, 0, fetch_limit(page_size, false)), seq![], page_size, false);
    if store.len() == 0 {
        assert(first =~= store);
    } else {
        let end = if page_size <= store.len() {
            page_size as int
        } else {
            store.len() as int
        };
        assert(first =~= store.subrange(0, end));
        lemma_pages_after(store, first.len() - 1, page_size);
        assert(first + pages_after(store, first.len() - 1, page_size) =~= store);
    }
}

/// The page of a range request, from the pairs pulled from the store in the
/// request's direction, written as one list of tokens.
pub fn range_page(
    items: &Vec<(Vec<u8>, Vec<u8>)>,
    key: &[u8],
    page_size: u16,
    exclusive: bool,
) -> (r: Vec<Vec<u8>>)
    ensures
        tokens_view(r) == flatten(page_spec(pairs_view(*items), key@, page_size, exclusive)),
{
    let ghost pv = pairs_view(*items);
    let skip = exclusive && items.len() > 0 && bytes_eq(items[0].0.as_slice(), key);
    let start: usize = if skip {
        1
    } else {
        0
    };
    let end: usize = if items.len() - start <= page_size as usize {
        items.len()
    } else {
        start + page_size as usize
    };
    let ghost page = page_spec(pv, key@, page_size, exclusive);
    assert(page =~= pv.subrange(start as int, end as int));
    let mut r: Vec<Vec<u8>> = Vec::new();
    let mut i: usize = start;
    while i < end
        invariant
            start <= i <= end <= items@.len(),
            pv == pairs_view(*items),
            page == pv.subrange(start as int, end as int),
            tokens_view(r) == flatten(pv.subrange(start as int, i as int)),
        decreases end - i,
    {
        let k = copy_bytes(items[i].0.as_slice());
        let v = copy_bytes(items[i].1.as_slice());
        let ghost before = tokens_view(r);
        r.push(k);
        r.push(v);
        i += 1;
        assert(tokens_view(r) =~= flatten(pv.subrange(start as int, i as int)))
            by {
            let f = flatten(pv.subrange(start as int, i as int));
            assert(f.len() == before.len() + 2);
            assert forall|j: int| 0 <= j < f.len() implies #[trigger] tokens_view(r)[j] == f[j] by {
                if j < before.len() {
                    assert(before[j] == flatten(pv.subrange(start as int, i - 1))[j]);
                }
            }
        }
    }
    r
}

} // verus!
