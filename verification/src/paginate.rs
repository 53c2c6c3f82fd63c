//! The paginated query client: one query, asked page by page through the
//! cache until the remote API names no further cursor.

use crate::cache::{CacheKey, CachedPage, Graphql};
use crate::error::Failure;
use crate::text::text_of;
use vstd::prelude::*;
use vstd::string::*;

verus! {

/// What is sent along with a query. The cursor is absent for the first page.
#[derive(Debug)]
pub struct QueryVariables {
    pub organisation: String,
    pub repository: String,
    /// The length of the trailing window, in seconds.
    pub window_seconds: i64,
    pub cursor: Option<String>,
}

impl View for QueryVariables {
    type V = (Seq<char>, Seq<char>, i64, Option<Seq<char>>);

    open spec fn view(&self) -> (Seq<char>, Seq<char>, i64, Option<Seq<char>>) {
        (self.organisation@, self.repository@, self.window_seconds, text_of(self.cursor))
    }
}

impl Clone for QueryVariables {
    fn clone(&self) -> (copy: Self)
        ensures
            copy == *self,
    {
        QueryVariables {
            organisation: self.organisation.clone(),
            repository: self.repository.clone(),
            window_seconds: self.window_seconds,
            cursor: match &self.cursor {
                Some(c) => Some(c.clone()),
                None => None,
            },
        }
    }
}

/// One decoded page: its items, and the cursor of the page after it.
#[derive(Debug)]
pub struct Page<T> {
    pub items: Vec<T>,
    pub next_cursor: Option<String>,
}

/// The variables `base` with the cursor replaced.
pub open spec fn at_cursor(
    base: (Seq<char>, Seq<char>, i64, Option<Seq<char>>),
    cursor: Option<Seq<char>>,
) -> (Seq<char>, Seq<char>, i64, Option<Seq<char>>) {
    (base.0, base.1, base.2, cursor)
}

/// How one page comes about. In replay mode the stored page is decoded, the
/// cache stays as it is, and a page that is not stored is a `CacheMiss`. In
/// live mode `fetch` is asked for the page `key` with `variables`; its answer
/// is stored and decoded, its failure handed on. `decode` is given the key and
/// the page, and its result is the result for the page.
pub open spec fn page_result<T, F, D>(
    before: Map<(Seq<char>, u64), (Seq<char>, Option<Seq<char>>)>,
    after: Map<(Seq<char>, u64), (Seq<char>, Option<Seq<char>>)>,
    replay: bool,
    fetch: F,
    decode: D,
    key: (Seq<char>, u64),
    variables: (Seq<char>, Seq<char>, i64, Option<Seq<char>>),
    result: Result<Page<T>, Failure>,
) -> bool where
    F: Fn(&CacheKey, &QueryVariables) -> Result<CachedPage, Failure>,
    D: Fn(&CacheKey, &CachedPage) -> Result<Page<T>, Failure>,
 {
    if replay {
        &&& after == before
        &&& if before.dom().contains(key) {
            exists|k: CacheKey, cached: CachedPage|
                k@ == key && cached@ == before[key] && #[trigger] call_ensures(
                    decode,
                    (&k, &cached),
                    result,
                )
        } else {
            result matches Err(Failure::CacheMiss(k)) && k@ == key
        }
    } else {
        exists|k: CacheKey, v: QueryVariables, fetched: Result<CachedPage, Failure>|
            {
                &&& k@ == key
                &&& v@ == variables
                &&& #[trigger] call_ensures(fetch, (&k, &v), fetched)
                &&& match fetched {
                    Ok(cached) => after == before.insert(key, cached@) && call_ensures(
                        decode,
                        (&k, &cached),
                        result,
                    ),
                    Err(e) => after == before && result == Err::<Page<T>, Failure>(e),
                }
            }
    }
}

/// Gets and decodes the page `key` of a query.
pub fn fetch_page<T, F, D>(
    graphql: &mut Graphql,
    key: &CacheKey,
    variables: &QueryVariables,
    fetch: &F,
    decode: &D,
) -> (result: Result<Page<T>, Failure>) where
    F: Fn(&CacheKey, &QueryVariables) -> Result<CachedPage, Failure>,
    D: Fn(&CacheKey, &CachedPage) -> Result<Page<T>, Failure>,

    requires
        !old(graphql).replay() ==> forall|k: &CacheKey, v: &QueryVariables|
            call_requires(*fetch, (k, v)),
        forall|k: &CacheKey, c: &CachedPage| call_requires(*decode, (k, c)),
    ensures
        final(graphql).replay() == old(graphql).replay(),
        final(graphql).dir() == old(graphql).dir(),
        page_result(
            old(graphql)@,
            final(graphql)@,
            old(graphql).replay(),
            *fetch,
            *decode,
            key@,
            variables@,
            result,
        ),
{
    let live = || -> (fetched: Result<CachedPage, Failure>)
        requires
            call_requires(*fetch, (key, variables)),
        ensures
            call_ensures(*fetch, (key, variables), fetched),
        { fetch(key, variables) };
    match graphql.fetch_or_replay(key, live) {
        Ok(cached) => {
            let result = decode(key, &cached);
            proof {
                if !old(graphql).replay() {
                    assert(call_ensures(
                        *fetch,
                        (key, variables),
                        Ok::<CachedPage, Failure>(cached),
                    ));
                }
            }
            result
        },
        Err(e) => {
            proof {
                if !old(graphql).replay() {
                    assert(call_ensures(*fetch, (key, variables), Err::<CachedPage, Failure>(e)));
                }
            }
            Err(e)
        },
    }
}

/// The items of some pages, one page after the other.
pub open spec fn page_items<T>(pages: Seq<Page<T>>) -> Seq<T>
    decreases pages.len(),
{
    if pages.len() == 0 {
        Seq::empty()
    } else {
        page_items(pages.drop_last()) + pages.last().items@
    }
}

/// The cursor that is sent for the page `i`: none for the first page, else the
/// one that the page before named.
pub open spec fn cursor_for<T>(pages: Seq<Page<T>>, i: int) -> Option<Seq<char>> {
    if i <= 0 {
        None
    } else {
        text_of(pages[i - 1].next_cursor)
    }
}

/// Whether the page `i` of a run came about as `page_result` says, from the
/// cache as the page before left it.
pub open spec fn step_ok<T, F, D>(
    stores: Seq<Map<(Seq<char>, u64), (Seq<char>, Option<Seq<char>>)>>,
    pages: Seq<Page<T>>,
    replay: bool,
    fetch: F,
    decode: D,
    query_name: Seq<char>,
    base: (Seq<char>, Seq<char>, i64, Option<Seq<char>>),
    i: int,
) -> bool where
    F: Fn(&CacheKey, &QueryVariables) -> Result<CachedPage, Failure>,
    D: Fn(&CacheKey, &CachedPage) -> Result<Page<T>, Failure>,
 {
    page_result(
        stores[i],
        stores[i + 1],
        replay,
        fetch,
        decode,
        (query_name, i as u64),
        at_cursor(base, cursor_for(pages, i)),
        Ok::<Page<T>, Failure>(pages[i]),
    )
}

/// Whether `pages` are the first pages of a run of the query `query_name`:
/// page `i` was asked for under the index `i` with the cursor that page `i - 1`
/// named, each page but the last names a cursor, and `stores` are the states
/// of the cache before and after each page.
pub open spec fn run_ok<T, F, D>(
    stores: Seq<Map<(Seq<char>, u64), (Seq<char>, Option<Seq<char>>)>>,
    pages: Seq<Page<T>>,
    replay: bool,
    fetch: F,
    decode: D,
    query_name: Seq<char>,
    base: (Seq<char>, Seq<char>, i64, Option<Seq<char>>),
) -> bool where
    F: Fn(&CacheKey, &QueryVariables) -> Result<CachedPage, Failure>,
    D: Fn(&CacheKey, &CachedPage) -> Result<Page<T>, Failure>,
 {
    &&& stores.len() == pages.len() + 1
    &&& pages.len() <= u64::MAX + 1
    &&& forall|i: int|
        0 <= i < pages.len() ==> #[trigger] step_ok(
            stores,
            pages,
            replay,
            fetch,
            decode,
            query_name,
            base,
            i,
        )
    &&& forall|i: int| 0 <= i < pages.len() - 1 ==> (#[trigger] pages[i]).next_cursor is Some
}

/// How a run ends. It succeeds with the items of all its pages when the last
/// page names no cursor. It fails with the failure of the first page that
/// fails; and with `DecodeError` where the page of the highest index there is
/// still names a cursor.
pub open spec fn run_ends<T, F, D>(
    stores: Seq<Map<(Seq<char>, u64), (Seq<char>, Option<Seq<char>>)>>,
    pages: Seq<Page<T>>,
    after: Map<(Seq<char>, u64), (Seq<char>, Option<Seq<char>>)>,
    replay: bool,
    fetch: F,
    decode: D,
    query_name: Seq<char>,
    base: (Seq<char>, Seq<char>, i64, Option<Seq<char>>),
    result: Result<Vec<T>, Failure>,
) -> bool where
    F: Fn(&CacheKey, &QueryVariables) -> Result<CachedPage, Failure>,
    D: Fn(&CacheKey, &CachedPage) -> Result<Page<T>, Failure>,
 {
    match result {
        Ok(items) => {
            &&& pages.len() > 0
            &&& pages.last().next_cursor is None
            &&& after == stores.last()
            &&& items@ == page_items(pages)
        },
        Err(e) => {
            &&& pages.len() > 0 ==> pages.last().next_cursor is Some
            &&& if pages.len() <= u64::MAX {
                page_result(
                    stores.last(),
                    after,
                    replay,
                    fetch,
                    decode,
                    (query_name, pages.len() as u64),
                    at_cursor(base, cursor_for(pages, pages.len() as int)),
                    Err::<Page<T>, Failure>(e),
                )
            } else {
                &&& after == stores.last()
                &&& e matches Failure::DecodeError(k)
                &&& k@ == (query_name, u64::MAX)
            }
        },
    }
}

/// What `paginate` does: there is a run of pages, starting from the cache
/// `before`, that ends in `result` and leaves the cache as `after`.
pub open spec fn paginate_result<T, F, D>(
    before: Map<(Seq<char>, u64), (Seq<char>, Option<Seq<char>>)>,
    after: Map<(Seq<char>, u64), (Seq<char>, Option<Seq<char>>)>,
    replay: bool,
    fetch: F,
    decode: D,
    query_name: Seq<char>,
    base: (Seq<char>, Seq<char>, i64, Option<Seq<char>>),
    result: Result<Vec<T>, Failure>,
) -> bool where
    F: Fn(&CacheKey, &QueryVariables) -> Result<CachedPage, Failure>,
    D: Fn(&CacheKey, &CachedPage) -> Result<Page<T>, Failure>,
 {
    exists|
        stores: Seq<Map<(Seq<char>, u64), (Seq<char>, Option<Seq<char>>)>>,
        pages: Seq<Page<T>>,
    |
        {
            &&& #[trigger] run_ok(stores, pages, replay, fetch, decode, query_name, base)
            &&& stores[0] == before
            &&& run_ends(stores, pages, after, replay, fetch, decode, query_name, base, result)
        }
}

/// Asks for the pages of the query `query_name` one after the other, each
/// through the cache under its index and with the cursor that the page before
/// named, until a page names no cursor; returns the items of all pages in
/// order. The first page is asked for without a cursor, whatever `variables`
/// holds. The first failure ends the run and is returned.
pub fn paginate<T, F, D>(
    graphql: &mut Graphql,
    query_name: &str,
    variables: QueryVariables,
    fetch: &F,
    decode: &D,
) -> (result: Result<Vec<T>, Failure>) where
    F: Fn(&CacheKey, &QueryVariables) -> Result<CachedPage, Failure>,
    D: Fn(&CacheKey, &CachedPage) -> Result<Page<T>, Failure>,

    requires
        !old(graphql).replay() ==> forall|k: &CacheKey, v: &QueryVariables|
            call_requires(*fetch, (k, v)),
        forall|k: &CacheKey, c: &CachedPage| call_requires(*decode, (k, c)),
    ensures
        final(graphql).replay() == old(graphql).replay(),
        final(graphql).dir() == old(graphql).dir(),
        paginate_result(
            old(graphql)@,
            final(graphql)@,
            old(graphql).replay(),
            *fetch,
            *decode,
            query_name@,
            variables@,
            result,
        ),
{
    let ghost base = variables@;
    let ghost replay = graphql.replay();
    let mut current = variables;
    current.cursor = None;
    let mut items: Vec<T> = Vec::new();
    let mut index: u64 = 0;
    let ghost mut stores = seq![graphql@];
    let ghost mut pages = Seq::<Page<T>>::empty();
    loop
        invariant
            base == variables@,
            graphql.replay() == replay,
            replay == old(graphql).replay(),
            graphql.dir() == old(graphql).dir(),
            !replay ==> forall|k: &CacheKey, v: &QueryVariables| call_requires(*fetch, (k, v)),
            forall|k: &CacheKey, c: &CachedPage| call_requires(*decode, (k, c)),
            run_ok(stores, pages, replay, *fetch, *decode, query_name@, base),
            stores[0] == old(graphql)@,
            stores.last() == graphql@,
            index == pages.len(),
            items@ == page_items(pages),
            pages.len() > 0 ==> pages.last().next_cursor is Some,
            current@ == at_cursor(base, cursor_for(pages, index as int)),
        decreases u64::MAX - index,
    {
        let key = CacheKey::new(query_name, index);
        let ghost before = graphql@;
        match fetch_page(graphql, &key, &current, fetch, decode) {
            Err(e) => {
                proof {
                    assert(run_ends(
                        stores,
                        pages,
                        graphql@,
                        replay,
                        *fetch,
                        *decode,
                        query_name@,
                        base,
                        Err::<Vec<T>, Failure>(e),
                    ));
                }
                return Err(e);
            },
            Ok(page) => {
                let ghost served = page;
                let ghost earlier_pages = pages;
                let ghost earlier_stores = stores;
                proof {
                    pages = pages.push(served);
                    stores = stores.push(graphql@);
                    assert(pages.drop_last() =~= earlier_pages);
                    assert forall|i: int| 0 <= i < pages.len() implies #[trigger] step_ok(
                        stores,
                        pages,
                        replay,
                        *fetch,
                        *decode,
                        query_name@,
                        base,
                        i,
                    ) by {
                        if i < earlier_pages.len() {
                            assert(step_ok(
                                earlier_stores,
                                earlier_pages,
                                replay,
                                *fetch,
                                *decode,
                                query_name@,
                                base,
                                i,
                            ));
                            assert(stores[i] == earlier_stores[i]);
                            assert(stores[i + 1] == earlier_stores[i + 1]);
                            assert(pages[i] == earlier_pages[i]);
                            assert(cursor_for(pages, i) == cursor_for(earlier_pages, i));
                        } else {
                            assert(cursor_for(pages, i) == cursor_for(earlier_pages, i));
                        }
                    }
                    assert forall|i: int| 0 <= i < pages.len() - 1 implies (
                    #[trigger] pages[i]).next_cursor is Some by {
                        if i < earlier_pages.len() - 1 {
                            assert(earlier_pages[i].next_cursor is Some);
                        }
                    }
                }
                let Page { items: mut more, next_cursor } = page;
                items.append(&mut more);
                match next_cursor {
                    None => {
                        proof {
                            assert(run_ok(
                                stores,
                                pages,
                                replay,
                                *fetch,
                                *decode,
                                query_name@,
                                base,
                            ));
                        }
                        return Ok(items);
                    },
                    Some(cursor) => {
                        if index == u64::MAX {
                            proof {
                                assert(run_ok(
                                    stores,
                                    pages,
                                    replay,
                                    *fetch,
                                    *decode,
                                    query_name@,
                                    base,
                                ));
                            }
                            return Err(Failure::DecodeError(key));
                        }
                        current.cursor = Some(cursor);
                        index += 1;
                    },
                }
            },
        }
    }
}

/// Whether `pages` is a finite sequence of pages of which the last, and only
/// the last, names no cursor.
pub open spec fn ends_at_last<T>(pages: Seq<Page<T>>) -> bool {
    &&& 0 < pages.len() <= u64::MAX + 1
    &&& pages.last().next_cursor is None
    &&& forall|i: int| 0 <= i < pages.len() - 1 ==> (#[trigger] pages[i]).next_cursor is Some
}

/// Whether cache, `fetch` and `decode` can only answer the request for the page
/// `i` of `expected`, made with the cursor of the page before it, with that
/// page.
pub open spec fn serves<T, F, D>(
    replay: bool,
    fetch: F,
    decode: D,
    query_name: Seq<char>,
    base: (Seq<char>, Seq<char>, i64, Option<Seq<char>>),
    expected: Seq<Page<T>>,
) -> bool where
    F: Fn(&CacheKey, &QueryVariables) -> Result<CachedPage, Failure>,
    D: Fn(&CacheKey, &CachedPage) -> Result<Page<T>, Failure>,
 {
    forall|
        i: int,
        s: Map<(Seq<char>, u64), (Seq<char>, Option<Seq<char>>)>,
        t: Map<(Seq<char>, u64), (Seq<char>, Option<Seq<char>>)>,
        r: Result<Page<T>, Failure>,
    |
        0 <= i < expected.len() && #[trigger] page_result(
            s,
            t,
            replay,
            fetch,
            decode,
            (query_name, i as u64),
            at_cursor(base, cursor_for(expected, i)),
            r,
        ) ==> r == Ok::<Page<T>, Failure>(expected[i])
}

proof fn lemma_run_follows<T, F, D>(
    stores: Seq<Map<(Seq<char>, u64), (Seq<char>, Option<Seq<char>>)>>,
    pages: Seq<Page<T>>,
    replay: bool,
    fetch: F,
    decode: D,
    query_name: Seq<char>,
    base: (Seq<char>, Seq<char>, i64, Option<Seq<char>>),
    expected: Seq<Page<T>>,
    n: int,
) where
    F: Fn(&CacheKey, &QueryVariables) -> Result<CachedPage, Failure>,
    D: Fn(&CacheKey, &CachedPage) -> Result<Page<T>, Failure>,

    requires
        run_ok(stores, pages, replay, fetch, decode, query_name, base),
        ends_at_last(expected),
        serves(replay, fetch, decode, query_name, base, expected),
        0 <= n <= pages.len(),
        n <= expected.len(),
    ensures
        forall|i: int| 0 <= i < n ==> pages[i] == expected[i],
    decreases n,
{
    if n > 0 {
        lemma_run_follows(stores, pages, replay, fetch, decode, query_name, base, expected, n - 1);
        let i = n - 1;
        assert(step_ok(stores, pages, replay, fetch, decode, query_name, base, i));
        if i > 0 {
            assert(pages[i - 1] == expected[i - 1]);
        }
        assert(cursor_for(pages, i) == cursor_for(expected, i));
    }
}

/// Pagination ends with the last page: where the pages that can be served are
/// a finite sequence of which only the last names no cursor, a run of
/// `paginate` succeeds, and returns the items of all these pages in order.
pub proof fn lemma_pagination_returns_all_pages<T, F, D>(
    before: Map<(Seq<char>, u64), (Seq<char>, Option<Seq<char>>)>,
    after: Map<(Seq<char>, u64), (Seq<char>, Option<Seq<char>>)>,
    replay: bool,
    fetch: F,
    decode: D,
    query_name: Seq<char>,
    base: (Seq<char>, Seq<char>, i64, Option<Seq<char>>),
    result: Result<Vec<T>, Failure>,
    expected: Seq<Page<T>>,
) where
    F: Fn(&CacheKey, &QueryVariables) -> Result<CachedPage, Failure>,
    D: Fn(&CacheKey, &CachedPage) -> Result<Page<T>, Failure>,

    requires
        paginate_result(before, after, replay, fetch, decode, query_name, base, result),
        ends_at_last(expected),
        serves(replay, fetch, decode, query_name, base, expected),
    ensures
        result matches Ok(items) && items@ == page_items(expected),
{
    let (stores, pages) = choose|
        stores: Seq<Map<(Seq<char>, u64), (Seq<char>, Option<Seq<char>>)>>,
        pages: Seq<Page<T>>,
    |
        {
            &&& #[trigger] run_ok(stores, pages, replay, fetch, decode, query_name, base)
            &&& stores[0] == before
            &&& run_ends(stores, pages, after, replay, fetch, decode, query_name, base, result)
        };
    let n = if pages.len() <= expected.len() {
        pages.len() as int
    } else {
        expected.len() as int
    };
    lemma_run_follows(stores, pages, replay, fetch, decode, query_name, base, expected, n);
    if pages.len() > expected.len() {
        let last = expected.len() - 1;
        assert(pages[last] == expected[last]);
        assert(pages[last].next_cursor is Some);
    } else {
        match result {
            Ok(items) => {
                if pages.len() < expected.len() {
                    let last = pages.len() - 1;
                    assert(pages[last] == expected[last]);
                    assert(expected[last].next_cursor is Some);
                }
                assert(pages =~= expected);
            },
            Err(e) => {
                if pages.len() == expected.len() {
                    let last = pages.len() - 1;
                    assert(pages[last] == expected[last]);
                } else {
                    let i = pages.len() as int;
                    if i > 0 {
                        assert(pages[i - 1] == expected[i - 1]);
                    }
                    assert(cursor_for(pages, i) == cursor_for(expected, i));
                    assert(page_result(
                        stores.last(),
                        after,
                        replay,
                        fetch,
                        decode,
                        (query_name, i as u64),
                        at_cursor(base, cursor_for(expected, i)),
                        Err::<Page<T>, Failure>(e),
                    ));
                }
            },
        }
    }
}

} // verus!
