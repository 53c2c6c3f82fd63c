//! The query cache: the pages of each query, kept so that a later run can
//! replay them without asking the remote API again.

use crate::error::Failure;
use crate::text::{
    decimal, decimal_digits, is_digit, lemma_decimal_round_trip, parse_decimal,
};
use vstd::prelude::*;
use vstd::string::*;

verus! {

/// Names one page of one query. Page indices start at 0.
#[derive(Debug)]
pub struct CacheKey {
    pub query_name: String,
    pub page_index: u64,
}

impl View for CacheKey {
    type V = (Seq<char>, u64);

    open spec fn view(&self) -> (Seq<char>, u64) {
        (self.query_name@, self.page_index)
    }
}

impl Clone for CacheKey {
    fn clone(&self) -> (copy: Self)
        ensures
            copy == *self,
    {
        CacheKey { query_name: self.query_name.clone(), page_index: self.page_index }
    }
}

/// One page as the remote API answered it: the payload, and the cursor that
/// asks for the page after it. No cursor means that this is the last page.
#[derive(Debug)]
pub struct CachedPage {
    pub payload: String,
    pub cursor: Option<String>,
}

impl View for CachedPage {
    type V = (Seq<char>, Option<Seq<char>>);

    open spec fn view(&self) -> (Seq<char>, Option<Seq<char>>) {
        (
            self.payload@,
            match self.cursor {
                Some(c) => Some(c@),
                None => None,
            },
        )
    }
}

impl Clone for CachedPage {
    fn clone(&self) -> (copy: Self)
        ensures
            copy == *self,
    {
        CachedPage {
            payload: self.payload.clone(),
            cursor: match &self.cursor {
                Some(c) => Some(c.clone()),
                None => None,
            },
        }
    }
}

/// The ending of every cache file's name.
pub open spec fn file_suffix() -> Seq<char> {
    seq!['.', 'j', 's', 'o', 'n']
}

/// The name of the file that holds the page `key`: the query's name, a dot,
/// the page index in decimal, and `.json`.
pub open spec fn file_name_of(key: (Seq<char>, u64)) -> Seq<char> {
    key.0 + seq!['.'] + decimal_digits(key.1 as nat) + file_suffix()
}

impl CacheKey {
    pub fn new(query_name: &str, page_index: u64) -> (key: CacheKey)
        ensures
            key@ == (query_name@, page_index),
    {
        CacheKey { query_name: String::from_str(query_name), page_index }
    }

    /// Whether both keys name the same page of the same query.
    pub fn same(&self, other: &CacheKey) -> (same: bool)
        ensures
            same == (self@ == other@),
    {
        self.page_index == other.page_index && self.query_name == other.query_name
    }

    /// The name of the file that holds this page.
    pub fn file_name(&self) -> (name: String)
        ensures
            name@ == file_name_of(self@),
    {
        let mut name = self.query_name.clone();
        name.append(".");
        let number = decimal(self.page_index);
        name.append(number.as_str());
        name.append(".json");
        proof {
            reveal_strlit(".");
            reveal_strlit(".json");
            assert("."@ =~= seq!['.']);
            assert(".json"@ =~= file_suffix());
        }
        name
    }
}

/// The parts of a file's name: the query's name is what stands before the dot,
/// the digits of the page index stand between the dot and the ending.
pub proof fn lemma_file_name_parts(query_name: Seq<char>, page_index: u64)
    ensures
        ({
            let name = file_name_of((query_name, page_index));
            let digits = decimal_digits(page_index as nat);
            &&& digits.len() > 0
            &&& name.len() == query_name.len() + 1 + digits.len() + 5
            &&& name.subrange(0, query_name.len() as int) == query_name
            &&& name[query_name.len() as int] == '.'
            &&& name.subrange(query_name.len() as int + 1, name.len() - 5) == digits
            &&& name.subrange(name.len() - 5, name.len() as int) == file_suffix()
            &&& forall|j: int| query_name.len() < j < name.len() - 5 ==> name[j] != '.'
        }),
{
    let name = file_name_of((query_name, page_index));
    let digits = decimal_digits(page_index as nat);
    lemma_decimal_round_trip(page_index as nat);
    assert(name.subrange(0, query_name.len() as int) =~= query_name);
    assert(name.subrange(query_name.len() as int + 1, name.len() - 5) =~= digits);
    assert(name.subrange(name.len() - 5, name.len() as int) =~= file_suffix());
    assert forall|j: int| query_name.len() < j < name.len() - 5 implies name[j] != '.' by {
        assert(name[j] == digits[j - query_name.len() - 1]);
        assert(is_digit(digits[j - query_name.len() - 1]));
    }
}

/// No two keys have the same file name.
pub proof fn lemma_file_names_differ(first: (Seq<char>, u64), second: (Seq<char>, u64))
    requires
        file_name_of(first) == file_name_of(second),
    ensures
        first == second,
{
    lemma_file_name_parts(first.0, first.1);
    lemma_file_name_parts(second.0, second.1);
    let name = file_name_of(first);
    if first.0.len() < second.0.len() {
        assert(name[second.0.len() as int] == '.');
    } else if second.0.len() < first.0.len() {
        assert(name[first.0.len() as int] == '.');
    }
    assert(first.0 == second.0);
    lemma_decimal_round_trip(first.1 as nat);
    lemma_decimal_round_trip(second.1 as nat);
}

impl CacheKey {
    /// The key of the page that a file of the name `name` holds, where `name`
    /// is the file name of a key.
    pub fn from_file_name(name: &str) -> (key: Option<CacheKey>)
        ensures
            key matches Some(k) ==> name@ == file_name_of(k@),
            key is None ==> forall|query_name: Seq<char>, page_index: u64|
                name@ != #[trigger] file_name_of((query_name, page_index)),
    {
        let n: usize = name.unicode_len();
        if n < 7 {
            proof {
                assert forall|query_name: Seq<char>, page_index: u64|
                    name@ != #[trigger] file_name_of((query_name, page_index)) by {
                    lemma_file_name_parts(query_name, page_index);
                }
            }
            return None;
        }
        let ending_fits: bool = name.get_char(n - 5) == '.' && name.get_char(n - 4) == 'j'
            && name.get_char(n - 3) == 's' && name.get_char(n - 2) == 'o' && name.get_char(n - 1)
            == 'n';
        if !ending_fits {
            proof {
                assert forall|query_name: Seq<char>, page_index: u64|
                    name@ != #[trigger] file_name_of((query_name, page_index)) by {
                    lemma_file_name_parts(query_name, page_index);
                    if name@ == file_name_of((query_name, page_index)) {
                        let ending = name@.subrange(n - 5, n as int);
                        assert(ending[0] == name@[n - 5]);
                        assert(ending[1] == name@[n - 4]);
                        assert(ending[2] == name@[n - 3]);
                        assert(ending[3] == name@[n - 2]);
                        assert(ending[4] == name@[n - 1]);
                    }
                }
            }
            return None;
        }
        let mut dot: usize = n - 5;
        let mut found: bool = false;
        while dot > 0 && !found
            invariant
                n == name@.len(),
                n >= 7,
                dot <= n - 5,
                found ==> dot < n - 5 && name@[dot as int] == '.',
                forall|j: int| dot < j < n - 5 ==> name@[j] != '.',
                !found ==> forall|j: int| dot <= j < n - 5 ==> name@[j] != '.',
            decreases dot + (if found { 0int } else { 1int }),
        {
            if name.get_char(dot - 1) == '.' {
                found = true;
            }
            dot -= 1;
        }
        if !found {
            proof {
                assert forall|query_name: Seq<char>, page_index: u64|
                    name@ != #[trigger] file_name_of((query_name, page_index)) by {
                    lemma_file_name_parts(query_name, page_index);
                }
            }
            return None;
        }
        let digits: &str = name.substring_char(dot + 1, n - 5);
        match parse_decimal(digits) {
            Some(page_index) => {
                let query_name: &str = name.substring_char(0, dot);
                let key = CacheKey::new(query_name, page_index);
                proof {
                    let ending = name@.subrange(n - 5, n as int);
                    assert(ending =~= file_suffix());
                    assert(name@ =~= file_name_of(key@));
                }
                Some(key)
            },
            None => {
                proof {
                    assert forall|query_name: Seq<char>, page_index: u64|
                        name@ != #[trigger] file_name_of((query_name, page_index)) by {
                        lemma_file_name_parts(query_name, page_index);
                        if name@ == file_name_of((query_name, page_index)) {
                            assert(name@[query_name.len() as int] == '.');
                            assert(query_name.len() == dot);
                        }
                    }
                }
                None
            },
        }
    }
}

#[derive(Debug)]
struct Entry {
    key: CacheKey,
    page: CachedPage,
}

/// What a sequence of stored entries holds: for each key the page stored last.
spec fn pages_of(entries: Seq<Entry>) -> Map<(Seq<char>, u64), (Seq<char>, Option<Seq<char>>)>
    decreases entries.len(),
{
    if entries.len() == 0 {
        Map::empty()
    } else {
        pages_of(entries.drop_last()).insert(entries.last().key@, entries.last().page@)
    }
}

/// What a replay of the page `key` finds among the stored `pages`.
pub open spec fn replayed(
    pages: Map<(Seq<char>, u64), (Seq<char>, Option<Seq<char>>)>,
    key: (Seq<char>, u64),
) -> Option<(Seq<char>, Option<Seq<char>>)> {
    if pages.dom().contains(key) {
        Some(pages[key])
    } else {
        None
    }
}

/// The stored pages after a live fetch of the page `key`: with the page that
/// was fetched in place of what was stored under the key, or as they were
/// where the fetch failed.
pub open spec fn after_live(
    pages: Map<(Seq<char>, u64), (Seq<char>, Option<Seq<char>>)>,
    key: (Seq<char>, u64),
    fetched: Result<CachedPage, Failure>,
) -> Map<(Seq<char>, u64), (Seq<char>, Option<Seq<char>>)> {
    match fetched {
        Ok(page) => pages.insert(key, page@),
        Err(_) => pages,
    }
}

/// The cache of one directory, and the mode of the run. In live mode pages are
/// fetched and stored; in replay mode only what is stored is read.
#[derive(Debug)]
pub struct Graphql {
    dir: String,
    replay: bool,
    entries: Vec<Entry>,
}

impl View for Graphql {
    type V = Map<(Seq<char>, u64), (Seq<char>, Option<Seq<char>>)>;

    /// The pages that the cache holds, by key.
    closed spec fn view(&self) -> Map<(Seq<char>, u64), (Seq<char>, Option<Seq<char>>)> {
        pages_of(self.entries@)
    }
}

impl Graphql {
    /// Whether the cache only replays.
    pub closed spec fn replay(&self) -> bool {
        self.replay
    }

    /// The directory that the cache stands for.
    pub closed spec fn dir(&self) -> Seq<char> {
        self.dir@
    }

    /// An empty cache for the directory `dir`.
    pub fn new(dir: String, replay: bool) -> (cache: Graphql)
        ensures
            cache@ == Map::<(Seq<char>, u64), (Seq<char>, Option<Seq<char>>)>::empty(),
            cache.replay() == replay,
            cache.dir() == dir@,
    {
        Graphql { dir, replay, entries: Vec::new() }
    }

    pub fn is_replay(&self) -> (replay: bool)
        ensures
            replay == self.replay(),
    {
        self.replay
    }

    pub fn directory(&self) -> (dir: &str)
        ensures
            dir@ == self.dir(),
    {
        self.dir.as_str()
    }

    /// The page stored under `key`, if any.
    pub fn lookup(&self, key: &CacheKey) -> (found: Option<&CachedPage>)
        ensures
            found is Some <==> self@.dom().contains(key@),
            found matches Some(p) ==> p@ == self@[key@],
    {
        let mut i: usize = self.entries.len();
        proof {
            assert(self.entries@.take(i as int) =~= self.entries@);
        }
        while i > 0
            invariant
                i <= self.entries.len(),
                self@.dom().contains(key@) <==> pages_of(self.entries@.take(i as int)).dom().contains(
                    key@,
                ),
                self@.dom().contains(key@) ==> self@[key@] == pages_of(
                    self.entries@.take(i as int),
                )[key@],
            decreases i,
        {
            i -= 1;
            proof {
                let upto = self.entries@.take(i as int + 1);
                assert(upto.drop_last() =~= self.entries@.take(i as int));
                assert(upto.last() == self.entries@[i as int]);
            }
            if self.entries[i].key.same(key) {
                return Some(&self.entries[i].page);
            }
        }
        proof {
            assert(self.entries@.take(0) =~= Seq::<Entry>::empty());
        }
        None
    }

    /// Stores `page` under `key`, in place of what was stored there.
    pub fn store(&mut self, key: CacheKey, page: CachedPage)
        ensures
            final(self)@ == old(self)@.insert(key@, page@),
            final(self).replay() == old(self).replay(),
            final(self).dir() == old(self).dir(),
    {
        self.entries.push(Entry { key, page });
        proof {
            assert(self.entries@.drop_last() =~= old(self).entries@);
        }
    }

    /// The page `key`: in live mode what `live_fetch` returns, stored before it
    /// is handed on; in replay mode what is stored, and `CacheMiss` where
    /// nothing is. Replay never calls `live_fetch`.
    pub fn fetch_or_replay<F: FnOnce() -> Result<CachedPage, Failure>>(
        &mut self,
        key: &CacheKey,
        live_fetch: F,
    ) -> (outcome: Result<CachedPage, Failure>)
        requires
            !old(self).replay() ==> call_requires(live_fetch, ()),
        ensures
            final(self).replay() == old(self).replay(),
            final(self).dir() == old(self).dir(),
            old(self).replay() ==> final(self)@ == old(self)@ && (match replayed(
                old(self)@,
                key@,
            ) {
                Some(page) => outcome matches Ok(p) && p@ == page,
                None => outcome == Err::<CachedPage, Failure>(Failure::CacheMiss(*key)),
            }),
            !old(self).replay() ==> call_ensures(live_fetch, (), outcome) && final(self)@
                == after_live(old(self)@, key@, outcome),
    {
        if self.replay {
            match self.lookup(key) {
                Some(p) => Ok(p.clone()),
                None => Err(Failure::CacheMiss(key.clone())),
            }
        } else {
            match live_fetch() {
                Ok(p) => {
                    self.store(key.clone(), p.clone());
                    Ok(p)
                },
                Err(e) => Err(e),
            }
        }
    }
}

/// Round trip: the page that a live run fetched and stored under a key is the
/// page that a replay of the same key gives, payload and cursor alike; and
/// what was stored under other keys is still there.
pub proof fn lemma_live_then_replay(
    pages: Map<(Seq<char>, u64), (Seq<char>, Option<Seq<char>>)>,
    key: (Seq<char>, u64),
    page: CachedPage,
    other: (Seq<char>, u64),
)
    ensures
        replayed(after_live(pages, key, Ok(page)), key) == Some(page@),
        other != key ==> replayed(after_live(pages, key, Ok(page)), other) == replayed(
            pages,
            other,
        ),
{
}

/// A live fetch that fails leaves the cache as it was.
pub proof fn lemma_failed_fetch_stores_nothing(
    pages: Map<(Seq<char>, u64), (Seq<char>, Option<Seq<char>>)>,
    key: (Seq<char>, u64),
    failure: Failure,
)
    ensures
        after_live(pages, key, Err(failure)) == pages,
{
}

} // verus!
