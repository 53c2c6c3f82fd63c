use optopodi::cache::{CacheKey, CachedPage, Graphql};
use optopodi::error::Failure;
use optopodi::paginate::{fetch_page, paginate, Page, QueryVariables};
use std::cell::RefCell;

fn variables(cursor: Option<&str>) -> QueryVariables {
    QueryVariables {
        organisation: String::from("rust-lang"),
        repository: String::from("rust"),
        window_seconds: 2_592_000,
        cursor: cursor.map(String::from),
    }
}

// A payload is a list of words separated by blanks.
fn words(key: &CacheKey, page: &CachedPage) -> Result<Page<String>, Failure> {
    if page.payload.contains('!') {
        return Err(Failure::DecodeError(key.clone()));
    }
    Ok(Page {
        items: page.payload.split_whitespace().map(String::from).collect(),
        next_cursor: page.cursor.clone(),
    })
}

// Three pages; the cursor of a page is the index of the next one.
fn three_pages(key: &CacheKey, vars: &QueryVariables) -> Result<CachedPage, Failure> {
    let expected_cursor = match key.page_index {
        0 => None,
        n => Some(format!("c{}", n)),
    };
    assert_eq!(vars.cursor, expected_cursor);
    assert_eq!(key.query_name, "pulls");
    match key.page_index {
        0 => Ok(CachedPage { payload: String::from("a b"), cursor: Some(String::from("c1")) }),
        1 => Ok(CachedPage { payload: String::from(""), cursor: Some(String::from("c2")) }),
        2 => Ok(CachedPage { payload: String::from("c d e"), cursor: None }),
        _ => panic!("asked for a page behind the last"),
    }
}

#[test]
fn paginate_concatenates_all_pages() {
    let mut cache = Graphql::new(String::from("dir"), false);
    let items = paginate(&mut cache, "pulls", variables(None), &three_pages, &words).unwrap();
    assert_eq!(items, vec!["a", "b", "c", "d", "e"]);
    for index in 0..3 {
        assert!(cache.lookup(&CacheKey::new("pulls", index)).is_some());
    }
    assert!(cache.lookup(&CacheKey::new("pulls", 3)).is_none());
    assert_eq!(
        cache.lookup(&CacheKey::new("pulls", 1)).unwrap().cursor,
        Some(String::from("c2"))
    );
}

#[test]
fn paginate_starts_without_a_cursor() {
    let mut cache = Graphql::new(String::from("dir"), false);
    let items =
        paginate(&mut cache, "pulls", variables(Some("stale")), &three_pages, &words).unwrap();
    assert_eq!(items.len(), 5);
}

#[test]
fn paginate_of_a_single_page() {
    let mut cache = Graphql::new(String::from("dir"), false);
    let calls = RefCell::new(0);
    let fetch = |_: &CacheKey, _: &QueryVariables| {
        *calls.borrow_mut() += 1;
        Ok(CachedPage { payload: String::from("only"), cursor: None })
    };
    let items = paginate(&mut cache, "q", variables(None), &fetch, &words).unwrap();
    assert_eq!(items, vec!["only"]);
    assert_eq!(*calls.borrow(), 1);
}

#[test]
fn paginate_replays_what_a_live_run_stored() {
    let mut live = Graphql::new(String::from("dir"), false);
    let first = paginate(&mut live, "pulls", variables(None), &three_pages, &words).unwrap();

    let mut replay = Graphql::new(String::from("dir"), true);
    for index in 0..3 {
        let key = CacheKey::new("pulls", index);
        replay.store(key.clone(), live.lookup(&key).unwrap().clone());
    }
    let never = |_: &CacheKey, _: &QueryVariables| -> Result<CachedPage, Failure> {
        panic!("replay must not fetch")
    };
    let second = paginate(&mut replay, "pulls", variables(None), &never, &words).unwrap();
    assert_eq!(first, second);
}

#[test]
fn paginate_replay_fails_on_the_first_missing_page() {
    let mut replay = Graphql::new(String::from("dir"), true);
    replay.store(
        CacheKey::new("pulls", 0),
        CachedPage { payload: String::from("a"), cursor: Some(String::from("c1")) },
    );
    let never = |_: &CacheKey, _: &QueryVariables| -> Result<CachedPage, Failure> {
        panic!("replay must not fetch")
    };
    match paginate(&mut replay, "pulls", variables(None), &never, &words) {
        Err(Failure::CacheMiss(key)) => {
            assert_eq!(key.query_name, "pulls");
            assert_eq!(key.page_index, 1);
        }
        other => panic!("expected a cache miss, got {:?}", other),
    }
}

#[test]
fn paginate_stops_at_the_first_network_failure() {
    let mut cache = Graphql::new(String::from("dir"), false);
    let calls = RefCell::new(Vec::new());
    let fetch = |key: &CacheKey, _: &QueryVariables| {
        calls.borrow_mut().push(key.page_index);
        match key.page_index {
            0 => Ok(CachedPage { payload: String::from("a"), cursor: Some(String::from("c1")) }),
            _ => Err(Failure::NetworkError(key.clone())),
        }
    };
    match paginate(&mut cache, "pulls", variables(None), &fetch, &words) {
        Err(Failure::NetworkError(key)) => assert_eq!(key.page_index, 1),
        other => panic!("expected a network failure, got {:?}", other),
    }
    assert_eq!(*calls.borrow(), vec![0, 1]);
    assert!(cache.lookup(&CacheKey::new("pulls", 0)).is_some());
    assert!(cache.lookup(&CacheKey::new("pulls", 1)).is_none());
}

#[test]
fn paginate_stops_at_the_first_decode_failure() {
    let mut cache = Graphql::new(String::from("dir"), false);
    let fetch = |key: &CacheKey, _: &QueryVariables| match key.page_index {
        0 => Ok(CachedPage { payload: String::from("fine"), cursor: Some(String::from("c1")) }),
        1 => Ok(CachedPage { payload: String::from("oh no!"), cursor: Some(String::from("c2")) }),
        _ => panic!("asked for a page behind the broken one"),
    };
    match paginate(&mut cache, "pulls", variables(None), &fetch, &words) {
        Err(Failure::DecodeError(key)) => {
            assert_eq!(key.query_name, "pulls");
            assert_eq!(key.page_index, 1);
        }
        other => panic!("expected a decode failure, got {:?}", other),
    }
    // the page was fetched, so it is stored, although it cannot be decoded
    assert!(cache.lookup(&CacheKey::new("pulls", 1)).is_some());
}

#[test]
fn fetch_page_goes_through_the_cache() {
    let mut cache = Graphql::new(String::from("dir"), false);
    let key = CacheKey::new("pulls", 0);
    let fetch = |_: &CacheKey, vars: &QueryVariables| {
        assert_eq!(vars.organisation, "rust-lang");
        assert_eq!(vars.repository, "rust");
        assert_eq!(vars.window_seconds, 2_592_000);
        Ok(CachedPage { payload: String::from("x y"), cursor: Some(String::from("next")) })
    };
    let page = fetch_page(&mut cache, &key, &variables(None), &fetch, &words).unwrap();
    assert_eq!(page.items, vec!["x", "y"]);
    assert_eq!(page.next_cursor, Some(String::from("next")));
    assert_eq!(cache.lookup(&key).unwrap().payload, "x y");
}

#[test]
fn a_page_that_cannot_be_stored_ends_the_run() {
    let mut cache = Graphql::new(String::from("dir"), false);
    let fetch = |key: &CacheKey, _: &QueryVariables| -> Result<CachedPage, Failure> {
        Err(Failure::CacheWriteError(key.clone()))
    };
    match paginate(&mut cache, "pulls", variables(None), &fetch, &words) {
        Err(Failure::CacheWriteError(key)) => {
            assert_eq!(key.query_name, "pulls");
            assert_eq!(key.page_index, 0);
        }
        other => panic!("expected the write failure, got {:?}", other),
    }
    assert!(cache.lookup(&CacheKey::new("pulls", 0)).is_none());
}
