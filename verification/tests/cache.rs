use optopodi::cache::{CacheKey, CachedPage, Graphql};
use optopodi::error::Failure;

fn page(payload: &str, cursor: Option<&str>) -> CachedPage {
    CachedPage { payload: String::from(payload), cursor: cursor.map(String::from) }
}

#[test]
fn live_fetch_is_stored_and_handed_on() {
    let key = CacheKey::new("pulls", 0);
    let mut live = Graphql::new(String::from("graphql/pulls"), false);
    let got = live.fetch_or_replay(&key, || Ok(page("{\"n\":1}", Some("abc")))).unwrap();
    assert_eq!(got.payload, "{\"n\":1}");
    assert_eq!(got.cursor, Some(String::from("abc")));
    let stored = live.lookup(&key).unwrap();
    assert_eq!(stored.payload, "{\"n\":1}");
    assert_eq!(stored.cursor, Some(String::from("abc")));
}

#[test]
fn replay_gives_back_what_live_stored() {
    let key = CacheKey::new("pulls", 2);
    let mut live = Graphql::new(String::from("graphql/pulls"), false);
    let fetched = live.fetch_or_replay(&key, || Ok(page("payload with \u{e9}", None))).unwrap();

    let mut replay = Graphql::new(String::from("graphql/pulls"), true);
    replay.store(key.clone(), live.lookup(&key).unwrap().clone());
    let replayed = replay.fetch_or_replay(&key, || panic!("replay must not fetch")).unwrap();
    assert_eq!(replayed.payload, fetched.payload);
    assert_eq!(replayed.cursor, fetched.cursor);
    assert_eq!(replayed.cursor, None);
}

#[test]
fn replay_keeps_the_cursor() {
    let key = CacheKey::new("pulls", 0);
    let mut replay = Graphql::new(String::from("dir"), true);
    replay.store(key.clone(), page("p", Some("Y3Vyc29yOjEwMA==")));
    let replayed = replay.fetch_or_replay(&key, || panic!("replay must not fetch")).unwrap();
    assert_eq!(replayed.cursor, Some(String::from("Y3Vyc29yOjEwMA==")));
}

#[test]
fn replay_miss_is_fatal_and_never_fetches() {
    let key = CacheKey::new("pulls", 3);
    let mut replay = Graphql::new(String::from("graphql/pulls"), true);
    replay.store(CacheKey::new("pulls", 2), page("two", None));
    replay.store(CacheKey::new("other", 3), page("three", None));
    let outcome = replay.fetch_or_replay(&key, || panic!("replay must not fetch"));
    match outcome {
        Err(Failure::CacheMiss(k)) => {
            assert_eq!(k.query_name, "pulls");
            assert_eq!(k.page_index, 3);
        }
        other => panic!("expected a cache miss, got {:?}", other),
    }
    assert!(replay.lookup(&key).is_none());
}

#[test]
fn failed_live_fetch_stores_nothing() {
    let key = CacheKey::new("pulls", 0);
    let mut live = Graphql::new(String::from("dir"), false);
    let outcome = live.fetch_or_replay(&key, || Err(Failure::NetworkError(CacheKey::new("pulls", 0))));
    assert!(matches!(outcome, Err(Failure::NetworkError(_))));
    assert!(live.lookup(&key).is_none());
}

#[test]
fn a_later_store_replaces_the_earlier_one() {
    let key = CacheKey::new("pulls", 0);
    let mut cache = Graphql::new(String::from("dir"), false);
    cache.store(key.clone(), page("old", Some("c1")));
    cache.store(CacheKey::new("pulls", 1), page("other", None));
    cache.store(key.clone(), page("new", None));
    let found = cache.lookup(&key).unwrap();
    assert_eq!(found.payload, "new");
    assert_eq!(found.cursor, None);
    assert_eq!(cache.lookup(&CacheKey::new("pulls", 1)).unwrap().payload, "other");
}

#[test]
fn cache_knows_its_directory_and_mode() {
    let cache = Graphql::new(String::from("data/graphql/repo-infos"), true);
    assert_eq!(cache.directory(), "data/graphql/repo-infos");
    assert!(cache.is_replay());
    assert!(!Graphql::new(String::from("x"), false).is_replay());
}

#[test]
fn keys_are_the_same_by_name_and_index() {
    assert!(CacheKey::new("a", 1).same(&CacheKey::new("a", 1)));
    assert!(!CacheKey::new("a", 1).same(&CacheKey::new("a", 2)));
    assert!(!CacheKey::new("a", 1).same(&CacheKey::new("b", 1)));
}

#[test]
fn file_name_is_name_dot_index_dot_json() {
    assert_eq!(CacheKey::new("rust-lang.rust", 0).file_name(), "rust-lang.rust.0.json");
    assert_eq!(CacheKey::new("pulls", 12).file_name(), "pulls.12.json");
    assert_eq!(CacheKey::new("", 7).file_name(), ".7.json");
    assert_eq!(
        CacheKey::new("q", u64::MAX).file_name(),
        "q.18446744073709551615.json"
    );
}

#[test]
fn file_name_is_read_back() {
    for (name, index) in [("rust-lang.rust", 0u64), ("pulls", 12), ("", 7), ("a.1", 2), ("q", u64::MAX)] {
        let key = CacheKey::new(name, index);
        let back = CacheKey::from_file_name(&key.file_name()).unwrap();
        assert_eq!(back.query_name, name);
        assert_eq!(back.page_index, index);
    }
}

#[test]
fn other_file_names_are_refused() {
    for name in [
        "",
        ".json",
        "pulls.json",
        "pulls.0.txt",
        "pulls.01.json",
        "pulls.-1.json",
        "pulls..json",
        "pulls0.json",
        "pulls.1x.json",
        "pulls.18446744073709551616.json",
        "pulls.0.JSON",
        "pulls.0.json ",
    ] {
        assert!(CacheKey::from_file_name(name).is_none(), "{:?}", name);
    }
}
