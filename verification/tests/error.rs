use optopodi::cache::CacheKey;
use optopodi::error::Failure;

#[test]
fn failures_name_the_query_and_the_page() {
    let key = || CacheKey::new("rust-lang.rust", 3);
    assert_eq!(
        Failure::NetworkError(key()).describe(),
        "network error: query rust-lang.rust, page 3"
    );
    assert_eq!(
        Failure::DecodeError(key()).describe(),
        "unexpected payload: query rust-lang.rust, page 3"
    );
    assert_eq!(
        Failure::CacheMiss(key()).describe(),
        "page not in the cache: query rust-lang.rust, page 3"
    );
    assert_eq!(
        Failure::CacheWriteError(key()).describe(),
        "page could not be stored: query rust-lang.rust, page 3"
    );
}

#[test]
fn failures_of_the_pipeline_have_no_page() {
    assert_eq!(Failure::ChannelClosed.describe(), "row channel closed by the consumer");
    assert_eq!(Failure::SinkWriteError.describe(), "row could not be written");
    assert!(Failure::ChannelClosed.page().is_none());
    assert!(Failure::SinkWriteError.page().is_none());
}

#[test]
fn failure_hands_out_its_page() {
    let failure = Failure::CacheMiss(CacheKey::new("q", 18));
    let key = failure.page().unwrap();
    assert_eq!(key.query_name, "q");
    assert_eq!(key.page_index, 18);
    let copy = failure.clone();
    assert_eq!(copy.describe(), failure.describe());
}
