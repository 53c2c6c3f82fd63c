use optopodi::cache::{CacheKey, CachedPage, Graphql};
use optopodi::error::Failure;
use optopodi::metrics::list_repos::{repo_row, ListReposForOrg};
use optopodi::metrics::repo_participants::{participant_rows, pull_request_rows, RepoParticipants};
use optopodi::metrics::util::{
    count_pull_requests, query_name, repo_pairs, window_seconds, PullRequest, MAX_WINDOW_DAYS,
};
use optopodi::metrics::{run_producer, Producer};
use optopodi::paginate::{Page, QueryVariables};
use optopodi::pipeline::Pipeline;
use optopodi::report::util::GitHubOrganization;

fn strings(words: &[&str]) -> Vec<String> {
    words.iter().map(|w| String::from(*w)).collect()
}

fn text(bytes: Vec<u8>) -> String {
    String::from_utf8(bytes).unwrap()
}

fn pull_request(
    author: Option<&str>,
    participants: &[&str],
    reviewers: &[&str],
    resolved_by: Option<&str>,
) -> PullRequest {
    PullRequest {
        author: author.map(String::from),
        participants: strings(participants),
        reviewers: strings(reviewers),
        resolved_by: resolved_by.map(String::from),
    }
}

// A payload holds one pull request per line, in four parts separated by bars;
// the names within a part are separated by commas.
fn decode(key: &CacheKey, page: &CachedPage) -> Result<Page<PullRequest>, Failure> {
    let mut items = Vec::new();
    for line in page.payload.lines() {
        let parts: Vec<&str> = line.split('|').collect();
        if parts.len() != 4 {
            return Err(Failure::DecodeError(key.clone()));
        }
        let names = |s: &str| -> Vec<String> {
            s.split(',').filter(|n| !n.is_empty()).map(String::from).collect()
        };
        let one = |s: &str| if s.is_empty() { None } else { Some(String::from(s)) };
        items.push(PullRequest {
            author: one(parts[0]),
            participants: names(parts[1]),
            reviewers: names(parts[2]),
            resolved_by: one(parts[3]),
        });
    }
    Ok(Page { items, next_cursor: page.cursor.clone() })
}

fn lines(n: usize) -> String {
    "x|x||\n".repeat(n)
}

// Repository `a` has 5 pull requests on one page, repository `b` has 12 on two pages.
fn counts_5_and_12(key: &CacheKey, vars: &QueryVariables) -> Result<CachedPage, Failure> {
    assert_eq!(vars.organisation, "rust-lang");
    assert_eq!(vars.window_seconds, 30 * 86_400);
    assert_eq!(key.query_name, format!("rust-lang.{}", vars.repository));
    match (vars.repository.as_str(), key.page_index) {
        ("a", 0) => Ok(CachedPage { payload: lines(5), cursor: None }),
        ("b", 0) => Ok(CachedPage { payload: lines(7), cursor: Some(String::from("more")) }),
        ("b", 1) => {
            assert_eq!(vars.cursor.as_deref(), Some("more"));
            Ok(CachedPage { payload: lines(5), cursor: None })
        }
        other => panic!("unexpected request {:?}", other),
    }
}

fn rust_lang() -> Vec<GitHubOrganization> {
    vec![GitHubOrganization::new("rust-lang", &strings(&["a", "b"]))]
}

#[test]
fn end_to_end_two_repositories() {
    let cache = Graphql::new(String::from("data/graphql/repo-infos"), false);
    let mut producer = Producer::ListReposForOrg(ListReposForOrg::new(cache, rust_lang(), 30));
    assert_eq!(producer.column_names(), strings(&["Repository Name", "# of PRs"]));
    let table = run_producer(&mut producer, 1, &counts_5_and_12, &decode).unwrap();
    assert_eq!(text(table), "Repository Name,# of PRs\na,5\nb,12\n");
}

#[test]
fn end_to_end_rows_reach_the_pipeline_in_order() {
    let cache = Graphql::new(String::from("dir"), false);
    let mut producer = ListReposForOrg::new(cache, rust_lang(), 30);
    let mut pipeline = Pipeline::start(&producer.column_names(), 400);
    producer.producer_task(&mut pipeline, &counts_5_and_12, &decode).unwrap();
    assert_eq!(
        text(pipeline.finish(Ok(())).unwrap()),
        "Repository Name,# of PRs\na,5\nb,12\n"
    );
    // what was fetched is in the cache
    let stored = producer.graphql().lookup(&CacheKey::new("rust-lang.b", 1)).unwrap();
    assert_eq!(stored.payload, lines(5));
    assert_eq!(producer.number_of_days(), 30);
}

#[test]
fn end_to_end_replay_gives_the_same_table() {
    let live_cache = Graphql::new(String::from("dir"), false);
    let mut live = ListReposForOrg::new(live_cache, rust_lang(), 30);
    let mut pipeline = Pipeline::start(&live.column_names(), 2);
    live.producer_task(&mut pipeline, &counts_5_and_12, &decode).unwrap();
    let first = pipeline.finish(Ok(())).unwrap();

    let mut replay_cache = Graphql::new(String::from("dir"), true);
    for (name, index) in [("rust-lang.a", 0u64), ("rust-lang.b", 0), ("rust-lang.b", 1)] {
        let key = CacheKey::new(name, index);
        replay_cache.store(key.clone(), live.graphql().lookup(&key).unwrap().clone());
    }
    let never = |_: &CacheKey, _: &QueryVariables| -> Result<CachedPage, Failure> {
        panic!("replay must not fetch")
    };
    let mut replay = Producer::ListReposForOrg(ListReposForOrg::new(replay_cache, rust_lang(), 30));
    let second = run_producer(&mut replay, 2, &never, &decode).unwrap();
    assert_eq!(first, second);
}

#[test]
fn a_failed_query_fails_the_whole_run() {
    let fetch = |key: &CacheKey, vars: &QueryVariables| {
        if vars.repository == "b" {
            Err(Failure::NetworkError(key.clone()))
        } else {
            counts_5_and_12(key, vars)
        }
    };
    let cache = Graphql::new(String::from("dir"), false);
    let mut producer = Producer::ListReposForOrg(ListReposForOrg::new(cache, rust_lang(), 30));
    match run_producer(&mut producer, 4, &fetch, &decode) {
        Err(Failure::NetworkError(key)) => {
            assert_eq!(key.query_name, "rust-lang.b");
            assert_eq!(key.page_index, 0);
        }
        other => panic!("expected the network failure, got {:?}", other),
    }
}

#[test]
fn replay_without_pages_is_a_cache_miss() {
    let cache = Graphql::new(String::from("dir"), true);
    let never = |_: &CacheKey, _: &QueryVariables| -> Result<CachedPage, Failure> {
        panic!("replay must not fetch")
    };
    let mut producer = Producer::ListReposForOrg(ListReposForOrg::new(cache, rust_lang(), 30));
    match run_producer(&mut producer, 4, &never, &decode) {
        Err(Failure::CacheMiss(key)) => {
            assert_eq!(key.query_name, "rust-lang.a");
            assert_eq!(key.page_index, 0);
        }
        other => panic!("expected a cache miss, got {:?}", other),
    }
}

#[test]
fn no_repositories_no_rows() {
    let cache = Graphql::new(String::from("dir"), false);
    let never = |_: &CacheKey, _: &QueryVariables| -> Result<CachedPage, Failure> {
        panic!("nothing to ask")
    };
    let organisations = vec![GitHubOrganization::new("empty", &Vec::new())];
    let mut producer = Producer::ListReposForOrg(ListReposForOrg::new(cache, organisations, 7));
    let table = run_producer(&mut producer, 1, &never, &decode).unwrap();
    assert_eq!(text(table), "Repository Name,# of PRs\n");
}

#[test]
fn count_pull_requests_counts_over_all_pages() {
    let mut cache = Graphql::new(String::from("dir"), false);
    let n = count_pull_requests(&mut cache, "rust-lang", "b", 30 * 86_400, &counts_5_and_12, &decode);
    assert_eq!(n.unwrap(), 12);
}

#[test]
fn repo_row_is_name_and_count() {
    assert_eq!(repo_row("a", 5), strings(&["a", "5"]));
    assert_eq!(repo_row("rust", 0), strings(&["rust", "0"]));
    assert_eq!(repo_row("b", 1234567), strings(&["b", "1234567"]));
}

#[test]
fn query_name_is_organisation_dot_repository() {
    assert_eq!(query_name("rust-lang", "rust"), "rust-lang.rust");
}

#[test]
fn repositories_are_visited_in_configured_order() {
    let organisations = vec![
        GitHubOrganization::new("z", &strings(&["2", "1"])),
        GitHubOrganization::new("none", &Vec::new()),
        GitHubOrganization::new("a", &strings(&["3"])),
    ];
    let pairs = repo_pairs(&organisations);
    let expected: Vec<(String, String)> = [("z", "2"), ("z", "1"), ("a", "3")]
        .iter()
        .map(|(o, r)| (String::from(*o), String::from(*r)))
        .collect();
    assert_eq!(pairs, expected);
}

#[test]
fn window_of_days_in_seconds() {
    assert_eq!(window_seconds(30), Some(2_592_000));
    assert_eq!(window_seconds(0), Some(0));
    assert_eq!(window_seconds(1), Some(86_400));
    assert_eq!(window_seconds(-2), Some(-172_800));
    assert_eq!(window_seconds(MAX_WINDOW_DAYS), Some(MAX_WINDOW_DAYS * 86_400));
    assert_eq!(window_seconds(-MAX_WINDOW_DAYS), Some(-MAX_WINDOW_DAYS * 86_400));
    assert_eq!(window_seconds(MAX_WINDOW_DAYS + 1), None);
    assert_eq!(window_seconds(-MAX_WINDOW_DAYS - 1), None);
    assert_eq!(window_seconds(i64::MAX), None);
    assert_eq!(window_seconds(i64::MIN), None);
}

#[test]
fn bots_are_left_out() {
    let rows = pull_request_rows("rust", &pull_request(None, &["alice", "bors", "bob"], &[], None));
    assert_eq!(
        rows,
        vec![
            strings(&["alice", "rust", "1", "0", "0", "0"]),
            strings(&["bob", "rust", "1", "0", "0", "0"]),
        ]
    );
}

#[test]
fn every_known_bot_is_left_out() {
    let bots = ["rust-highfive", "bors", "rustbot", "rust-log-analyzer", "rust-timer", "rfcbot"];
    let rows = pull_request_rows("rust", &pull_request(Some("bors"), &bots, &bots, Some("rfcbot")));
    assert!(rows.is_empty());
}

#[test]
fn roles_are_counted_per_pull_request() {
    let pr = pull_request(
        Some("alice"),
        &["alice", "bob", "carol", "bob"],
        &["bob", "dave"],
        Some("carol"),
    );
    assert_eq!(
        pull_request_rows("cargo", &pr),
        vec![
            strings(&["alice", "cargo", "1", "1", "0", "0"]),
            strings(&["bob", "cargo", "1", "0", "1", "0"]),
            strings(&["carol", "cargo", "1", "0", "0", "1"]),
            strings(&["dave", "cargo", "1", "0", "1", "0"]),
        ]
    );
}

#[test]
fn observations_are_not_merged_across_pull_requests() {
    let prs = vec![
        pull_request(Some("alice"), &["alice"], &[], None),
        pull_request(Some("bob"), &["alice", "bob"], &["alice"], Some("alice")),
    ];
    assert_eq!(
        participant_rows("rust", &prs),
        vec![
            strings(&["alice", "rust", "1", "1", "0", "0"]),
            strings(&["bob", "rust", "1", "1", "0", "0"]),
            strings(&["alice", "rust", "1", "0", "1", "1"]),
        ]
    );
    assert!(participant_rows("rust", &Vec::new()).is_empty());
}

#[test]
fn participants_producer_end_to_end() {
    let fetch = |key: &CacheKey, vars: &QueryVariables| {
        assert_eq!(key.query_name, format!("{}.{}", vars.organisation, vars.repository));
        match (vars.repository.as_str(), key.page_index) {
            ("a", 0) => Ok(CachedPage {
                payload: String::from("alice|alice,bors,bob||bors\n"),
                cursor: Some(String::from("p2")),
            }),
            ("a", 1) => Ok(CachedPage { payload: String::from("bob|bob|alice|\n"), cursor: None }),
            ("b", 0) => Ok(CachedPage { payload: String::new(), cursor: None }),
            other => panic!("unexpected request {:?}", other),
        }
    };
    let cache = Graphql::new(String::from("dir"), false);
    let mut producer = Producer::RepoParticipants(RepoParticipants::new(cache, rust_lang(), 30));
    assert_eq!(
        producer.column_names(),
        strings(&[
            "Participant",
            "Repository",
            "PRs participated in",
            "PRs authored",
            "PRs reviewed",
            "PRs resolved"
        ])
    );
    let table = run_producer(&mut producer, 2, &fetch, &decode).unwrap();
    assert_eq!(
        text(table),
        "Participant,Repository,PRs participated in,PRs authored,PRs reviewed,PRs resolved\n\
         alice,a,1,1,0,0\n\
         bob,a,1,0,0,0\n\
         bob,a,1,1,0,0\n\
         alice,a,1,0,1,0\n"
    );
}

#[test]
fn participants_producer_stops_at_a_decode_failure() {
    let fetch = |_: &CacheKey, _: &QueryVariables| {
        Ok(CachedPage { payload: String::from("not a pull request"), cursor: None })
    };
    let cache = Graphql::new(String::from("dir"), false);
    let mut producer = RepoParticipants::new(cache, rust_lang(), 30);
    let mut pipeline = Pipeline::start(&producer.column_names(), 2);
    let outcome = producer.producer_task(&mut pipeline, &fetch, &decode);
    assert!(matches!(outcome, Err(Failure::DecodeError(_))));
    assert!(matches!(pipeline.finish(outcome), Err(Failure::DecodeError(_))));
    assert_eq!(producer.number_of_days(), 30);
    assert!(!producer.graphql().is_replay());
}
