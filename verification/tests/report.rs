use optopodi::cache::{CacheKey, CachedPage, Graphql};
use optopodi::error::Failure;
use optopodi::paginate::{Page, QueryVariables};
use optopodi::report::load::all_repos;
use optopodi::report::repo_info::{percentage, RepoInfo, RepoInfos};
use optopodi::report::repo_participant::{is_robot, RepoParticipant, RepoParticipants};
use optopodi::report::util::{organisation_repositories, GitHubOrganization};
use optopodi::report::{
    DataSourceConfig, Github, HighContributorConfig, ProjectConfig, ProjectConfigValue, Report,
    ReportConfig, ReportData,
};

fn strings(words: &[&str]) -> Vec<String> {
    words.iter().map(|w| String::from(*w)).collect()
}

fn participant(name: &str, repo: &str, counts: [u64; 4]) -> RepoParticipant {
    RepoParticipant {
        row: 0,
        participant: String::from(name),
        repo: String::from(repo),
        participated_in: counts[0],
        authored: counts[1],
        reviewed: counts[2],
        resolved: counts[3],
    }
}

fn info(repo: &str, num_prs: u64) -> RepoInfo {
    RepoInfo { row: 0, repo: String::from(repo), num_prs }
}

fn config(projects: Vec<ProjectConfig>) -> ReportConfig {
    ReportConfig {
        project: projects,
        high_contributor: HighContributorConfig {
            high_reviewer_min_percentage: 25,
            high_reviewer_min_prs: 10,
            reviewer_saturation_threshold: 100,
            author_saturation_threshold: 100,
            high_participant_min_percentage: 50,
            high_participant_min_prs: 5,
            high_author_min_percentage: 30,
            high_author_min_prs: 3,
            high_contributor_categories_threshold: 2,
        },
        data_source: DataSourceConfig { number_of_days: 30 },
    }
}

fn github(org: &str, repos: &[&str]) -> ProjectConfigValue {
    ProjectConfigValue::Github(Github { org: String::from(org), repos: strings(repos) })
}

#[test]
fn report_lays_out_its_directories() {
    let report = Report::new(String::from("data"), true);
    assert_eq!(report.config_file(), "data/report.toml");
    assert_eq!(report.graphql_dir(), "data/graphql");
    assert_eq!(report.input_dir(), "data/inputs");
    assert_eq!(report.output_dir(), "data/output");
    assert_eq!(report.repo_infos_file(), "data/inputs/repo-infos.csv");
    assert_eq!(report.repo_participants_file(), "data/inputs/repo-participants.csv");
    assert_eq!(report.directories(), strings(&["data/graphql", "data/inputs", "data/output"]));
}

#[test]
fn report_makes_caches_in_its_mode() {
    let replaying = Report::new(String::from("data"), true).graphql("repo-infos");
    assert_eq!(replaying.directory(), "data/graphql/repo-infos");
    assert!(replaying.is_replay());
    assert!(replaying.lookup(&CacheKey::new("any", 0)).is_none());
    let live = Report::new(String::from("/tmp/x"), false).graphql("all-repos");
    assert_eq!(live.directory(), "/tmp/x/graphql/all-repos");
    assert!(!live.is_replay());
}

#[test]
fn percentage_is_the_share_rounded_down() {
    assert_eq!(percentage(1, 3), 33);
    assert_eq!(percentage(2, 3), 66);
    assert_eq!(percentage(5, 5), 100);
    assert_eq!(percentage(0, 9), 0);
    assert_eq!(percentage(7, 2), 350);
    assert_eq!(percentage(3, 0), 0);
    assert_eq!(percentage(u64::MAX, u64::MAX), 100);
    assert_eq!(percentage(u64::MAX, 1), u64::MAX);
    assert_eq!(percentage(u64::MAX, 100), u64::MAX);
    assert_eq!(percentage(u64::MAX, 101), 18264103043276783777);
}

#[test]
fn reviewed_or_resolved_is_the_larger() {
    assert_eq!(participant("a", "r", [0, 0, 3, 7]).reviewed_or_resolved(), 7);
    assert_eq!(participant("a", "r", [0, 0, 9, 7]).reviewed_or_resolved(), 9);
    assert_eq!(participant("a", "r", [0, 0, 4, 4]).reviewed_or_resolved(), 4);
}

#[test]
fn high_contributor_needs_enough_categories() {
    let cfg = config(Vec::new());
    let repo = info("rust", 20);
    // reviewing: 6 of 20 is 30% > 25%; author: 7 of 20 is 35% > 30% and 7 > 3
    assert!(repo.is_high_contributor(&cfg, &participant("a", "rust", [7, 7, 6, 0])));
    // reviewing only (11 > 10 pull requests)
    assert!(!repo.is_high_contributor(&cfg, &participant("a", "rust", [0, 0, 0, 11])));
    // participant: 11 of 20 is 55% > 50% and 11 > 5; author 35%
    assert!(repo.is_high_contributor(&cfg, &participant("a", "rust", [11, 7, 0, 0])));
    // a high share alone does not make a high author: 3 is not more than 3
    let small = info("tiny", 4);
    assert!(!small.is_high_contributor(&cfg, &participant("a", "tiny", [3, 3, 0, 0])));
    // the bounds are strict: 25% is not more than 25%
    assert!(!repo.is_high_contributor(&cfg, &participant("a", "rust", [0, 7, 5, 5])));
    // all three
    assert!(repo.is_high_contributor(&cfg, &participant("a", "rust", [20, 20, 20, 20])));
}

#[test]
fn high_contributor_threshold_zero_takes_everyone() {
    let mut cfg = config(Vec::new());
    cfg.high_contributor.high_contributor_categories_threshold = 0;
    assert!(info("r", 0).is_high_contributor(&cfg, &participant("a", "r", [0, 0, 0, 0])));
    cfg.high_contributor.high_contributor_categories_threshold = 4;
    assert!(!info("r", 1).is_high_contributor(&cfg, &participant("a", "r", [99, 99, 99, 99])));
}

#[test]
fn robots_are_known_by_name() {
    for bot in ["rust-highfive", "bors", "rustbot", "rust-log-analyzer", "rust-timer", "rfcbot"] {
        assert!(is_robot(bot), "{}", bot);
    }
    for person in ["alice", "Bors", "bors ", "", "rust", "rfcbot2"] {
        assert!(!is_robot(person), "{:?}", person);
    }
}

#[test]
fn records_of_robots_are_dropped() {
    let records = vec![
        participant("alice", "rust", [1, 0, 0, 0]),
        participant("bors", "rust", [9, 0, 0, 9]),
        participant("bob", "cargo", [2, 0, 0, 0]),
        participant("rust-timer", "rust", [3, 0, 0, 0]),
        participant("alice", "rust", [4, 0, 0, 0]),
    ];
    let table = RepoParticipants::from_records(&records);
    let kept: Vec<(&str, u64)> =
        table.participants.iter().map(|p| (p.participant.as_str(), p.participated_in)).collect();
    assert_eq!(kept, vec![("alice", 1), ("bob", 2), ("alice", 4)]);
}

#[test]
fn in_repo_keeps_the_order_of_the_table() {
    let table = RepoParticipants {
        participants: vec![
            participant("a", "rust", [1, 0, 0, 0]),
            participant("b", "cargo", [2, 0, 0, 0]),
            participant("c", "rust", [3, 0, 0, 0]),
        ],
    };
    let rust = info("rust", 10);
    let names: Vec<&str> =
        table.in_repo(&rust).iter().map(|p| p.participant.as_str()).collect();
    assert_eq!(names, vec!["a", "c"]);
    assert!(table.in_repo(&info("none", 1)).is_empty());
}

#[test]
fn top_participant_is_the_last_of_the_largest() {
    let table = RepoParticipants {
        participants: vec![
            participant("a", "rust", [5, 1, 0, 0]),
            participant("b", "rust", [9, 2, 0, 0]),
            participant("x", "cargo", [50, 50, 0, 0]),
            participant("c", "rust", [9, 0, 0, 0]),
            participant("d", "rust", [1, 3, 0, 0]),
        ],
    };
    let rust = info("rust", 20);
    assert_eq!(table.top_participant(&rust, |p| p.participated_in), (String::from("c"), 45));
    assert_eq!(table.top_participant(&rust, |p| p.authored), (String::from("d"), 15));
    assert_eq!(table.top_participant(&rust, |p| p.reviewed_or_resolved()), (String::from("d"), 0));
    assert_eq!(
        table.top_participant(&info("cargo", 0), |p| p.authored),
        (String::from("x"), 0)
    );
}

#[test]
fn top_participant_of_nobody() {
    let table = RepoParticipants { participants: Vec::new() };
    assert_eq!(table.top_participant(&info("rust", 20), |p| p.authored), (String::from("N/A"), 0));
}

#[test]
fn repo_infos_are_found_by_name() {
    let infos = RepoInfos::from_records(vec![info("rust", 10), info("cargo", 3), info("rust", 12)]);
    assert_eq!(infos.get("rust").num_prs, 12);
    assert_eq!(infos.get("cargo").num_prs, 3);
    assert_eq!(infos.find("cargo").unwrap().repo, "cargo");
    assert!(infos.find("clippy").is_none());
    assert!(RepoInfos::from_records(Vec::new()).find("rust").is_none());
    let data = ReportData {
        repo_participants: RepoParticipants { participants: Vec::new() },
        repo_infos: infos,
    };
    assert_eq!(data.repo_infos.get("rust").clone().num_prs, 12);
}

#[test]
fn organisations_keep_names_and_order() {
    let organisation = GitHubOrganization::new("rust-lang", &strings(&["rust", "cargo"]));
    assert_eq!(organisation.organisation_name(), "rust-lang");
    assert_eq!(organisation.repository_names(), strings(&["rust", "cargo"]).as_slice());

    let one = Github { org: String::from("a"), repos: strings(&["x"]) };
    let two = Github { org: String::from("b"), repos: strings(&["y", "z"]) };
    let organisations = organisation_repositories(&[&one, &two]);
    assert_eq!(organisations.len(), 2);
    assert_eq!(organisations[0].organisation_name(), "a");
    assert_eq!(organisations[0].repository_names(), strings(&["x"]).as_slice());
    assert_eq!(organisations[1].organisation_name(), "b");
    assert_eq!(organisations[1].repository_names(), strings(&["y", "z"]).as_slice());
    assert!(organisation_repositories(&[]).is_empty());
}

#[test]
fn project_entries_must_fit_their_key() {
    let ok = github("rust-lang", &["rust"]).map_by_pair("github").unwrap();
    match ok {
        ProjectConfigValue::Github(g) => {
            assert_eq!(g.org, "rust-lang");
            assert_eq!(g.repos, strings(&["rust"]));
        }
    }
    let bad = github("rust-lang", &[]).map_by_pair("gitlab").unwrap_err();
    assert_eq!(bad.field, "gitlab");
    assert_eq!(bad.describe(), "Invalid field 'gitlab' found for 'project' in report.toml");
    assert!(github("x", &[]).map_by_pair("Github").is_err());
    assert!(github("x", &[]).map_by_pair("").is_err());
}

#[test]
fn project_is_made_of_its_entries() {
    let project = ProjectConfig::try_from(vec![
        (String::from("github"), github("a", &["1"])),
        (String::from("github"), github("b", &[])),
    ])
    .unwrap();
    assert_eq!(project.0.len(), 2);
    let err = ProjectConfig::try_from(vec![
        (String::from("github"), github("a", &["1"])),
        (String::from("hub"), github("b", &[])),
        (String::from("lab"), github("c", &[])),
    ])
    .unwrap_err();
    assert_eq!(err.field, "hub");
    assert!(ProjectConfig::try_from(Vec::new()).unwrap().0.is_empty());
}

#[test]
fn github_projects_are_listed_in_order() {
    let cfg = config(vec![
        ProjectConfig(vec![github("a", &["1"]), github("b", &[])]),
        ProjectConfig(Vec::new()),
        ProjectConfig(vec![github("c", &["2", "3"])]),
    ]);
    let orgs: Vec<&str> = cfg.github_projects().iter().map(|g| g.org.as_str()).collect();
    assert_eq!(orgs, vec!["a", "b", "c"]);
    assert_eq!(cfg.data_source.number_of_days, 30);
}

fn names(_: &CacheKey, page: &CachedPage) -> Result<Page<String>, Failure> {
    Ok(Page {
        items: page.payload.split_whitespace().map(String::from).collect(),
        next_cursor: page.cursor.clone(),
    })
}

fn repositories(key: &CacheKey, vars: &QueryVariables) -> Result<CachedPage, Failure> {
    assert_eq!(key.query_name, vars.organisation);
    assert_eq!(vars.repository, "");
    match (vars.organisation.as_str(), key.page_index) {
        ("b", 0) => Ok(CachedPage { payload: String::from("x y"), cursor: Some(String::from("n")) }),
        ("b", 1) => Ok(CachedPage { payload: String::from("z"), cursor: None }),
        ("down", _) => Err(Failure::NetworkError(key.clone())),
        other => panic!("unexpected request {:?}", other),
    }
}

#[test]
fn all_repos_lists_every_page() {
    let mut cache = Graphql::new(String::from("data/graphql/all-repos"), false);
    assert_eq!(all_repos(&mut cache, "b", &repositories, &names).unwrap(), strings(&["x", "y", "z"]));
}

#[test]
fn projects_without_repositories_get_all_of_them() {
    let cfg = config(vec![
        ProjectConfig(vec![github("a", &["1"]), github("b", &[])]),
        ProjectConfig(vec![github("c", &["2", "3"])]),
    ]);
    let mut cache = Graphql::new(String::from("data/graphql/all-repos"), false);
    let completed = cfg.complete(&mut cache, &repositories, &names).unwrap();
    let listed: Vec<(String, Vec<String>)> = completed
        .github_projects()
        .iter()
        .map(|g| (g.org.clone(), g.repos.clone()))
        .collect();
    assert_eq!(
        listed,
        vec![
            (String::from("a"), strings(&["1"])),
            (String::from("b"), strings(&["x", "y", "z"])),
            (String::from("c"), strings(&["2", "3"])),
        ]
    );
    assert_eq!(completed.project.len(), 2);
    assert_eq!(completed.project[0].0.len(), 2);
    assert_eq!(completed.data_source.number_of_days, 30);
    assert_eq!(completed.high_contributor.high_author_min_prs, 3);
    assert!(cache.lookup(&CacheKey::new("b", 1)).is_some());
}

#[test]
fn a_failed_listing_fails_the_configuration() {
    let cfg = config(vec![ProjectConfig(vec![github("down", &[]), github("b", &[])])]);
    let mut cache = Graphql::new(String::from("dir"), false);
    match cfg.complete(&mut cache, &repositories, &names) {
        Err(Failure::NetworkError(key)) => assert_eq!(key.query_name, "down"),
        other => panic!("expected the network failure, got {:?}", other),
    }
    assert!(cache.lookup(&CacheKey::new("b", 0)).is_none());
}
