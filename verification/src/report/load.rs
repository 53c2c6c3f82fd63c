//! Completing a configuration: a project that names no repositories stands
//! for all repositories of its organisation, which are asked for.

use crate::cache::{CacheKey, CachedPage, Graphql};
use crate::error::Failure;
use crate::paginate::{paginate, paginate_result, Page, QueryVariables};
use crate::report::{Github, ProjectConfig, ProjectConfigValue, ReportConfig};
use vstd::prelude::*;
use vstd::string::*;

verus! {

/// The variables of the query for all repositories of `organisation`.
pub open spec fn all_repos_variables(organisation: Seq<char>) -> (
    Seq<char>,
    Seq<char>,
    i64,
    Option<Seq<char>>,
) {
    (organisation, Seq::empty(), 0, None)
}

/// Asks for the names of all repositories of `organisation`, page by page,
/// under the organisation's name as the name of the query.
pub fn all_repos<F, D>(graphql: &mut Graphql, organisation: &str, fetch: &F, decode: &D) -> (names:
    Result<Vec<String>, Failure>) where
    F: Fn(&CacheKey, &QueryVariables) -> Result<CachedPage, Failure>,
    D: Fn(&CacheKey, &CachedPage) -> Result<Page<String>, Failure>,

    requires
        !old(graphql).replay() ==> forall|k: &CacheKey, v: &QueryVariables|
            call_requires(*fetch, (k, v)),
        forall|k: &CacheKey, c: &CachedPage| call_requires(*decode, (k, c)),
    ensures
        final(graphql).replay() == old(graphql).replay(),
        final(graphql).dir() == old(graphql).dir(),
        paginate_result(
            old(graphql)@,
            final(graphql)@,
            old(graphql).replay(),
            *fetch,
            *decode,
            organisation@,
            all_repos_variables(organisation@),
            names,
        ),
{
    let variables = QueryVariables {
        organisation: String::from_str(organisation),
        repository: String::new(),
        window_seconds: 0,
        cursor: None,
    };
    paginate(graphql, organisation, variables, fetch, decode)
}

/// How one organisation is completed. One that names repositories stays as
/// it is, and nothing is asked. For one that names none, all repositories of
/// the organisation are asked for and take their place; a failure of that
/// query is the outcome.
pub open spec fn github_completed<F, D>(
    cache: Map<(Seq<char>, u64), (Seq<char>, Option<Seq<char>>)>,
    next_cache: Map<(Seq<char>, u64), (Seq<char>, Option<Seq<char>>)>,
    replay: bool,
    fetch: F,
    decode: D,
    github: Github,
    outcome: Result<Github, Failure>,
) -> bool where
    F: Fn(&CacheKey, &QueryVariables) -> Result<CachedPage, Failure>,
    D: Fn(&CacheKey, &CachedPage) -> Result<Page<String>, Failure>,
 {
    if github.repos@.len() > 0 {
        next_cache == cache && outcome == Ok::<Github, Failure>(github)
    } else {
        exists|listed: Result<Vec<String>, Failure>|
            {
                &&& #[trigger] paginate_result(
                    cache,
                    next_cache,
                    replay,
                    fetch,
                    decode,
                    github.org@,
                    all_repos_variables(github.org@),
                    listed,
                )
                &&& match listed {
                    Ok(names) => outcome == Ok::<Github, Failure>(
                        Github { org: github.org, repos: names },
                    ),
                    Err(e) => outcome == Err::<Github, Failure>(e),
                }
            }
    }
}

/// How one entry of a project's table is completed: as its organisation is.
pub open spec fn value_completed<F, D>(
    cache: Map<(Seq<char>, u64), (Seq<char>, Option<Seq<char>>)>,
    next_cache: Map<(Seq<char>, u64), (Seq<char>, Option<Seq<char>>)>,
    replay: bool,
    fetch: F,
    decode: D,
    value: ProjectConfigValue,
    outcome: Result<ProjectConfigValue, Failure>,
) -> bool where
    F: Fn(&CacheKey, &QueryVariables) -> Result<CachedPage, Failure>,
    D: Fn(&CacheKey, &CachedPage) -> Result<Page<String>, Failure>,
 {
    match value {
        ProjectConfigValue::Github(github) => match outcome {
            Ok(ProjectConfigValue::Github(completed)) => github_completed(
                cache,
                next_cache,
                replay,
                fetch,
                decode,
                github,
                Ok::<Github, Failure>(completed),
            ),
            Err(e) => github_completed(
                cache,
                next_cache,
                replay,
                fetch,
                decode,
                github,
                Err::<Github, Failure>(e),
            ),
        },
    }
}

/// How things are completed one after the other, each by `step` from the
/// cache as the one before left it: `done` are those that were completed,
/// in their order, and `caches` the states of the cache before and after each
/// of them. Either all of `items` were completed, or the one after those that
/// were failed with `outcome`'s failure. `last_cache` is the cache at the end.
pub open spec fn completed_in_turn<T>(
    step: spec_fn(
        Map<(Seq<char>, u64), (Seq<char>, Option<Seq<char>>)>,
        Map<(Seq<char>, u64), (Seq<char>, Option<Seq<char>>)>,
        T,
        Result<T, Failure>,
    ) -> bool,
    caches: Seq<Map<(Seq<char>, u64), (Seq<char>, Option<Seq<char>>)>>,
    done: Seq<T>,
    last_cache: Map<(Seq<char>, u64), (Seq<char>, Option<Seq<char>>)>,
    items: Seq<T>,
    outcome: Result<Seq<T>, Failure>,
) -> bool {
    &&& caches.len() == done.len() + 1
    &&& done.len() <= items.len()
    &&& forall|i: int|
        0 <= i < done.len() ==> #[trigger] step(
            caches[i],
            caches[i + 1],
            items[i],
            Ok::<T, Failure>(done[i]),
        )
    &&& match outcome {
        Ok(all) => done.len() == items.len() && all == done && last_cache == caches.last(),
        Err(e) => done.len() < items.len() && step(
            caches.last(),
            last_cache,
            items[done.len() as int],
            Err::<T, Failure>(e),
        ),
    }
}

/// Whether `items` were completed in turn, from the cache `cache` to the cache
/// `last_cache`, with `outcome`.
pub open spec fn all_completed<T>(
    step: spec_fn(
        Map<(Seq<char>, u64), (Seq<char>, Option<Seq<char>>)>,
        Map<(Seq<char>, u64), (Seq<char>, Option<Seq<char>>)>,
        T,
        Result<T, Failure>,
    ) -> bool,
    cache: Map<(Seq<char>, u64), (Seq<char>, Option<Seq<char>>)>,
    last_cache: Map<(Seq<char>, u64), (Seq<char>, Option<Seq<char>>)>,
    items: Seq<T>,
    outcome: Result<Seq<T>, Failure>,
) -> bool {
    exists|caches: Seq<Map<(Seq<char>, u64), (Seq<char>, Option<Seq<char>>)>>, done: Seq<T>|
        {
            &&& #[trigger] completed_in_turn(step, caches, done, last_cache, items, outcome)
            &&& caches[0] == cache
        }
}

/// The step that completes one entry of a project's table.
pub open spec fn value_step<F, D>(replay: bool, fetch: F, decode: D) -> spec_fn(
    Map<(Seq<char>, u64), (Seq<char>, Option<Seq<char>>)>,
    Map<(Seq<char>, u64), (Seq<char>, Option<Seq<char>>)>,
    ProjectConfigValue,
    Result<ProjectConfigValue, Failure>,
) -> bool where
    F: Fn(&CacheKey, &QueryVariables) -> Result<CachedPage, Failure>,
    D: Fn(&CacheKey, &CachedPage) -> Result<Page<String>, Failure>,
 {
    |
        cache: Map<(Seq<char>, u64), (Seq<char>, Option<Seq<char>>)>,
        next_cache: Map<(Seq<char>, u64), (Seq<char>, Option<Seq<char>>)>,
        value: ProjectConfigValue,
        outcome: Result<ProjectConfigValue, Failure>,
    | value_completed(cache, next_cache, replay, fetch, decode, value, outcome)
}

/// How one project is completed: its entries are, in turn.
pub open spec fn project_completed<F, D>(
    cache: Map<(Seq<char>, u64), (Seq<char>, Option<Seq<char>>)>,
    next_cache: Map<(Seq<char>, u64), (Seq<char>, Option<Seq<char>>)>,
    replay: bool,
    fetch: F,
    decode: D,
    project: ProjectConfig,
    outcome: Result<ProjectConfig, Failure>,
) -> bool where
    F: Fn(&CacheKey, &QueryVariables) -> Result<CachedPage, Failure>,
    D: Fn(&CacheKey, &CachedPage) -> Result<Page<String>, Failure>,
 {
    all_completed(
        value_step(replay, fetch, decode),
        cache,
        next_cache,
        project.0@,
        match outcome {
            Ok(completed) => Ok::<Seq<ProjectConfigValue>, Failure>(completed.0@),
            Err(e) => Err::<Seq<ProjectConfigValue>, Failure>(e),
        },
    )
}

/// The step that completes one project.
pub open spec fn project_step<F, D>(replay: bool, fetch: F, decode: D) -> spec_fn(
    Map<(Seq<char>, u64), (Seq<char>, Option<Seq<char>>)>,
    Map<(Seq<char>, u64), (Seq<char>, Option<Seq<char>>)>,
    ProjectConfig,
    Result<ProjectConfig, Failure>,
) -> bool where
    F: Fn(&CacheKey, &QueryVariables) -> Result<CachedPage, Failure>,
    D: Fn(&CacheKey, &CachedPage) -> Result<Page<String>, Failure>,
 {
    |
        cache: Map<(Seq<char>, u64), (Seq<char>, Option<Seq<char>>)>,
        next_cache: Map<(Seq<char>, u64), (Seq<char>, Option<Seq<char>>)>,
        project: ProjectConfig,
        outcome: Result<ProjectConfig, Failure>,
    | project_completed(cache, next_cache, replay, fetch, decode, project, outcome)
}

impl Github {
    /// The organisation with its repositories: those that it names, or, where
    /// it names none, all that the organisation has.
    pub fn complete<F, D>(self, graphql: &mut Graphql, fetch: &F, decode: &D) -> (completed: Result<
        Github,
        Failure,
    >) where
        F: Fn(&CacheKey, &QueryVariables) -> Result<CachedPage, Failure>,
        D: Fn(&CacheKey, &CachedPage) -> Result<Page<String>, Failure>,

        requires
            !old(graphql).replay() ==> forall|k: &CacheKey, v: &QueryVariables|
                call_requires(*fetch, (k, v)),
            forall|k: &CacheKey, c: &CachedPage| call_requires(*decode, (k, c)),
        ensures
            final(graphql).replay() == old(graphql).replay(),
            final(graphql).dir() == old(graphql).dir(),
            github_completed(
                old(graphql)@,
                final(graphql)@,
                old(graphql).replay(),
                *fetch,
                *decode,
                self,
                completed,
            ),
    {
        if self.repos.len() > 0 {
            return Ok(self);
        }
        let listed = all_repos(graphql, self.org.as_str(), fetch, decode);
        let ghost answer = listed;
        let completed = match listed {
            Ok(names) => Ok(Github { org: self.org, repos: names }),
            Err(e) => Err(e),
        };
        proof {
            assert(paginate_result(
                old(graphql)@,
                graphql@,
                old(graphql).replay(),
                *fetch,
                *decode,
                self.org@,
                all_repos_variables(self.org@),
                answer,
            ));
        }
        completed
    }
}

impl ProjectConfigValue {
    /// The entry with its organisation completed.
    pub fn complete<F, D>(self, graphql: &mut Graphql, fetch: &F, decode: &D) -> (completed: Result<
        ProjectConfigValue,
        Failure,
    >) where
        F: Fn(&CacheKey, &QueryVariables) -> Result<CachedPage, Failure>,
        D: Fn(&CacheKey, &CachedPage) -> Result<Page<String>, Failure>,

        requires
            !old(graphql).replay() ==> forall|k: &CacheKey, v: &QueryVariables|
                call_requires(*fetch, (k, v)),
            forall|k: &CacheKey, c: &CachedPage| call_requires(*decode, (k, c)),
        ensures
            final(graphql).replay() == old(graphql).replay(),
            final(graphql).dir() == old(graphql).dir(),
            value_completed(
                old(graphql)@,
                final(graphql)@,
                old(graphql).replay(),
                *fetch,
                *decode,
                self,
                completed,
            ),
    {
        match self {
            ProjectConfigValue::Github(github) => match github.complete(graphql, fetch, decode) {
                Ok(completed) => Ok(ProjectConfigValue::Github(completed)),
                Err(e) => Err(e),
            },
        }
    }
}

impl ProjectConfig {
    /// The project with each of its entries completed, in turn. The first
    /// failure ends it.
    pub fn complete<F, D>(self, graphql: &mut Graphql, fetch: &F, decode: &D) -> (completed: Result<
        ProjectConfig,
        Failure,
    >) where
        F: Fn(&CacheKey, &QueryVariables) -> Result<CachedPage, Failure>,
        D: Fn(&CacheKey, &CachedPage) -> Result<Page<String>, Failure>,

        requires
            !old(graphql).replay() ==> forall|k: &CacheKey, v: &QueryVariables|
                call_requires(*fetch, (k, v)),
            forall|k: &CacheKey, c: &CachedPage| call_requires(*decode, (k, c)),
        ensures
            final(graphql).replay() == old(graphql).replay(),
            final(graphql).dir() == old(graphql).dir(),
            project_completed(
                old(graphql)@,
                final(graphql)@,
                old(graphql).replay(),
                *fetch,
                *decode,
                self,
                completed,
            ),
    {
        let ghost replay = graphql.replay();
        let ghost step = value_step(replay, *fetch, *decode);
        let ghost items = self.0@;
        let ghost mut caches = seq![graphql@];
        let mut values: Vec<ProjectConfigValue> = Vec::new();
        for value in it: self.0
            invariant
                it.seq() == items,
                items == self.0@,
                step == value_step(replay, *fetch, *decode),
                replay == old(graphql).replay(),
                graphql.replay() == replay,
                graphql.dir() == old(graphql).dir(),
                !replay ==> forall|k: &CacheKey, v: &QueryVariables| call_requires(*fetch, (k, v)),
                forall|k: &CacheKey, c: &CachedPage| call_requires(*decode, (k, c)),
                values@.len() == it.index(),
                caches.len() == it.index() + 1,
                caches[0] == old(graphql)@,
                caches.last() == graphql@,
                forall|i: int|
                    0 <= i < it.index() ==> #[trigger] step(
                        caches[i],
                        caches[i + 1],
                        items[i],
                        Ok::<ProjectConfigValue, Failure>(values@[i]),
                    ),
        {
            let ghost cache_before = graphql@;
            match value.complete(graphql, fetch, decode) {
                Ok(completed) => {
                    proof {
                        let earlier = caches;
                        let earlier_values = values@;
                        caches = caches.push(graphql@);
                        assert(step(
                            cache_before,
                            graphql@,
                            value,
                            Ok::<ProjectConfigValue, Failure>(completed),
                        ));
                        assert forall|i: int| 0 <= i < it.index() + 1 implies #[trigger] step(
                            caches[i],
                            caches[i + 1],
                            items[i],
                            Ok::<ProjectConfigValue, Failure>(values@.push(completed)[i]),
                        ) by {
                            if i < it.index() {
                                assert(step(
                                    earlier[i],
                                    earlier[i + 1],
                                    items[i],
                                    Ok::<ProjectConfigValue, Failure>(earlier_values[i]),
                                ));
                            }
                        }
                    }
                    values.push(completed);
                },
                Err(e) => {
                    proof {
                        assert(step(
                            cache_before,
                            graphql@,
                            value,
                            Err::<ProjectConfigValue, Failure>(e),
                        ));
                        assert(completed_in_turn(
                            step,
                            caches,
                            values@,
                            graphql@,
                            items,
                            Err::<Seq<ProjectConfigValue>, Failure>(e),
                        ));
                    }
                    return Err(e);
                },
            }
        }
        proof {
            assert(completed_in_turn(
                step,
                caches,
                values@,
                graphql@,
                items,
                Ok::<Seq<ProjectConfigValue>, Failure>(values@),
            ));
        }
        Ok(ProjectConfig(values))
    }
}

impl ReportConfig {
    /// The configuration with each of its projects completed, in turn: where
    /// a project names no repositories, all repositories of its organisation
    /// are asked for through `graphql`. The first failure ends it. The rest
    /// of the configuration stays as it is.
    pub fn complete<F, D>(self, graphql: &mut Graphql, fetch: &F, decode: &D) -> (completed: Result<
        ReportConfig,
        Failure,
    >) where
        F: Fn(&CacheKey, &QueryVariables) -> Result<CachedPage, Failure>,
        D: Fn(&CacheKey, &CachedPage) -> Result<Page<String>, Failure>,

        requires
            !old(graphql).replay() ==> forall|k: &CacheKey, v: &QueryVariables|
                call_requires(*fetch, (k, v)),
            forall|k: &CacheKey, c: &CachedPage| call_requires(*decode, (k, c)),
        ensures
            final(graphql).replay() == old(graphql).replay(),
            final(graphql).dir() == old(graphql).dir(),
            completed matches Ok(config) ==> config.high_contributor == self.high_contributor
                && config.data_source == self.data_source,
            all_completed(
                project_step(old(graphql).replay(), *fetch, *decode),
                old(graphql)@,
                final(graphql)@,
                self.project@,
                match completed {
                    Ok(config) => Ok::<Seq<ProjectConfig>, Failure>(config.project@),
                    Err(e) => Err::<Seq<ProjectConfig>, Failure>(e),
                },
            ),
    {
        let ghost replay = graphql.replay();
        let ghost step = project_step(replay, *fetch, *decode);
        let ghost items = self.project@;
        let ghost mut caches = seq![graphql@];
        let mut projects: Vec<ProjectConfig> = Vec::new();
        let high_contributor = self.high_contributor;
        let data_source = self.data_source;
        for project in it: self.project
            invariant
                it.seq() == items,
                items == self.project@,
                step == project_step(replay, *fetch, *decode),
                replay == old(graphql).replay(),
                graphql.replay() == replay,
                graphql.dir() == old(graphql).dir(),
                !replay ==> forall|k: &CacheKey, v: &QueryVariables| call_requires(*fetch, (k, v)),
                forall|k: &CacheKey, c: &CachedPage| call_requires(*decode, (k, c)),
                projects@.len() == it.index(),
                caches.len() == it.index() + 1,
                caches[0] == old(graphql)@,
                caches.last() == graphql@,
                forall|i: int|
                    0 <= i < it.index() ==> #[trigger] step(
                        caches[i],
                        caches[i + 1],
                        items[i],
                        Ok::<ProjectConfig, Failure>(projects@[i]),
                    ),
        {
            let ghost cache_before = graphql@;
            match project.complete(graphql, fetch, decode) {
                Ok(completed) => {
                    proof {
                        let earlier = caches;
                        let earlier_projects = projects@;
                        caches = caches.push(graphql@);
                        assert(step(
                            cache_before,
                            graphql@,
                            project,
                            Ok::<ProjectConfig, Failure>(completed),
                        ));
                        assert forall|i: int| 0 <= i < it.index() + 1 implies #[trigger] step(
                            caches[i],
                            caches[i + 1],
                            items[i],
                            Ok::<ProjectConfig, Failure>(projects@.push(completed)[i]),
                        ) by {
                            if i < it.index() {
                                assert(step(
                                    earlier[i],
                                    earlier[i + 1],
                                    items[i],
                                    Ok::<ProjectConfig, Failure>(earlier_projects[i]),
                                ));
                            }
                        }
                    }
                    projects.push(completed);
                },
                Err(e) => {
                    proof {
                        assert(step(
                            cache_before,
                            graphql@,
                            project,
                            Err::<ProjectConfig, Failure>(e),
                        ));
                        assert(completed_in_turn(
                            step,
                            caches,
                            projects@,
                            graphql@,
                            items,
                            Err::<Seq<ProjectConfig>, Failure>(e),
                        ));
                    }
                    return Err(e);
                },
            }
        }
        proof {
            assert(completed_in_turn(
                step,
                caches,
                projects@,
                graphql@,
                items,
                Ok::<Seq<ProjectConfig>, Failure>(projects@),
            ));
        }
        Ok(ReportConfig { project: projects, high_contributor, data_source })
    }
}

} // verus!
