//! The producer of the table of pull requests per repository.

use crate::cache::{CacheKey, CachedPage, Graphql};
use crate::error::Failure;
use crate::metrics::util::{
    count_pull_requests, count_result, is_window, pair_text, pairs_of, repo_pairs, seconds_of,
    window_seconds, PullRequest,
};
use crate::paginate::{Page, QueryVariables};
use crate::pipeline::{Pipeline, PipelineState};
use crate::report::util::GitHubOrganization;
use crate::sink::row_text;
use crate::text::{decimal, decimal_digits};
use vstd::prelude::*;
use vstd::string::*;

verus! {

/// The names of the two columns.
pub open spec fn repo_columns() -> Seq<Seq<char>> {
    seq!["Repository Name"@, "# of PRs"@]
}

/// Whether `row` is the row of `repository` with `count` pull requests: the
/// repository's name, then the count in decimal.
pub open spec fn is_repo_row(row: Vec<String>, repository: Seq<char>, count: u64) -> bool {
    &&& row@.len() == 2
    &&& row@[0]@ == repository
    &&& row@[1]@ == decimal_digits(count as nat)
}

/// The row of a repository has one field for each of the two columns.
pub proof fn lemma_repo_row_fits_columns(row: Vec<String>, repository: Seq<char>, count: u64)
    requires
        is_repo_row(row, repository, count),
    ensures
        row@.len() == repo_columns().len(),
{
}

/// The row of `repository` with `count` pull requests.
pub fn repo_row(repository: &str, count: u64) -> (row: Vec<String>)
    ensures
        is_repo_row(row, repository@, count),
{
    let mut row: Vec<String> = Vec::new();
    row.push(String::from_str(repository));
    row.push(decimal(count));
    row
}

/// Whether the row of `repository` with `count` pull requests was sent into
/// `pipeline`, with `outcome`, and left it as `next_pipeline`.
pub open spec fn row_sent(
    pipeline: PipelineState,
    next_pipeline: PipelineState,
    repository: Seq<char>,
    count: u64,
    outcome: Result<(), Failure>,
) -> bool {
    exists|row: Vec<String>|
        {
            &&& #[trigger] is_repo_row(row, repository, count)
            &&& next_pipeline == pipeline.after_send(row)
            &&& outcome == pipeline.send_result(row)
        }
}

/// What the producer does for one repository: it counts the repository's pull
/// requests and sends the repository's row. A failure of the count is the
/// outcome, and nothing is sent; else the outcome is that of the send.
pub open spec fn listing_step<F, D>(
    cache: Map<(Seq<char>, u64), (Seq<char>, Option<Seq<char>>)>,
    next_cache: Map<(Seq<char>, u64), (Seq<char>, Option<Seq<char>>)>,
    pipeline: PipelineState,
    next_pipeline: PipelineState,
    replay: bool,
    fetch: F,
    decode: D,
    pair: (Seq<char>, Seq<char>),
    window: i64,
    outcome: Result<(), Failure>,
) -> bool where
    F: Fn(&CacheKey, &QueryVariables) -> Result<CachedPage, Failure>,
    D: Fn(&CacheKey, &CachedPage) -> Result<Page<PullRequest>, Failure>,
 {
    exists|counted: Result<u64, Failure>|
        {
            &&& #[trigger] count_result(
                cache,
                next_cache,
                replay,
                fetch,
                decode,
                pair.0,
                pair.1,
                window,
                counted,
            )
            &&& match counted {
                Err(e) => next_pipeline == pipeline && outcome == Err::<(), Failure>(e),
                Ok(n) => row_sent(pipeline, next_pipeline, pair.1, n, outcome),
            }
        }
}

/// Whether the step for the repository `i` succeeded, from the cache and the
/// pipeline as the step before left them.
pub open spec fn listed<F, D>(
    caches: Seq<Map<(Seq<char>, u64), (Seq<char>, Option<Seq<char>>)>>,
    pipelines: Seq<PipelineState>,
    replay: bool,
    fetch: F,
    decode: D,
    pairs: Seq<(Seq<char>, Seq<char>)>,
    window: i64,
    i: int,
) -> bool where
    F: Fn(&CacheKey, &QueryVariables) -> Result<CachedPage, Failure>,
    D: Fn(&CacheKey, &CachedPage) -> Result<Page<PullRequest>, Failure>,
 {
    listing_step(
        caches[i],
        caches[i + 1],
        pipelines[i],
        pipelines[i + 1],
        replay,
        fetch,
        decode,
        pairs[i],
        window,
        Ok::<(), Failure>(()),
    )
}

/// What the producer does: it visits the repositories `pairs` in their order
/// and takes the step for each. It stops at the first step that fails, with
/// that failure; after the last repository it is done. `caches` and
/// `pipelines` are the states before and after each step that succeeded.
pub open spec fn listing_result<F, D>(
    caches: Seq<Map<(Seq<char>, u64), (Seq<char>, Option<Seq<char>>)>>,
    pipelines: Seq<PipelineState>,
    last_cache: Map<(Seq<char>, u64), (Seq<char>, Option<Seq<char>>)>,
    last_pipeline: PipelineState,
    replay: bool,
    fetch: F,
    decode: D,
    pairs: Seq<(Seq<char>, Seq<char>)>,
    window: i64,
    outcome: Result<(), Failure>,
) -> bool where
    F: Fn(&CacheKey, &QueryVariables) -> Result<CachedPage, Failure>,
    D: Fn(&CacheKey, &CachedPage) -> Result<Page<PullRequest>, Failure>,
 {
    &&& caches.len() == pipelines.len()
    &&& 0 < caches.len() <= pairs.len() + 1
    &&& forall|i: int|
        0 <= i < caches.len() - 1 ==> #[trigger] listed(
            caches,
            pipelines,
            replay,
            fetch,
            decode,
            pairs,
            window,
            i,
        )
    &&& match outcome {
        Ok(()) => {
            &&& caches.len() == pairs.len() + 1
            &&& last_cache == caches.last()
            &&& last_pipeline == pipelines.last()
        },
        Err(e) => {
            &&& caches.len() <= pairs.len()
            &&& listing_step(
                caches.last(),
                last_cache,
                pipelines.last(),
                last_pipeline,
                replay,
                fetch,
                decode,
                pairs[caches.len() - 1],
                window,
                Err::<(), Failure>(e),
            )
        },
    }
}

/// What `producer_task` does: there is a course of steps, from the cache
/// `cache` and the pipeline `pipeline`, that ends in `outcome` and leaves them
/// as `last_cache` and `last_pipeline`.
pub open spec fn task_result<F, D>(
    cache: Map<(Seq<char>, u64), (Seq<char>, Option<Seq<char>>)>,
    last_cache: Map<(Seq<char>, u64), (Seq<char>, Option<Seq<char>>)>,
    pipeline: PipelineState,
    last_pipeline: PipelineState,
    replay: bool,
    fetch: F,
    decode: D,
    pairs: Seq<(Seq<char>, Seq<char>)>,
    window: i64,
    outcome: Result<(), Failure>,
) -> bool where
    F: Fn(&CacheKey, &QueryVariables) -> Result<CachedPage, Failure>,
    D: Fn(&CacheKey, &CachedPage) -> Result<Page<PullRequest>, Failure>,
 {
    exists|
        caches: Seq<Map<(Seq<char>, u64), (Seq<char>, Option<Seq<char>>)>>,
        pipelines: Seq<PipelineState>,
    |
        {
            &&& #[trigger] listing_result(
                caches,
                pipelines,
                last_cache,
                last_pipeline,
                replay,
                fetch,
                decode,
                pairs,
                window,
                outcome,
            )
            &&& caches[0] == cache
            &&& pipelines[0] == pipeline
        }
}

/// Counts, for each repository of each organisation, the pull requests of the
/// trailing window.
#[derive(Debug)]
pub struct ListReposForOrg {
    graphql: Graphql,
    org_repos: Vec<GitHubOrganization>,
    number_of_days: i64,
}

impl ListReposForOrg {
    /// The cache that the producer asks through.
    pub closed spec fn cache(&self) -> Graphql {
        self.graphql
    }

    /// The organisations whose repositories the producer visits.
    pub closed spec fn organisations(&self) -> Seq<GitHubOrganization> {
        self.org_repos@
    }

    /// The length of the trailing window in days.
    pub closed spec fn days(&self) -> i64 {
        self.number_of_days
    }

    pub fn new(graphql: Graphql, org_repos: Vec<GitHubOrganization>, number_of_days: i64) -> (producer:
        Self)
        ensures
            producer.cache() == graphql,
            producer.organisations() == org_repos@,
            producer.days() == number_of_days,
    {
        ListReposForOrg { graphql, org_repos, number_of_days }
    }

    /// The cache that the producer asks through.
    pub fn graphql(&self) -> (cache: &Graphql)
        ensures
            *cache == self.cache(),
    {
        &self.graphql
    }

    /// The length of the trailing window in days.
    pub fn number_of_days(&self) -> (days: i64)
        ensures
            days == self.days(),
    {
        self.number_of_days
    }

    /// The names of the two columns.
    pub fn column_names(&self) -> (names: Vec<String>)
        ensures
            row_text(names) == repo_columns(),
    {
        let mut names: Vec<String> = Vec::new();
        names.push(String::from_str("Repository Name"));
        names.push(String::from_str("# of PRs"));
        assert(row_text(names) =~= repo_columns());
        names
    }

    /// Sends one row for each repository, in the order in which the
    /// repositories are configured: the repository's name and the number of
    /// its pull requests. The first failure, of a query or of a send, ends
    /// the task.
    pub fn producer_task<F, D>(&mut self, tx: &mut Pipeline, fetch: &F, decode: &D) -> (outcome:
        Result<(), Failure>) where
        F: Fn(&CacheKey, &QueryVariables) -> Result<CachedPage, Failure>,
        D: Fn(&CacheKey, &CachedPage) -> Result<Page<PullRequest>, Failure>,

        requires
            is_window(old(self).days()),
            old(tx)@.well_formed(),
            !old(self).cache().replay() ==> forall|k: &CacheKey, v: &QueryVariables|
                call_requires(*fetch, (k, v)),
            forall|k: &CacheKey, c: &CachedPage| call_requires(*decode, (k, c)),
        ensures
            final(self).organisations() == old(self).organisations(),
            final(self).days() == old(self).days(),
            final(self).cache().replay() == old(self).cache().replay(),
            final(self).cache().dir() == old(self).cache().dir(),
            final(tx)@.well_formed(),
            task_result(
                old(self).cache()@,
                final(self).cache()@,
                old(tx)@,
                final(tx)@,
                old(self).cache().replay(),
                *fetch,
                *decode,
                pairs_of(old(self).organisations()),
                seconds_of(old(self).days()),
                outcome,
            ),
    {
        let window: i64 = match window_seconds(self.number_of_days) {
            Some(seconds) => seconds,
            None => {
                proof {
                    assert(false);
                }
                0
            },
        };
        let pairs = repo_pairs(&self.org_repos);
        let ghost texts = pairs_of(self.org_repos@);
        let ghost replay = self.graphql.replay();
        let ghost mut caches = seq![self.graphql@];
        let ghost mut pipelines = seq![tx@];
        let mut i: usize = 0;
        while i < pairs.len()
            invariant
                self.org_repos == old(self).org_repos,
                self.number_of_days == old(self).number_of_days,
                self.graphql.replay() == replay,
                replay == old(self).graphql.replay(),
                self.graphql.dir() == old(self).graphql.dir(),
                window == seconds_of(old(self).days()),
                texts == pairs_of(old(self).organisations()),
                tx@.well_formed(),
                !replay ==> forall|k: &CacheKey, v: &QueryVariables| call_requires(*fetch, (k, v)),
                forall|k: &CacheKey, c: &CachedPage| call_requires(*decode, (k, c)),
                pairs@.len() == texts.len(),
                forall|k: int| 0 <= k < pairs@.len() ==> pair_text(#[trigger] pairs@[k]) == texts[k],
                i <= pairs@.len(),
                caches.len() == i + 1,
                pipelines.len() == i + 1,
                caches[0] == old(self).graphql@,
                pipelines[0] == old(tx)@,
                caches.last() == self.graphql@,
                pipelines.last() == tx@,
                forall|k: int|
                    0 <= k < i ==> #[trigger] listed(
                        caches,
                        pipelines,
                        replay,
                        *fetch,
                        *decode,
                        texts,
                        window,
                        k,
                    ),
            decreases pairs@.len() - i,
        {
            let organisation: &str = pairs[i].0.as_str();
            let repository: &str = pairs[i].1.as_str();
            assert(pair_text(pairs@[i as int]) == texts[i as int]);
            let ghost cache_before = self.graphql@;
            let ghost pipeline_before = tx@;
            let counted = count_pull_requests(
                &mut self.graphql,
                organisation,
                repository,
                window,
                fetch,
                decode,
            );
            let ghost answer = counted;
            proof {
                assert(organisation@ == texts[i as int].0);
                assert(repository@ == texts[i as int].1);
                assert(count_result(
                    cache_before,
                    self.graphql@,
                    replay,
                    *fetch,
                    *decode,
                    texts[i as int].0,
                    texts[i as int].1,
                    window,
                    answer,
                ));
            }
            match counted {
                Err(e) => {
                    proof {
                        assert(listing_step(
                            cache_before,
                            self.graphql@,
                            pipeline_before,
                            tx@,
                            replay,
                            *fetch,
                            *decode,
                            texts[i as int],
                            window,
                            Err::<(), Failure>(e),
                        ));
                        assert(listing_result(
                            caches,
                            pipelines,
                            self.graphql@,
                            tx@,
                            replay,
                            *fetch,
                            *decode,
                            texts,
                            window,
                            Err::<(), Failure>(e),
                        ));
                        assert(task_result(
                            old(self).graphql@,
                            self.graphql@,
                            old(tx)@,
                            tx@,
                            replay,
                            *fetch,
                            *decode,
                            texts,
                            window,
                            Err::<(), Failure>(e),
                        ));
                    }
                    return Err(e);
                },
                Ok(n) => {
                    let row = repo_row(repository, n);
                    let ghost sent = row;
                    let delivered = tx.send(row);
                    proof {
                        assert(is_repo_row(sent, texts[i as int].1, n));
                        assert(row_sent(pipeline_before, tx@, texts[i as int].1, n, delivered));
                        assert(listing_step(
                            cache_before,
                            self.graphql@,
                            pipeline_before,
                            tx@,
                            replay,
                            *fetch,
                            *decode,
                            texts[i as int],
                            window,
                            delivered,
                        ));
                    }
                    match delivered {
                        Err(e) => {
                            proof {
                                assert(listing_result(
                                    caches,
                                    pipelines,
                                    self.graphql@,
                                    tx@,
                                    replay,
                                    *fetch,
                                    *decode,
                                    texts,
                                    window,
                                    Err::<(), Failure>(e),
                                ));
                                assert(task_result(
                                    old(self).graphql@,
                                    self.graphql@,
                                    old(tx)@,
                                    tx@,
                                    replay,
                                    *fetch,
                                    *decode,
                                    texts,
                                    window,
                                    Err::<(), Failure>(e),
                                ));
                            }
                            return Err(e);
                        },
                        Ok(()) => {
                            proof {
                                let earlier_caches = caches;
                                let earlier_pipelines = pipelines;
                                caches = caches.push(self.graphql@);
                                pipelines = pipelines.push(tx@);
                                assert forall|k: int| 0 <= k < i + 1 implies #[trigger] listed(
                                    caches,
                                    pipelines,
                                    replay,
                                    *fetch,
                                    *decode,
                                    texts,
                                    window,
                                    k,
                                ) by {
                                    if k < i {
                                        assert(listed(
                                            earlier_caches,
                                            earlier_pipelines,
                                            replay,
                                            *fetch,
                                            *decode,
                                            texts,
                                            window,
                                            k,
                                        ));
                                        assert(caches[k] == earlier_caches[k]);
                                        assert(caches[k + 1] == earlier_caches[k + 1]);
                                        assert(pipelines[k] == earlier_pipelines[k]);
                                        assert(pipelines[k + 1] == earlier_pipelines[k + 1]);
                                    }
                                }
                            }
                        },
                    }
                },
            }
            i += 1;
        }
        proof {
            assert(listing_result(
                caches,
                pipelines,
                self.graphql@,
                tx@,
                replay,
                *fetch,
                *decode,
                texts,
                window,
                Ok::<(), Failure>(()),
            ));
            assert(task_result(
                old(self).graphql@,
                self.graphql@,
                old(tx)@,
                tx@,
                replay,
                *fetch,
                *decode,
                texts,
                window,
                Ok::<(), Failure>(()),
            ));
        }
        Ok(())
    }
}

} // verus!
