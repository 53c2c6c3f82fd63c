//! The metric producers. A producer names the columns of its table and sends
//! the rows, one after the other, into a pipeline.

use crate::cache::{CacheKey, CachedPage, Graphql};
use crate::error::Failure;
use crate::metrics::list_repos::{repo_columns, ListReposForOrg};
use crate::metrics::repo_participants::{participant_columns, RepoParticipants};
use crate::metrics::util::{is_window, pairs_of, seconds_of, PullRequest};
use crate::paginate::{Page, QueryVariables};
use crate::pipeline::{started, Pipeline, PipelineState};
use crate::report::util::GitHubOrganization;
use crate::sink::row_text;
use vstd::prelude::*;

pub mod list_repos;
pub mod repo_participants;
pub mod util;

verus! {

/// The producers that there are.
#[derive(Debug)]
pub enum Producer {
    ListReposForOrg(ListReposForOrg),
    RepoParticipants(RepoParticipants),
}

impl Producer {
    /// The cache that the producer asks through.
    pub open spec fn cache(self) -> Graphql {
        match self {
            Producer::ListReposForOrg(p) => p.cache(),
            Producer::RepoParticipants(p) => p.cache(),
        }
    }

    /// The organisations whose repositories the producer visits.
    pub open spec fn organisations(self) -> Seq<GitHubOrganization> {
        match self {
            Producer::ListReposForOrg(p) => p.organisations(),
            Producer::RepoParticipants(p) => p.organisations(),
        }
    }

    /// The length of the trailing window in days.
    pub open spec fn days(self) -> i64 {
        match self {
            Producer::ListReposForOrg(p) => p.days(),
            Producer::RepoParticipants(p) => p.days(),
        }
    }

    /// The names of the producer's columns.
    pub open spec fn columns(self) -> Seq<Seq<char>> {
        match self {
            Producer::ListReposForOrg(_) => repo_columns(),
            Producer::RepoParticipants(_) => participant_columns(),
        }
    }

    /// Whether the producer is still of the same kind, with the same
    /// organisations, window, directory and mode.
    pub open spec fn same_task(self, other: Producer) -> bool {
        &&& self is ListReposForOrg <==> other is ListReposForOrg
        &&& self.organisations() == other.organisations()
        &&& self.days() == other.days()
        &&& self.cache().replay() == other.cache().replay()
        &&& self.cache().dir() == other.cache().dir()
    }

    /// What the producer's task does, by the kind of the producer: from the
    /// pipeline `pipeline` it ends in `outcome`, and leaves the producer as
    /// `after` and the pipeline as `last_pipeline`.
    pub open spec fn task_result<F, D>(
        self,
        after: Producer,
        pipeline: PipelineState,
        last_pipeline: PipelineState,
        fetch: F,
        decode: D,
        outcome: Result<(), Failure>,
    ) -> bool where
        F: Fn(&CacheKey, &QueryVariables) -> Result<CachedPage, Failure>,
        D: Fn(&CacheKey, &CachedPage) -> Result<Page<PullRequest>, Failure>,
     {
        match self {
            Producer::ListReposForOrg(_) => list_repos::task_result(
                self.cache()@,
                after.cache()@,
                pipeline,
                last_pipeline,
                self.cache().replay(),
                fetch,
                decode,
                pairs_of(self.organisations()),
                seconds_of(self.days()),
                outcome,
            ),
            Producer::RepoParticipants(_) => repo_participants::task_result(
                self.cache()@,
                after.cache()@,
                pipeline,
                last_pipeline,
                self.cache().replay(),
                fetch,
                decode,
                pairs_of(self.organisations()),
                seconds_of(self.days()),
                outcome,
            ),
        }
    }

    /// The names of the producer's columns.
    pub fn column_names(&self) -> (names: Vec<String>)
        ensures
            row_text(names) == self.columns(),
    {
        match self {
            Producer::ListReposForOrg(p) => p.column_names(),
            Producer::RepoParticipants(p) => p.column_names(),
        }
    }

    /// Runs the producer's task: it sends the producer's rows into `tx`.
    pub fn producer_task<F, D>(&mut self, tx: &mut Pipeline, fetch: &F, decode: &D) -> (outcome:
        Result<(), Failure>) where
        F: Fn(&CacheKey, &QueryVariables) -> Result<CachedPage, Failure>,
        D: Fn(&CacheKey, &CachedPage) -> Result<Page<PullRequest>, Failure>,

        requires
            is_window(old(self).days()),
            old(tx)@.well_formed(),
            !old(self).cache().replay() ==> forall|k: &CacheKey, v: &QueryVariables|
                call_requires(*fetch, (k, v)),
            forall|k: &CacheKey, c: &CachedPage| call_requires(*decode, (k, c)),
        ensures
            old(self).same_task(*final(self)),
            final(tx)@.well_formed(),
            old(self).task_result(*final(self), old(tx)@, final(tx)@, *fetch, *decode, outcome),
    {
        match self {
            Producer::ListReposForOrg(p) => p.producer_task(tx, fetch, decode),
            Producer::RepoParticipants(p) => p.producer_task(tx, fetch, decode),
        }
    }
}

/// What a run of a producer gives: the pipeline starts with the producer's
/// header, the producer's task runs, and the pipeline ends; the table is the
/// result where neither of the two sides failed, else the first failure is.
pub open spec fn run_result<F, D>(
    producer: Producer,
    after: Producer,
    capacity: nat,
    fetch: F,
    decode: D,
    table: Result<Vec<u8>, Failure>,
) -> bool where
    F: Fn(&CacheKey, &QueryVariables) -> Result<CachedPage, Failure>,
    D: Fn(&CacheKey, &CachedPage) -> Result<Page<PullRequest>, Failure>,
 {
    exists|names: Vec<String>, end: PipelineState, outcome: Result<(), Failure>|
        {
            &&& row_text(names) == producer.columns()
            &&& #[trigger] producer.task_result(
                after,
                started(names, capacity),
                end,
                fetch,
                decode,
                outcome,
            )
            &&& match table {
                Ok(bytes) => end.finish_result(outcome) == Ok::<Seq<u8>, Failure>(bytes@),
                Err(e) => end.finish_result(outcome) == Err::<Seq<u8>, Failure>(e),
            }
        }
}

/// Runs `producer` with a consumer behind a channel for at most `capacity`
/// rows, and hands out the text of the finished table.
pub fn run_producer<F, D>(producer: &mut Producer, capacity: usize, fetch: &F, decode: &D) -> (table:
    Result<Vec<u8>, Failure>) where
    F: Fn(&CacheKey, &QueryVariables) -> Result<CachedPage, Failure>,
    D: Fn(&CacheKey, &CachedPage) -> Result<Page<PullRequest>, Failure>,

    requires
        capacity > 0,
        is_window(old(producer).days()),
        !old(producer).cache().replay() ==> forall|k: &CacheKey, v: &QueryVariables|
            call_requires(*fetch, (k, v)),
        forall|k: &CacheKey, c: &CachedPage| call_requires(*decode, (k, c)),
    ensures
        old(producer).same_task(*final(producer)),
        run_result(*old(producer), *final(producer), capacity as nat, *fetch, *decode, table),
{
    let column_names = producer.column_names();
    let mut pipeline = Pipeline::start(&column_names, capacity);
    let ghost begun = pipeline@;
    let outcome = producer.producer_task(&mut pipeline, fetch, decode);
    let ghost end = pipeline@;
    let ghost produced = outcome;
    let table = pipeline.finish(outcome);
    proof {
        assert(old(producer).task_result(
            *producer,
            started(column_names, capacity as nat),
            end,
            *fetch,
            *decode,
            produced,
        ));
    }
    table
}

} // verus!
