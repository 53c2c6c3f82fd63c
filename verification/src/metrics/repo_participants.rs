//! The producer of the table of participants per repository.

use crate::cache::{CacheKey, CachedPage, Graphql};
use crate::error::Failure;
use crate::metrics::util::{
    is_window, pair_text, pairs_of, query_name, query_name_of, repo_pairs, seconds_of,
    variables_of, window_seconds, PullRequest,
};
use crate::paginate::{paginate, paginate_result, Page, QueryVariables};
use crate::pipeline::{lemma_all_sent, Pipeline, PipelineState};
use crate::report::repo_participant::{is_robot, robot};
use crate::report::util::GitHubOrganization;
use crate::sink::row_text;
use crate::text::{decimal, decimal_digits, str_eq, text_of};
use vstd::prelude::*;
use vstd::string::*;

verus! {

/// Some strings as text.
pub open spec fn texts(strings: Seq<String>) -> Seq<Seq<char>> {
    Seq::new(strings.len(), |i: int| strings[i]@)
}

/// Some rows as text.
pub open spec fn table_text(rows: Seq<Vec<String>>) -> Seq<Seq<Seq<char>>> {
    Seq::new(rows.len(), |i: int| row_text(rows[i]))
}

/// No name or one name.
pub open spec fn name_of(login: Option<String>) -> Seq<Seq<char>> {
    match login {
        Some(l) => seq![l@],
        None => Seq::empty(),
    }
}

/// The names that a pull request mentions, as often as it mentions them: the
/// author, the participants, those who reviewed it, then who resolved it.
pub open spec fn logins_of(pull_request: PullRequest) -> Seq<Seq<char>> {
    name_of(pull_request.author) + texts(pull_request.participants@) + texts(
        pull_request.reviewers@,
    ) + name_of(pull_request.resolved_by)
}

/// The people among `logins`: each name once, where it comes first, and no
/// automation account.
pub open spec fn people(logins: Seq<Seq<char>>) -> Seq<Seq<char>>
    decreases logins.len(),
{
    if logins.len() == 0 {
        Seq::empty()
    } else if robot(logins.last()) || people(logins.drop_last()).contains(logins.last()) {
        people(logins.drop_last())
    } else {
        people(logins.drop_last()).push(logins.last())
    }
}

/// A count of one pull request: `1` where the role holds, else `0`.
pub open spec fn flag(holds: bool) -> Seq<char> {
    decimal_digits(
        if holds {
            1nat
        } else {
            0nat
        },
    )
}

/// The row for what `login` did in one pull request of `repository`: the
/// name, the repository, and one count for each of the four roles, taking
/// part, writing, reviewing and resolving.
pub open spec fn observation(
    repository: Seq<char>,
    pull_request: PullRequest,
    login: Seq<char>,
) -> Seq<Seq<char>> {
    seq![
        login,
        repository,
        flag(true),
        flag(text_of(pull_request.author) == Some(login)),
        flag(texts(pull_request.reviewers@).contains(login)),
        flag(text_of(pull_request.resolved_by) == Some(login)),
    ]
}

/// The rows of one pull request: one for each of its people, in their order.
pub open spec fn rows_of_one(repository: Seq<char>, pull_request: PullRequest) -> Seq<
    Seq<Seq<char>>,
> {
    Seq::new(
        people(logins_of(pull_request)).len(),
        |i: int| observation(repository, pull_request, people(logins_of(pull_request))[i]),
    )
}

/// The rows of some pull requests: those of the first, then those of the
/// second, and so on. Rows of the same person are not put together.
pub open spec fn rows_of(repository: Seq<char>, pull_requests: Seq<PullRequest>) -> Seq<
    Seq<Seq<char>>,
>
    decreases pull_requests.len(),
{
    if pull_requests.len() == 0 {
        Seq::empty()
    } else {
        rows_of(repository, pull_requests.drop_last()) + rows_of_one(
            repository,
            pull_requests.last(),
        )
    }
}

/// Bot exclusion: the people among some names are no automation accounts,
/// each of them is one of the names and comes once, and every name that is no
/// automation account is among them.
pub proof fn lemma_people_are_the_persons_named(logins: Seq<Seq<char>>)
    ensures
        forall|i: int| 0 <= i < people(logins).len() ==> !robot(#[trigger] people(logins)[i]),
        forall|i: int|
            0 <= i < people(logins).len() ==> logins.contains(#[trigger] people(logins)[i]),
        forall|i: int, j: int|
            0 <= i < j < people(logins).len() ==> people(logins)[i] != people(logins)[j],
        forall|k: int|
            0 <= k < logins.len() && !robot(logins[k]) ==> people(logins).contains(
                #[trigger] logins[k],
            ),
    decreases logins.len(),
{
    if logins.len() > 0 {
        let front = logins.drop_last();
        let last = logins.last();
        lemma_people_are_the_persons_named(front);
        let before = people(front);
        let all = people(logins);
        assert forall|i: int| 0 <= i < all.len() implies logins.contains(#[trigger] all[i]) by {
            if i < before.len() {
                assert(all[i] == before[i]);
                assert(front.contains(before[i]));
                let k = choose|k: int| 0 <= k < front.len() && front[k] == before[i];
                assert(logins[k] == before[i]);
            } else {
                assert(all[i] == last);
                assert(logins[logins.len() - 1] == last);
            }
        }
        assert forall|i: int, j: int| 0 <= i < j < all.len() implies all[i] != all[j] by {
            if j < before.len() {
                assert(all[i] == before[i] && all[j] == before[j]);
            } else {
                assert(all[j] == last);
                assert(all[i] == before[i]);
                assert(!before.contains(last));
            }
        }
        assert forall|k: int| 0 <= k < logins.len() && !robot(logins[k]) implies all.contains(
            #[trigger] logins[k],
        ) by {
            if k < front.len() {
                assert(logins[k] == front[k]);
                assert(before.contains(front[k]));
                let i = choose|i: int| 0 <= i < before.len() && before[i] == front[k];
                assert(all[i] == front[k]);
            } else if before.contains(last) {
                let i = choose|i: int| 0 <= i < before.len() && before[i] == last;
                assert(all[i] == last);
            } else {
                assert(all[all.len() - 1] == last);
            }
        }
    }
}

/// Every row of a pull request has one field for each of the six columns, and
/// is about a person that the pull request names, not about an automation
/// account.
pub proof fn lemma_rows_are_about_people(
    repository: Seq<char>,
    pull_request: PullRequest,
    i: int,
)
    requires
        0 <= i < rows_of_one(repository, pull_request).len(),
    ensures
        rows_of_one(repository, pull_request)[i].len() == participant_columns().len(),
        !robot(rows_of_one(repository, pull_request)[i][0]),
        logins_of(pull_request).contains(rows_of_one(repository, pull_request)[i][0]),
        rows_of_one(repository, pull_request)[i][1] == repository,
{
    lemma_people_are_the_persons_named(logins_of(pull_request));
    assert(rows_of_one(repository, pull_request)[i][0] == people(logins_of(pull_request))[i]);
}

fn has_login(list: &Vec<String>, login: &str) -> (found: bool)
    ensures
        found == texts(list@).contains(login@),
{
    let mut i: usize = 0;
    while i < list.len()
        invariant
            i <= list@.len(),
            forall|j: int| 0 <= j < i ==> texts(list@)[j] != login@,
        decreases list@.len() - i,
    {
        if str_eq(list[i].as_str(), login) {
            assert(texts(list@)[i as int] == login@);
            return true;
        }
        i += 1;
    }
    false
}

fn is_login(name: &Option<String>, login: &str) -> (same: bool)
    ensures
        same == (text_of(*name) == Some(login@)),
{
    match name {
        Some(n) => str_eq(n.as_str(), login),
        None => false,
    }
}

fn add_all(logins: &mut Vec<String>, more: &Vec<String>)
    ensures
        texts(final(logins)@) == texts(old(logins)@) + texts(more@),
{
    let mut i: usize = 0;
    proof {
        assert(texts(logins@) =~= texts(old(logins)@) + texts(more@.take(0)));
    }
    while i < more.len()
        invariant
            i <= more@.len(),
            texts(logins@) == texts(old(logins)@) + texts(more@.take(i as int)),
        decreases more@.len() - i,
    {
        let ghost before = logins@;
        logins.push(more[i].clone());
        proof {
            assert(texts(logins@) =~= texts(before).push(more@[i as int]@));
            assert(texts(more@.take(i as int + 1)) =~= texts(more@.take(i as int)).push(
                more@[i as int]@,
            ));
            assert(texts(logins@) =~= texts(old(logins)@) + texts(more@.take(i as int + 1)));
        }
        i += 1;
    }
    proof {
        assert(more@.take(more@.len() as int) =~= more@);
    }
}

fn add_one(logins: &mut Vec<String>, name: &Option<String>)
    ensures
        texts(final(logins)@) == texts(old(logins)@) + name_of(*name),
{
    match name {
        Some(n) => {
            logins.push(n.clone());
            assert(texts(logins@) =~= texts(old(logins)@) + name_of(*name));
        },
        None => {
            assert(texts(logins@) =~= texts(old(logins)@) + name_of(*name));
        },
    }
}

/// The names that a pull request mentions.
fn mentioned(pull_request: &PullRequest) -> (logins: Vec<String>)
    ensures
        texts(logins@) == logins_of(*pull_request),
{
    let mut logins: Vec<String> = Vec::new();
    assert(texts(logins@) =~= Seq::<Seq<char>>::empty());
    add_one(&mut logins, &pull_request.author);
    add_all(&mut logins, &pull_request.participants);
    add_all(&mut logins, &pull_request.reviewers);
    add_one(&mut logins, &pull_request.resolved_by);
    assert(texts(logins@) =~= logins_of(*pull_request));
    logins
}

/// Each name once, where it comes first, and no automation account.
fn only_people(logins: &Vec<String>) -> (distinct: Vec<String>)
    ensures
        texts(distinct@) == people(texts(logins@)),
{
    let mut distinct: Vec<String> = Vec::new();
    let mut i: usize = 0;
    proof {
        assert(texts(logins@).take(0) =~= Seq::<Seq<char>>::empty());
        assert(texts(distinct@) =~= Seq::<Seq<char>>::empty());
    }
    while i < logins.len()
        invariant
            i <= logins@.len(),
            texts(distinct@) == people(texts(logins@).take(i as int)),
        decreases logins@.len() - i,
    {
        proof {
            let next = texts(logins@).take(i as int + 1);
            assert(next.drop_last() =~= texts(logins@).take(i as int));
            assert(next.last() == logins@[i as int]@);
        }
        let login: &str = logins[i].as_str();
        if !is_robot(login) && !has_login(&distinct, login) {
            let ghost before = distinct@;
            distinct.push(logins[i].clone());
            assert(texts(distinct@) =~= texts(before).push(logins@[i as int]@));
        }
        i += 1;
    }
    proof {
        assert(texts(logins@).take(logins@.len() as int) =~= texts(logins@));
    }
    distinct
}

fn count_of(holds: bool) -> (text: String)
    ensures
        text@ == flag(holds),
{
    if holds {
        decimal(1)
    } else {
        decimal(0)
    }
}

/// The rows of one pull request of `repository`: one row for each person that
/// it mentions, with what that person did in it.
pub fn pull_request_rows(repository: &str, pull_request: &PullRequest) -> (rows: Vec<Vec<String>>)
    ensures
        table_text(rows@) == rows_of_one(repository@, *pull_request),
{
    let logins = mentioned(pull_request);
    let persons = only_people(&logins);
    let ghost names = people(logins_of(*pull_request));
    let mut rows: Vec<Vec<String>> = Vec::new();
    let mut i: usize = 0;
    while i < persons.len()
        invariant
            i <= persons@.len(),
            texts(persons@) == names,
            names == people(logins_of(*pull_request)),
            rows@.len() == i,
            forall|j: int|
                0 <= j < i ==> row_text(#[trigger] rows@[j]) == observation(
                    repository@,
                    *pull_request,
                    names[j],
                ),
        decreases persons@.len() - i,
    {
        let login: &str = persons[i].as_str();
        assert(login@ == names[i as int]) by {
            assert(texts(persons@)[i as int] == persons@[i as int]@);
        }
        let mut row: Vec<String> = Vec::new();
        row.push(persons[i].clone());
        row.push(String::from_str(repository));
        row.push(count_of(true));
        row.push(count_of(is_login(&pull_request.author, login)));
        row.push(count_of(has_login(&pull_request.reviewers, login)));
        row.push(count_of(is_login(&pull_request.resolved_by, login)));
        assert(row_text(row) =~= observation(repository@, *pull_request, names[i as int]));
        rows.push(row);
        i += 1;
    }
    assert(table_text(rows@) =~= rows_of_one(repository@, *pull_request));
    rows
}

/// The rows of the pull requests of `repository`, pull request after pull
/// request.
pub fn participant_rows(repository: &str, pull_requests: &Vec<PullRequest>) -> (rows: Vec<
    Vec<String>,
>)
    ensures
        table_text(rows@) == rows_of(repository@, pull_requests@),
{
    let mut rows: Vec<Vec<String>> = Vec::new();
    let mut i: usize = 0;
    proof {
        assert(table_text(rows@) =~= rows_of(repository@, pull_requests@.take(0)));
    }
    while i < pull_requests.len()
        invariant
            i <= pull_requests@.len(),
            table_text(rows@) == rows_of(repository@, pull_requests@.take(i as int)),
        decreases pull_requests@.len() - i,
    {
        let mut more = pull_request_rows(repository, &pull_requests[i]);
        let ghost before = rows@;
        let ghost added = more@;
        rows.append(&mut more);
        proof {
            let next = pull_requests@.take(i as int + 1);
            assert(next.drop_last() =~= pull_requests@.take(i as int));
            assert(next.last() == pull_requests@[i as int]);
            assert(table_text(before + added) =~= table_text(before) + table_text(added));
        }
        i += 1;
    }
    proof {
        assert(pull_requests@.take(pull_requests@.len() as int) =~= pull_requests@);
    }
    rows
}

/// The names of the six columns.
pub open spec fn participant_columns() -> Seq<Seq<char>> {
    seq![
        "Participant"@,
        "Repository"@,
        "PRs participated in"@,
        "PRs authored"@,
        "PRs reviewed"@,
        "PRs resolved"@,
    ]
}

/// Whether the rows with the text `texts` were sent into `pipeline` one after
/// the other, up to the first send that failed, with `outcome`, and left it as
/// `next_pipeline`.
pub open spec fn rows_sent(
    pipeline: PipelineState,
    next_pipeline: PipelineState,
    texts: Seq<Seq<Seq<char>>>,
    outcome: Result<(), Failure>,
) -> bool {
    exists|rows: Seq<Vec<String>>|
        {
            &&& #[trigger] table_text(rows) == texts
            &&& (next_pipeline, outcome) == pipeline.after_all(rows)
        }
}

/// What the producer does for one repository: it asks for all pages of the
/// repository's pull requests and sends their rows. A failure of the query is
/// the outcome, and nothing is sent; else the outcome is that of the sends.
pub open spec fn participants_step<F, D>(
    cache: Map<(Seq<char>, u64), (Seq<char>, Option<Seq<char>>)>,
    next_cache: Map<(Seq<char>, u64), (Seq<char>, Option<Seq<char>>)>,
    pipeline: PipelineState,
    next_pipeline: PipelineState,
    replay: bool,
    fetch: F,
    decode: D,
    pair: (Seq<char>, Seq<char>),
    window: i64,
    outcome: Result<(), Failure>,
) -> bool where
    F: Fn(&CacheKey, &QueryVariables) -> Result<CachedPage, Failure>,
    D: Fn(&CacheKey, &CachedPage) -> Result<Page<PullRequest>, Failure>,
 {
    exists|listed: Result<Vec<PullRequest>, Failure>|
        {
            &&& #[trigger] paginate_result(
                cache,
                next_cache,
                replay,
                fetch,
                decode,
                query_name_of(pair.0, pair.1),
                variables_of(pair.0, pair.1, window),
                listed,
            )
            &&& match listed {
                Err(e) => next_pipeline == pipeline && outcome == Err::<(), Failure>(e),
                Ok(pull_requests) => rows_sent(
                    pipeline,
                    next_pipeline,
                    rows_of(pair.1, pull_requests@),
                    outcome,
                ),
            }
        }
}

/// Whether the step for the repository `i` succeeded, from the cache and the
/// pipeline as the step before left them.
pub open spec fn observed<F, D>(
    caches: Seq<Map<(Seq<char>, u64), (Seq<char>, Option<Seq<char>>)>>,
    pipelines: Seq<PipelineState>,
    replay: bool,
    fetch: F,
    decode: D,
    pairs: Seq<(Seq<char>, Seq<char>)>,
    window: i64,
    i: int,
) -> bool where
    F: Fn(&CacheKey, &QueryVariables) -> Result<CachedPage, Failure>,
    D: Fn(&CacheKey, &CachedPage) -> Result<Page<PullRequest>, Failure>,
 {
    participants_step(
        caches[i],
        caches[i + 1],
        pipelines[i],
        pipelines[i + 1],
        replay,
        fetch,
        decode,
        pairs[i],
        window,
        Ok::<(), Failure>(()),
    )
}

/// What the producer does: it visits the repositories `pairs` in their order
/// and takes the step for each. It stops at the first step that fails, with
/// that failure; after the last repository it is done. `caches` and
/// `pipelines` are the states before and after each step that succeeded.
pub open spec fn observing_result<F, D>(
    caches: Seq<Map<(Seq<char>, u64), (Seq<char>, Option<Seq<char>>)>>,
    pipelines: Seq<PipelineState>,
    last_cache: Map<(Seq<char>, u64), (Seq<char>, Option<Seq<char>>)>,
    last_pipeline: PipelineState,
    replay: bool,
    fetch: F,
    decode: D,
    pairs: Seq<(Seq<char>, Seq<char>)>,
    window: i64,
    outcome: Result<(), Failure>,
) -> bool where
    F: Fn(&CacheKey, &QueryVariables) -> Result<CachedPage, Failure>,
    D: Fn(&CacheKey, &CachedPage) -> Result<Page<PullRequest>, Failure>,
 {
    &&& caches.len() == pipelines.len()
    &&& 0 < caches.len() <= pairs.len() + 1
    &&& forall|i: int|
        0 <= i < caches.len() - 1 ==> #[trigger] observed(
            caches,
            pipelines,
            replay,
            fetch,
            decode,
            pairs,
            window,
            i,
        )
    &&& match outcome {
        Ok(()) => {
            &&& caches.len() == pairs.len() + 1
            &&& last_cache == caches.last()
            &&& last_pipeline == pipelines.last()
        },
        Err(e) => {
            &&& caches.len() <= pairs.len()
            &&& participants_step(
                caches.last(),
                last_cache,
                pipelines.last(),
                last_pipeline,
                replay,
                fetch,
                decode,
                pairs[caches.len() - 1],
                window,
                Err::<(), Failure>(e),
            )
        },
    }
}

/// What `producer_task` does: there is a course of steps, from the cache
/// `cache` and the pipeline `pipeline`, that ends in `outcome` and leaves them
/// as `last_cache` and `last_pipeline`.
pub open spec fn task_result<F, D>(
    cache: Map<(Seq<char>, u64), (Seq<char>, Option<Seq<char>>)>,
    last_cache: Map<(Seq<char>, u64), (Seq<char>, Option<Seq<char>>)>,
    pipeline: PipelineState,
    last_pipeline: PipelineState,
    replay: bool,
    fetch: F,
    decode: D,
    pairs: Seq<(Seq<char>, Seq<char>)>,
    window: i64,
    outcome: Result<(), Failure>,
) -> bool where
    F: Fn(&CacheKey, &QueryVariables) -> Result<CachedPage, Failure>,
    D: Fn(&CacheKey, &CachedPage) -> Result<Page<PullRequest>, Failure>,
 {
    exists|
        caches: Seq<Map<(Seq<char>, u64), (Seq<char>, Option<Seq<char>>)>>,
        pipelines: Seq<PipelineState>,
    |
        {
            &&& #[trigger] observing_result(
                caches,
                pipelines,
                last_cache,
                last_pipeline,
                replay,
                fetch,
                decode,
                pairs,
                window,
                outcome,
            )
            &&& caches[0] == cache
            &&& pipelines[0] == pipeline
        }
}

/// Lists, for each repository of each organisation, who took part in the pull
/// requests of the trailing window, and in which roles.
#[derive(Debug)]
pub struct RepoParticipants {
    graphql: Graphql,
    org_repos: Vec<GitHubOrganization>,
    number_of_days: i64,
}

impl RepoParticipants {
    /// The cache that the producer asks through.
    pub closed spec fn cache(&self) -> Graphql {
        self.graphql
    }

    /// The organisations whose repositories the producer visits.
    pub closed spec fn organisations(&self) -> Seq<GitHubOrganization> {
        self.org_repos@
    }

    /// The length of the trailing window in days.
    pub closed spec fn days(&self) -> i64 {
        self.number_of_days
    }

    pub fn new(graphql: Graphql, org_repos: Vec<GitHubOrganization>, number_of_days: i64) -> (producer:
        Self)
        ensures
            producer.cache() == graphql,
            producer.organisations() == org_repos@,
            producer.days() == number_of_days,
    {
        RepoParticipants { graphql, org_repos, number_of_days }
    }

    /// The cache that the producer asks through.
    pub fn graphql(&self) -> (cache: &Graphql)
        ensures
            *cache == self.cache(),
    {
        &self.graphql
    }

    /// The length of the trailing window in days.
    pub fn number_of_days(&self) -> (days: i64)
        ensures
            days == self.days(),
    {
        self.number_of_days
    }

    /// The names of the six columns.
    pub fn column_names(&self) -> (names: Vec<String>)
        ensures
            row_text(names) == participant_columns(),
    {
        let mut names: Vec<String> = Vec::new();
        names.push(String::from_str("Participant"));
        names.push(String::from_str("Repository"));
        names.push(String::from_str("PRs participated in"));
        names.push(String::from_str("PRs authored"));
        names.push(String::from_str("PRs reviewed"));
        names.push(String::from_str("PRs resolved"));
        assert(row_text(names) =~= participant_columns());
        names
    }

    /// Sends, for each repository in the order in which the repositories are
    /// configured, the rows of its pull requests. The first failure, of a
    /// query or of a send, ends the task.
    pub fn producer_task<F, D>(&mut self, tx: &mut Pipeline, fetch: &F, decode: &D) -> (outcome:
        Result<(), Failure>) where
        F: Fn(&CacheKey, &QueryVariables) -> Result<CachedPage, Failure>,
        D: Fn(&CacheKey, &CachedPage) -> Result<Page<PullRequest>, Failure>,

        requires
            is_window(old(self).days()),
            old(tx)@.well_formed(),
            !old(self).cache().replay() ==> forall|k: &CacheKey, v: &QueryVariables|
                call_requires(*fetch, (k, v)),
            forall|k: &CacheKey, c: &CachedPage| call_requires(*decode, (k, c)),
        ensures
            final(self).organisations() == old(self).organisations(),
            final(self).days() == old(self).days(),
            final(self).cache().replay() == old(self).cache().replay(),
            final(self).cache().dir() == old(self).cache().dir(),
            final(tx)@.well_formed(),
            task_result(
                old(self).cache()@,
                final(self).cache()@,
                old(tx)@,
                final(tx)@,
                old(self).cache().replay(),
                *fetch,
                *decode,
                pairs_of(old(self).organisations()),
                seconds_of(old(self).days()),
                outcome,
            ),
    {
        let window: i64 = match window_seconds(self.number_of_days) {
            Some(seconds) => seconds,
            None => {
                proof {
                    assert(false);
                }
                0
            },
        };
        let pairs = repo_pairs(&self.org_repos);
        let ghost places = pairs_of(self.org_repos@);
        let ghost replay = self.graphql.replay();
        let ghost mut caches = seq![self.graphql@];
        let ghost mut pipelines = seq![tx@];
        let mut i: usize = 0;
        while i < pairs.len()
            invariant
                self.org_repos == old(self).org_repos,
                self.number_of_days == old(self).number_of_days,
                self.graphql.replay() == replay,
                replay == old(self).graphql.replay(),
                self.graphql.dir() == old(self).graphql.dir(),
                window == seconds_of(old(self).days()),
                places == pairs_of(old(self).organisations()),
                tx@.well_formed(),
                !replay ==> forall|k: &CacheKey, v: &QueryVariables| call_requires(*fetch, (k, v)),
                forall|k: &CacheKey, c: &CachedPage| call_requires(*decode, (k, c)),
                pairs@.len() == places.len(),
                forall|k: int| 0 <= k < pairs@.len() ==> pair_text(#[trigger] pairs@[k]) == places[k],
                i <= pairs@.len(),
                caches.len() == i + 1,
                pipelines.len() == i + 1,
                caches[0] == old(self).graphql@,
                pipelines[0] == old(tx)@,
                caches.last() == self.graphql@,
                pipelines.last() == tx@,
                forall|k: int|
                    0 <= k < i ==> #[trigger] observed(
                        caches,
                        pipelines,
                        replay,
                        *fetch,
                        *decode,
                        places,
                        window,
                        k,
                    ),
            decreases pairs@.len() - i,
        {
            let organisation: &str = pairs[i].0.as_str();
            let repository: &str = pairs[i].1.as_str();
            assert(pair_text(pairs@[i as int]) == places[i as int]);
            let ghost cache_before = self.graphql@;
            let ghost pipeline_before = tx@;
            let name = query_name(organisation, repository);
            let variables = QueryVariables {
                organisation: String::from_str(organisation),
                repository: String::from_str(repository),
                window_seconds: window,
                cursor: None,
            };
            let listed = paginate(&mut self.graphql, name.as_str(), variables, fetch, decode);
            let ghost answer = listed;
            proof {
                assert(paginate_result(
                    cache_before,
                    self.graphql@,
                    replay,
                    *fetch,
                    *decode,
                    query_name_of(places[i as int].0, places[i as int].1),
                    variables_of(places[i as int].0, places[i as int].1, window),
                    answer,
                ));
            }
            let outcome: Result<(), Failure> = match listed {
                Err(e) => Err(e),
                Ok(pull_requests) => {
                    let rows = participant_rows(repository, &pull_requests);
                    let ghost sent = rows@;
                    let delivered = tx.send_all(rows);
                    proof {
                        lemma_all_sent(pipeline_before, sent);
                        assert(table_text(sent) == rows_of(places[i as int].1, pull_requests@));
                        assert(rows_sent(
                            pipeline_before,
                            tx@,
                            rows_of(places[i as int].1, pull_requests@),
                            delivered,
                        ));
                    }
                    delivered
                },
            };
            let ghost result = outcome;
            proof {
                assert(participants_step(
                    cache_before,
                    self.graphql@,
                    pipeline_before,
                    tx@,
                    replay,
                    *fetch,
                    *decode,
                    places[i as int],
                    window,
                    result,
                ));
            }
            match outcome {
                Err(e) => {
                    proof {
                        assert(observing_result(
                            caches,
                            pipelines,
                            self.graphql@,
                            tx@,
                            replay,
                            *fetch,
                            *decode,
                            places,
                            window,
                            Err::<(), Failure>(e),
                        ));
                        assert(task_result(
                            old(self).graphql@,
                            self.graphql@,
                            old(tx)@,
                            tx@,
                            replay,
                            *fetch,
                            *decode,
                            places,
                            window,
                            Err::<(), Failure>(e),
                        ));
                    }
                    return Err(e);
                },
                Ok(()) => {
                    proof {
                        let earlier_caches = caches;
                        let earlier_pipelines = pipelines;
                        caches = caches.push(self.graphql@);
                        pipelines = pipelines.push(tx@);
                        assert forall|k: int| 0 <= k < i + 1 implies #[trigger] observed(
                            caches,
                            pipelines,
                            replay,
                            *fetch,
                            *decode,
                            places,
                            window,
                            k,
                        ) by {
                            if k < i {
                                assert(observed(
                                    earlier_caches,
                                    earlier_pipelines,
                                    replay,
                                    *fetch,
                                    *decode,
                                    places,
                                    window,
                                    k,
                                ));
                                assert(caches[k] == earlier_caches[k]);
                                assert(caches[k + 1] == earlier_caches[k + 1]);
                                assert(pipelines[k] == earlier_pipelines[k]);
                                assert(pipelines[k + 1] == earlier_pipelines[k + 1]);
                            } else {
                                assert(caches[k] == cache_before);
                                assert(caches[k + 1] == self.graphql@);
                                assert(pipelines[k] == pipeline_before);
                                assert(pipelines[k + 1] == tx@);
                                assert(result == Ok::<(), Failure>(()));
                                assert(participants_step(
                                    cache_before,
                                    self.graphql@,
                                    pipeline_before,
                                    tx@,
                                    replay,
                                    *fetch,
                                    *decode,
                                    places[k],
                                    window,
                                    Ok::<(), Failure>(()),
                                ));
                            }
                        }
                    }
                },
            }
            i += 1;
        }
        proof {
            assert(observing_result(
                caches,
                pipelines,
                self.graphql@,
                tx@,
                replay,
                *fetch,
                *decode,
                places,
                window,
                Ok::<(), Failure>(()),
            ));
            assert(task_result(
                old(self).graphql@,
                self.graphql@,
                old(tx)@,
                tx@,
                replay,
                *fetch,
                *decode,
                places,
                window,
                Ok::<(), Failure>(()),
            ));
        }
        Ok(())
    }
}

} // verus!
