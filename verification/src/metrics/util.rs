//! What the producers share: the trailing window, the names of their queries,
//! the repositories to visit, and the count of a repository's pull requests.

use crate::cache::{CacheKey, CachedPage, Graphql};
use crate::error::Failure;
use crate::paginate::{paginate, paginate_result, Page, QueryVariables};
use crate::report::util::GitHubOrganization;
use vstd::prelude::*;
use vstd::string::*;

verus! {

/// One pull request as a page of a query describes it: who wrote it, who took
/// part in it, who reviewed it and who merged or closed it.
#[derive(Debug)]
pub struct PullRequest {
    pub author: Option<String>,
    pub participants: Vec<String>,
    pub reviewers: Vec<String>,
    pub resolved_by: Option<String>,
}

/// The most days that a trailing window can have, back or ahead.
pub const MAX_WINDOW_DAYS: i64 = 106_751_991_167;

/// Whether a trailing window can have `days` days.
pub open spec fn is_window(days: i64) -> bool {
    -MAX_WINDOW_DAYS <= days <= MAX_WINDOW_DAYS
}

/// The length of `days` days in seconds.
pub open spec fn seconds_of(days: i64) -> i64 {
    (days * 86_400) as i64
}

/// `chrono::Duration::try_days`, the duration read back in whole seconds with
/// `num_seconds`. The claim: a duration of `days` days exists exactly where
/// its seconds, taken as milliseconds, fit 64 bits, which is the range of
/// `is_window`; it then has 86,400 seconds for each day.
#[verifier::external_body]
fn days_to_seconds(days: i64) -> (seconds: Option<i64>)
    ensures
        is_window(days) ==> seconds == Some(seconds_of(days)),
        !is_window(days) ==> seconds is None,
{
    match chrono::Duration::try_days(days) {
        Some(duration) => Some(duration.num_seconds()),
        None => None,
    }
}

/// The length in seconds of a trailing window of `days` days; `None` where
/// there is no such window.
pub fn window_seconds(days: i64) -> (seconds: Option<i64>)
    ensures
        is_window(days) ==> seconds == Some(seconds_of(days)),
        !is_window(days) ==> seconds is None,
{
    days_to_seconds(days)
}

/// The name of the query about one repository: organisation, dot, repository.
pub open spec fn query_name_of(organisation: Seq<char>, repository: Seq<char>) -> Seq<char> {
    organisation + seq!['.'] + repository
}

/// The name of the query about one repository.
pub fn query_name(organisation: &str, repository: &str) -> (name: String)
    ensures
        name@ == query_name_of(organisation@, repository@),
{
    let mut name = String::from_str(organisation);
    name.append(".");
    name.append(repository);
    proof {
        reveal_strlit(".");
        assert("."@ =~= seq!['.']);
    }
    name
}

/// The repositories of one organisation, each with the organisation's name.
pub open spec fn pairs_of_one(organisation: GitHubOrganization) -> Seq<(Seq<char>, Seq<char>)> {
    Seq::new(
        organisation.repositories().len(),
        |j: int| (organisation.name(), organisation.repositories()[j]@),
    )
}

/// The repositories to visit, organisation and repository: those of the first
/// organisation in their order, then those of the second, and so on.
pub open spec fn pairs_of(organisations: Seq<GitHubOrganization>) -> Seq<(Seq<char>, Seq<char>)>
    decreases organisations.len(),
{
    if organisations.len() == 0 {
        Seq::empty()
    } else {
        pairs_of(organisations.drop_last()) + pairs_of_one(organisations.last())
    }
}

/// Organisation and repository as text.
pub open spec fn pair_text(pair: (String, String)) -> (Seq<char>, Seq<char>) {
    (pair.0@, pair.1@)
}

/// The repositories to visit, in the order in which they are configured.
pub fn repo_pairs(organisations: &Vec<GitHubOrganization>) -> (pairs: Vec<(String, String)>)
    ensures
        pairs@.len() == pairs_of(organisations@).len(),
        forall|i: int|
            0 <= i < pairs@.len() ==> pair_text(#[trigger] pairs@[i]) == pairs_of(
                organisations@,
            )[i],
{
    let mut pairs: Vec<(String, String)> = Vec::new();
    let mut i: usize = 0;
    while i < organisations.len()
        invariant
            i <= organisations@.len(),
            pairs@.len() == pairs_of(organisations@.take(i as int)).len(),
            forall|k: int|
                0 <= k < pairs@.len() ==> pair_text(#[trigger] pairs@[k]) == pairs_of(
                    organisations@.take(i as int),
                )[k],
        decreases organisations@.len() - i,
    {
        let organisation: &GitHubOrganization = &organisations[i];
        let names: &[String] = organisation.repository_names();
        let ghost done = pairs_of(organisations@.take(i as int));
        let mut j: usize = 0;
        while j < names.len()
            invariant
                j <= names@.len(),
                names@ == organisation.repositories(),
                pairs@.len() == done.len() + j,
                forall|k: int| 0 <= k < done.len() ==> pair_text(#[trigger] pairs@[k]) == done[k],
                forall|k: int|
                    done.len() <= k < pairs@.len() ==> pair_text(#[trigger] pairs@[k]) == (
                        organisation.name(),
                        names@[k - done.len()]@,
                    ),
            decreases names@.len() - j,
        {
            pairs.push(
                (String::from_str(organisation.organisation_name()), names[j].clone()),
            );
            j += 1;
        }
        proof {
            let next = organisations@.take(i as int + 1);
            assert(next.drop_last() =~= organisations@.take(i as int));
            assert(next.last() == organisations@[i as int]);
            assert(pairs_of(next) == done + pairs_of_one(*organisation));
        }
        i += 1;
    }
    proof {
        assert(organisations@.take(organisations@.len() as int) =~= organisations@);
    }
    pairs
}

/// The variables of the first page of the query about one repository.
pub open spec fn variables_of(
    organisation: Seq<char>,
    repository: Seq<char>,
    window: i64,
) -> (Seq<char>, Seq<char>, i64, Option<Seq<char>>) {
    (organisation, repository, window, None)
}

/// How the pull requests of one repository are counted: the pages of the
/// repository's query are asked for until the last, and the count is the
/// number of pull requests on all of them. A failure of the query is the
/// failure of the count.
pub open spec fn count_result<F, D>(
    before: Map<(Seq<char>, u64), (Seq<char>, Option<Seq<char>>)>,
    after: Map<(Seq<char>, u64), (Seq<char>, Option<Seq<char>>)>,
    replay: bool,
    fetch: F,
    decode: D,
    organisation: Seq<char>,
    repository: Seq<char>,
    window: i64,
    counted: Result<u64, Failure>,
) -> bool where
    F: Fn(&CacheKey, &QueryVariables) -> Result<CachedPage, Failure>,
    D: Fn(&CacheKey, &CachedPage) -> Result<Page<PullRequest>, Failure>,
 {
    exists|listed: Result<Vec<PullRequest>, Failure>|
        {
            &&& #[trigger] paginate_result(
                before,
                after,
                replay,
                fetch,
                decode,
                query_name_of(organisation, repository),
                variables_of(organisation, repository, window),
                listed,
            )
            &&& match listed {
                Ok(items) => counted == Ok::<u64, Failure>(items@.len() as u64),
                Err(e) => counted == Err::<u64, Failure>(e),
            }
        }
}

/// Counts the pull requests of `repository` that were created within the
/// trailing window.
pub fn count_pull_requests<F, D>(
    graphql: &mut Graphql,
    organisation: &str,
    repository: &str,
    window: i64,
    fetch: &F,
    decode: &D,
) -> (counted: Result<u64, Failure>) where
    F: Fn(&CacheKey, &QueryVariables) -> Result<CachedPage, Failure>,
    D: Fn(&CacheKey, &CachedPage) -> Result<Page<PullRequest>, Failure>,

    requires
        !old(graphql).replay() ==> forall|k: &CacheKey, v: &QueryVariables|
            call_requires(*fetch, (k, v)),
        forall|k: &CacheKey, c: &CachedPage| call_requires(*decode, (k, c)),
    ensures
        final(graphql).replay() == old(graphql).replay(),
        final(graphql).dir() == old(graphql).dir(),
        count_result(
            old(graphql)@,
            final(graphql)@,
            old(graphql).replay(),
            *fetch,
            *decode,
            organisation@,
            repository@,
            window,
            counted,
        ),
{
    let name = query_name(organisation, repository);
    let variables = QueryVariables {
        organisation: String::from_str(organisation),
        repository: String::from_str(repository),
        window_seconds: window,
        cursor: None,
    };
    let listed = paginate(graphql, name.as_str(), variables, fetch, decode);
    let ghost answer = listed;
    let counted = match listed {
        Ok(items) => Ok(items.len() as u64),
        Err(e) => Err(e),
    };
    proof {
        assert(paginate_result(
            old(graphql)@,
            graphql@,
            old(graphql).replay(),
            *fetch,
            *decode,
            query_name_of(organisation@, repository@),
            variables_of(organisation@, repository@, window),
            answer,
        ));
    }
    counted
}

} // verus!
