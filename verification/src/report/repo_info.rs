//! The table of pull requests per repository, as the report reads it back.

use crate::report::repo_participant::RepoParticipant;
use crate::report::ReportConfig;
use crate::text::str_eq;
use vstd::prelude::*;

verus! {

/// One row of the table.
#[derive(Debug)]
pub struct RepoInfo {
    pub row: usize,
    pub repo: String,
    pub num_prs: u64,
}

impl Clone for RepoInfo {
    fn clone(&self) -> (copy: Self)
        ensures
            copy == *self,
    {
        RepoInfo { row: self.row, repo: self.repo.clone(), num_prs: self.num_prs }
    }
}

/// What the records hold for each repository: the record read last.
pub open spec fn by_repo(records: Seq<RepoInfo>) -> Map<Seq<char>, RepoInfo>
    decreases records.len(),
{
    if records.len() == 0 {
        Map::empty()
    } else {
        by_repo(records.drop_last()).insert(records.last().repo@, records.last())
    }
}

/// The rows of the table, by the name of the repository.
#[derive(Debug)]
pub struct RepoInfos {
    records: Vec<RepoInfo>,
}

impl View for RepoInfos {
    type V = Map<Seq<char>, RepoInfo>;

    closed spec fn view(&self) -> Map<Seq<char>, RepoInfo> {
        by_repo(self.records@)
    }
}

impl RepoInfos {
    /// The table with the rows `records`. Where two rows name the same
    /// repository, the later one stands.
    pub fn from_records(records: Vec<RepoInfo>) -> (infos: RepoInfos)
        ensures
            infos@ == by_repo(records@),
    {
        RepoInfos { records }
    }

    /// The row of the repository `repo`, if the table has one.
    pub fn find(&self, repo: &str) -> (found: Option<&RepoInfo>)
        ensures
            found is Some <==> self@.dom().contains(repo@),
            found matches Some(info) ==> *info == self@[repo@],
    {
        let mut i: usize = self.records.len();
        proof {
            assert(self.records@.take(i as int) =~= self.records@);
        }
        while i > 0
            invariant
                i <= self.records.len(),
                self@.dom().contains(repo@) <==> by_repo(self.records@.take(i as int)).dom().contains(
                    repo@,
                ),
                self@.dom().contains(repo@) ==> self@[repo@] == by_repo(
                    self.records@.take(i as int),
                )[repo@],
            decreases i,
        {
            i -= 1;
            proof {
                let upto = self.records@.take(i as int + 1);
                assert(upto.drop_last() =~= self.records@.take(i as int));
                assert(upto.last() == self.records@[i as int]);
            }
            if str_eq(self.records[i].repo.as_str(), repo) {
                return Some(&self.records[i]);
            }
        }
        proof {
            assert(self.records@.take(0) =~= Seq::<RepoInfo>::empty());
        }
        None
    }

    /// The row of the repository `repo`, which the table has.
    pub fn get(&self, repo: &str) -> (info: &RepoInfo)
        requires
            self@.dom().contains(repo@),
        ensures
            *info == self@[repo@],
    {
        match self.find(repo) {
            Some(info) => info,
            None => {
                proof {
                    assert(false);
                }
                &self.records[0]
            },
        }
    }
}

/// The share of `numerator` in `denominator`, in whole percent, rounded down.
/// Nothing has a share in nothing; a share that does not fit is the largest
/// number there is.
pub open spec fn percentage_of(numerator: u64, denominator: u64) -> u64 {
    if denominator == 0 {
        0
    } else if (numerator * 100) / (denominator as int) > u64::MAX {
        u64::MAX
    } else {
        ((numerator * 100) / (denominator as int)) as u64
    }
}

/// The share of `numerator` in `denominator`, in whole percent.
pub fn percentage(numerator: u64, denominator: u64) -> (percent: u64)
    ensures
        percent == percentage_of(numerator, denominator),
{
    if denominator == 0 {
        return 0;
    }
    let wide: u128 = (numerator as u128) * 100 / (denominator as u128);
    if wide > u64::MAX as u128 {
        u64::MAX
    } else {
        wide as u64
    }
}

/// In how many of the three ways a participant is highly active in a
/// repository with `num_prs` pull requests: in reviewing (a high share or a
/// high number of pull requests reviewed or resolved), as a participant and as
/// an author (a high share and a high number, both).
pub open spec fn high_categories(
    num_prs: u64,
    config: ReportConfig,
    participant: RepoParticipant,
) -> int {
    let hc = config.high_contributor;
    let reviews = participant.reviewed_or_resolved_of();
    let high_reviewer = percentage_of(reviews, num_prs) > hc.high_reviewer_min_percentage || reviews
        > hc.high_reviewer_min_prs;
    let high_activity = percentage_of(participant.participated_in, num_prs)
        > hc.high_participant_min_percentage && participant.participated_in
        > hc.high_participant_min_prs;
    let high_author = percentage_of(participant.authored, num_prs) > hc.high_author_min_percentage
        && participant.authored > hc.high_author_min_prs;
    (if high_reviewer {
        1int
    } else {
        0int
    }) + (if high_activity {
        1int
    } else {
        0int
    }) + (if high_author {
        1int
    } else {
        0int
    })
}

impl RepoInfo {
    /// Whether `participant` is highly active in this repository in at least
    /// as many ways as the configuration asks for.
    pub fn is_high_contributor(&self, config: &ReportConfig, participant: &RepoParticipant) -> (high:
        bool)
        ensures
            high == (high_categories(self.num_prs, *config, *participant)
                >= config.high_contributor.high_contributor_categories_threshold),
    {
        let hc = &config.high_contributor;
        let participated_in_percentage = percentage(participant.participated_in, self.num_prs);
        let authored_percentage = percentage(participant.authored, self.num_prs);
        let reviewed_or_resolved_percentage = percentage(
            participant.reviewed_or_resolved(),
            self.num_prs,
        );

        // Identify people who are "high" in one of the three ways.
        let high_reviewer = reviewed_or_resolved_percentage > hc.high_reviewer_min_percentage
            || participant.reviewed_or_resolved() > hc.high_reviewer_min_prs;
        let high_activity = participated_in_percentage > hc.high_participant_min_percentage
            && participant.participated_in > hc.high_participant_min_prs;
        let high_author = authored_percentage > hc.high_author_min_percentage && participant.authored
            > hc.high_author_min_prs;
        let mut high_total: u64 = 0;
        if high_reviewer {
            high_total += 1;
        }
        if high_activity {
            high_total += 1;
        }
        if high_author {
            high_total += 1;
        }
        // Being "highly active" in more ways than one makes you a high contributor.
        high_total >= hc.high_contributor_categories_threshold
    }
}

} // verus!
