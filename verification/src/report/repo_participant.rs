//! The table of participants per repository, as the report reads it back.

use crate::report::repo_info::{percentage, percentage_of, RepoInfo};
use crate::text::str_eq;
use vstd::prelude::*;
use vstd::string::*;

verus! {

/// One row of the table: what one participant did in one repository.
#[derive(Debug)]
pub struct RepoParticipant {
    pub row: usize,
    pub participant: String,
    pub repo: String,
    pub participated_in: u64,
    pub authored: u64,
    pub reviewed: u64,
    pub resolved: u64,
}

impl Clone for RepoParticipant {
    fn clone(&self) -> (copy: Self)
        ensures
            copy == *self,
    {
        RepoParticipant {
            row: self.row,
            participant: self.participant.clone(),
            repo: self.repo.clone(),
            participated_in: self.participated_in,
            authored: self.authored,
            reviewed: self.reviewed,
            resolved: self.resolved,
        }
    }
}

impl RepoParticipant {
    /// The larger of the numbers of pull requests reviewed and resolved.
    pub open spec fn reviewed_or_resolved_of(self) -> u64 {
        if self.reviewed >= self.resolved {
            self.reviewed
        } else {
            self.resolved
        }
    }

    pub fn reviewed_or_resolved(&self) -> (most: u64)
        ensures
            most == self.reviewed_or_resolved_of(),
    {
        if self.reviewed >= self.resolved {
            self.reviewed
        } else {
            self.resolved
        }
    }
}

/// Whether `login` is the name of one of the known automation accounts.
pub open spec fn robot(login: Seq<char>) -> bool {
    ||| login == "rust-highfive"@
    ||| login == "bors"@
    ||| login == "rustbot"@
    ||| login == "rust-log-analyzer"@
    ||| login == "rust-timer"@
    ||| login == "rfcbot"@
}

/// Whether `login` is the name of one of the known automation accounts.
pub fn is_robot(login: &str) -> (known: bool)
    ensures
        known == robot(login@),
{
    str_eq(login, "rust-highfive") || str_eq(login, "bors") || str_eq(login, "rustbot") || str_eq(
        login,
        "rust-log-analyzer",
    ) || str_eq(login, "rust-timer") || str_eq(login, "rfcbot")
}

/// The records of people: `records` without those of automation accounts, in
/// the same order.
pub open spec fn without_robots(records: Seq<RepoParticipant>) -> Seq<RepoParticipant>
    decreases records.len(),
{
    if records.len() == 0 {
        Seq::empty()
    } else if robot(records.last().participant@) {
        without_robots(records.drop_last())
    } else {
        without_robots(records.drop_last()).push(records.last())
    }
}

/// The records of the repository `repo` among `participants`, in the same
/// order.
pub open spec fn of_repo(participants: Seq<RepoParticipant>, repo: Seq<char>) -> Seq<
    RepoParticipant,
>
    decreases participants.len(),
{
    if participants.len() == 0 {
        Seq::empty()
    } else if participants.last().repo@ == repo {
        of_repo(participants.drop_last(), repo).push(participants.last())
    } else {
        of_repo(participants.drop_last(), repo)
    }
}

/// Whether `keys` holds, for each of `members` in turn, a value that `key`
/// returns for it.
pub open spec fn keyed<K: Fn(&RepoParticipant) -> u64>(
    key: K,
    members: Seq<RepoParticipant>,
    keys: Seq<u64>,
) -> bool {
    &&& keys.len() == members.len()
    &&& forall|i: int| 0 <= i < members.len() ==> call_ensures(key, (&members[i],), #[trigger] keys[i])
}

/// Whether `keys[i]` is the largest of `keys`, and the last one that is.
pub open spec fn is_last_largest(keys: Seq<u64>, i: int) -> bool {
    &&& 0 <= i < keys.len()
    &&& forall|j: int| 0 <= j < i ==> #[trigger] keys[j] <= keys[i]
    &&& forall|j: int| i < j < keys.len() ==> #[trigger] keys[j] < keys[i]
}

/// The rows of the table.
#[derive(Debug)]
pub struct RepoParticipants {
    pub participants: Vec<RepoParticipant>,
}

impl RepoParticipants {
    /// The table with the rows `records`, those of automation accounts left
    /// out.
    pub fn from_records(records: &Vec<RepoParticipant>) -> (table: Self)
        ensures
            table.participants@ == without_robots(records@),
    {
        let mut people: Vec<RepoParticipant> = Vec::new();
        let mut i: usize = 0;
        while i < records.len()
            invariant
                i <= records@.len(),
                people@ == without_robots(records@.take(i as int)),
            decreases records@.len() - i,
        {
            proof {
                let next = records@.take(i as int + 1);
                assert(next.drop_last() =~= records@.take(i as int));
                assert(next.last() == records@[i as int]);
            }
            if !is_robot(records[i].participant.as_str()) {
                people.push(records[i].clone());
            }
            i += 1;
        }
        proof {
            assert(records@.take(records@.len() as int) =~= records@);
        }
        Self { participants: people }
    }

    /// Finds the participant with the maximum value for `key` among those of
    /// the repository of `repo_info`, the last one of them where several have
    /// it, and gives the name with the share of that value in the
    /// repository's pull requests. Without participants it gives `N/A` and 0.
    pub fn top_participant(
        &self,
        repo_info: &RepoInfo,
        key: impl Fn(&RepoParticipant) -> u64,
    ) -> (top: (String, u64))
        requires
            forall|p: &RepoParticipant| call_requires(key, (p,)),
        ensures
            of_repo(self.participants@, repo_info.repo@).len() == 0 ==> top.0@ == "N/A"@ && top.1
                == 0,
            of_repo(self.participants@, repo_info.repo@).len() > 0 ==> exists|
                keys: Seq<u64>,
                i: int,
            |
                {
                    &&& #[trigger] keyed(key, of_repo(self.participants@, repo_info.repo@), keys)
                    &&& #[trigger] is_last_largest(keys, i)
                    &&& top.0 == of_repo(self.participants@, repo_info.repo@)[i].participant
                    &&& top.1 == percentage_of(keys[i], repo_info.num_prs)
                },
    {
        let members = self.in_repo(repo_info);
        let ghost all = of_repo(self.participants@, repo_info.repo@);
        let mut best: Option<(usize, u64)> = None;
        let ghost mut keys = Seq::<u64>::empty();
        let mut i: usize = 0;
        while i < members.len()
            invariant
                forall|p: &RepoParticipant| call_requires(key, (p,)),
                members@.len() == all.len(),
                forall|j: int| 0 <= j < members@.len() ==> *(#[trigger] members@[j]) == all[j],
                i <= members@.len(),
                keys.len() == i,
                forall|j: int| 0 <= j < i ==> call_ensures(key, (&all[j],), #[trigger] keys[j]),
                i == 0 <==> best is None,
                best matches Some((at, value)) ==> is_last_largest(keys, at as int) && value
                    == keys[at as int],
            decreases members@.len() - i,
        {
            let member: &RepoParticipant = members[i];
            let value: u64 = key(member);
            proof {
                let earlier = keys;
                keys = keys.push(value);
                assert(*member == all[i as int]);
                assert forall|j: int| 0 <= j < i + 1 implies call_ensures(
                    key,
                    (&all[j],),
                    #[trigger] keys[j],
                ) by {
                    if j < i {
                        assert(keys[j] == earlier[j]);
                    }
                }
            }
            let higher: bool = match best {
                Some((_, most)) => value >= most,
                None => true,
            };
            if higher {
                best = Some((i, value));
            }
            i += 1;
        }
        match best {
            Some((at, value)) => {
                let name = members[at].participant.clone();
                proof {
                    assert(keyed(key, all, keys));
                    assert(is_last_largest(keys, at as int));
                }
                (name, percentage(value, repo_info.num_prs))
            },
            None => (String::from_str("N/A"), 0),
        }
    }

    /// The participants of the repository of `repo_info`, in the order of the
    /// table.
    pub fn in_repo<'me>(&'me self, repo_info: &'me RepoInfo) -> (members: Vec<&'me RepoParticipant>)
        ensures
            members@.len() == of_repo(self.participants@, repo_info.repo@).len(),
            forall|i: int|
                0 <= i < members@.len() ==> *(#[trigger] members@[i]) == of_repo(
                    self.participants@,
                    repo_info.repo@,
                )[i],
    {
        let mut members: Vec<&RepoParticipant> = Vec::new();
        let mut i: usize = 0;
        while i < self.participants.len()
            invariant
                i <= self.participants@.len(),
                members@.len() == of_repo(self.participants@.take(i as int), repo_info.repo@).len(),
                forall|k: int|
                    0 <= k < members@.len() ==> *(#[trigger] members@[k]) == of_repo(
                        self.participants@.take(i as int),
                        repo_info.repo@,
                    )[k],
            decreases self.participants@.len() - i,
        {
            proof {
                let next = self.participants@.take(i as int + 1);
                assert(next.drop_last() =~= self.participants@.take(i as int));
                assert(next.last() == self.participants@[i as int]);
            }
            if self.participants[i].repo == repo_info.repo {
                members.push(&self.participants[i]);
            }
            i += 1;
        }
        proof {
            assert(self.participants@.take(self.participants@.len() as int) =~= self.participants@);
        }
        members
    }
}

} // verus!
