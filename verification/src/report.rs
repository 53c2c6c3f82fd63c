//! The report: where its files lie, what its configuration holds, and the
//! tables that it reads back.

use crate::cache::Graphql;
use crate::text::str_eq;
use vstd::prelude::*;
use vstd::string::*;

pub mod load;
pub mod repo_info;
pub mod repo_participant;
pub mod util;

verus! {

/// The name `name` below the directory `base`.
pub open spec fn joined(base: Seq<char>, name: Seq<char>) -> Seq<char> {
    base + seq!['/'] + name
}

fn join(base: &str, name: &str) -> (path: String)
    ensures
        path@ == joined(base@, name@),
{
    let mut path = String::from_str(base);
    path.append("/");
    path.append(name);
    proof {
        reveal_strlit("/");
        assert("/"@ =~= seq!['/']);
    }
    path
}

pub struct Report {
    /// Directory where to store the data.
    data_dir: String,
    /// If true, load the saved graphql queries from disk.
    replay_graphql: bool,
}

impl Report {
    /// The directory that holds everything the report reads and writes.
    pub closed spec fn data_dir(&self) -> Seq<char> {
        self.data_dir@
    }

    /// Whether queries are replayed from what an earlier run stored.
    pub closed spec fn replays(&self) -> bool {
        self.replay_graphql
    }

    pub fn new(data_dir: String, replay_graphql: bool) -> (report: Self)
        ensures
            report.data_dir() == data_dir@,
            report.replays() == replay_graphql,
    {
        Report { data_dir, replay_graphql }
    }

    /// The configuration file, `report.toml` in the data directory.
    pub fn config_file(&self) -> (path: String)
        ensures
            path@ == joined(self.data_dir(), "report.toml"@),
    {
        join(self.data_dir.as_str(), "report.toml")
    }

    /// An empty cache for the queries that are kept under `dir_name`, in the
    /// mode of this report.
    pub fn graphql(&self, dir_name: &str) -> (cache: Graphql)
        ensures
            cache.dir() == joined(joined(self.data_dir(), "graphql"@), dir_name@),
            cache.replay() == self.replays(),
            cache@ == Map::<(Seq<char>, u64), (Seq<char>, Option<Seq<char>>)>::empty(),
    {
        let graphql_dir = self.graphql_dir();
        Graphql::new(join(graphql_dir.as_str(), dir_name), self.replay_graphql)
    }

    /// Where the answers to queries are kept.
    pub fn graphql_dir(&self) -> (path: String)
        ensures
            path@ == joined(self.data_dir(), "graphql"@),
    {
        join(self.data_dir.as_str(), "graphql")
    }

    /// Where the tables lie that the producers write.
    pub fn input_dir(&self) -> (path: String)
        ensures
            path@ == joined(self.data_dir(), "inputs"@),
    {
        join(self.data_dir.as_str(), "inputs")
    }

    /// Where the finished report goes.
    pub fn output_dir(&self) -> (path: String)
        ensures
            path@ == joined(self.data_dir(), "output"@),
    {
        join(self.data_dir.as_str(), "output")
    }

    /// The table of pull requests per repository.
    pub fn repo_infos_file(&self) -> (path: String)
        ensures
            path@ == joined(joined(self.data_dir(), "inputs"@), "repo-infos.csv"@),
    {
        let dir = self.input_dir();
        join(dir.as_str(), "repo-infos.csv")
    }

    /// The table of participants per repository.
    pub fn repo_participants_file(&self) -> (path: String)
        ensures
            path@ == joined(joined(self.data_dir(), "inputs"@), "repo-participants.csv"@),
    {
        let dir = self.input_dir();
        join(dir.as_str(), "repo-participants.csv")
    }

    /// The directories that a run needs, in the order in which it makes them.
    pub fn directories(&self) -> (paths: Vec<String>)
        ensures
            paths@.len() == 3,
            paths@[0]@ == joined(self.data_dir(), "graphql"@),
            paths@[1]@ == joined(self.data_dir(), "inputs"@),
            paths@[2]@ == joined(self.data_dir(), "output"@),
    {
        let mut paths: Vec<String> = Vec::new();
        paths.push(self.graphql_dir());
        paths.push(self.input_dir());
        paths.push(self.output_dir());
        paths
    }
}

/// The repositories of one organisation on GitHub. No repositories stands for
/// all that the organisation has.
#[derive(Debug)]
pub struct Github {
    pub org: String,
    pub repos: Vec<String>,
}

/// What one entry of a project's table holds.
#[derive(Debug)]
pub enum ProjectConfigValue {
    Github(Github),
}

/// An entry of a project's table whose key does not fit its value.
#[derive(Debug)]
pub struct InvalidField {
    pub field: String,
}

impl InvalidField {
    /// The message for `field`.
    pub open spec fn message_for(field: Seq<char>) -> Seq<char> {
        "Invalid field '"@ + field + "' found for 'project' in report.toml"@
    }

    pub fn describe(&self) -> (text: String)
        ensures
            text@ == Self::message_for(self.field@),
    {
        let mut text = String::from_str("Invalid field '");
        text.append(self.field.as_str());
        text.append("' found for 'project' in report.toml");
        text
    }
}

impl ProjectConfigValue {
    /// Whether an entry under the key `identifier` may hold this value: the
    /// key `github` holds a `Github` value.
    pub open spec fn fits(self, identifier: Seq<char>) -> bool {
        identifier == "github"@ && self is Github
    }

    /// The value itself where the key of its entry fits it, else the key as an
    /// invalid field.
    pub fn map_by_pair(self, identifier: &str) -> (checked: Result<Self, InvalidField>)
        ensures
            self.fits(identifier@) ==> checked == Ok::<Self, InvalidField>(self),
            !self.fits(identifier@) ==> (checked matches Err(e) && e.field@ == identifier@),
    {
        if str_eq(identifier, "github") {
            match self {
                ProjectConfigValue::Github(project) => Ok(ProjectConfigValue::Github(project)),
            }
        } else {
            Err(InvalidField { field: String::from_str(identifier) })
        }
    }
}

/// The entries of one project's table.
#[derive(Debug)]
pub struct ProjectConfig(pub Vec<ProjectConfigValue>);

impl ProjectConfig {
    /// The project whose table holds the entries `pairs`, key and value, in
    /// their order; or the first key that does not fit its value.
    pub fn try_from(pairs: Vec<(String, ProjectConfigValue)>) -> (project: Result<
        ProjectConfig,
        InvalidField,
    >)
        ensures
            match project {
                Ok(p) => {
                    &&& p.0@.len() == pairs@.len()
                    &&& forall|i: int|
                        0 <= i < pairs@.len() ==> (#[trigger] pairs@[i]).1.fits(pairs@[i].0@)
                            && p.0@[i] == pairs@[i].1
                },
                Err(e) => exists|i: int|
                    {
                        &&& 0 <= i < pairs@.len()
                        &&& !(#[trigger] pairs@[i]).1.fits(pairs@[i].0@)
                        &&& e.field@ == pairs@[i].0@
                        &&& forall|j: int| 0 <= j < i ==> (#[trigger] pairs@[j]).1.fits(pairs@[j].0@)
                    },
            },
    {
        let mut values: Vec<ProjectConfigValue> = Vec::new();
        let mut rest = pairs;
        let ghost all = rest@;
        let mut i: usize = 0;
        let n: usize = rest.len();
        while i < n
            invariant
                all == pairs@,
                n == all.len(),
                i <= n,
                rest@.len() == n - i,
                forall|j: int| 0 <= j < n - i ==> rest@[j] == all[i + j],
                values@.len() == i,
                forall|j: int|
                    0 <= j < i ==> (#[trigger] all[j]).1.fits(all[j].0@) && values@[j] == all[j].1,
            decreases n - i,
        {
            let ghost before = rest@;
            let (identifier, value) = rest.remove(0);
            proof {
                assert((identifier, value) == all[i as int]);
                assert forall|j: int| 0 <= j < n - i - 1 implies rest@[j] == all[i + 1 + j] by {
                    assert(rest@[j] == before[j + 1]);
                }
            }
            match value.map_by_pair(identifier.as_str()) {
                Ok(checked) => {
                    values.push(checked);
                },
                Err(e) => {
                    return Err(e);
                },
            }
            i += 1;
        }
        Ok(ProjectConfig(values))
    }
}

/// When a participant counts as a high contributor.
#[derive(Debug, Clone, Copy)]
pub struct HighContributorConfig {
    pub high_reviewer_min_percentage: u64,
    pub high_reviewer_min_prs: u64,
    pub reviewer_saturation_threshold: u64,
    pub author_saturation_threshold: u64,
    pub high_participant_min_percentage: u64,
    pub high_participant_min_prs: u64,
    pub high_author_min_percentage: u64,
    pub high_author_min_prs: u64,
    /// Number of categories one must be "high" in
    /// to be considered a "high contributor".
    pub high_contributor_categories_threshold: u64,
}

/// Where the numbers come from.
#[derive(Debug, Clone, Copy)]
pub struct DataSourceConfig {
    /// The length of the trailing window, in days.
    pub number_of_days: i64,
}

/// What `report.toml` holds.
#[derive(Debug)]
pub struct ReportConfig {
    pub project: Vec<ProjectConfig>,
    pub high_contributor: HighContributorConfig,
    pub data_source: DataSourceConfig,
}

/// The `Github` values among `values`, in their order.
pub open spec fn github_values(values: Seq<ProjectConfigValue>) -> Seq<Github>
    decreases values.len(),
{
    if values.len() == 0 {
        Seq::empty()
    } else {
        match values.last() {
            ProjectConfigValue::Github(g) => github_values(values.drop_last()).push(g),
        }
    }
}

/// The `Github` values of all `projects`, project after project.
pub open spec fn github_of(projects: Seq<ProjectConfig>) -> Seq<Github>
    decreases projects.len(),
{
    if projects.len() == 0 {
        Seq::empty()
    } else {
        github_of(projects.drop_last()) + github_values(projects.last().0@)
    }
}

impl ReportConfig {
    /// The GitHub organisations of all projects, in the order of the
    /// configuration.
    pub fn github_projects(&self) -> (projects: Vec<&Github>)
        ensures
            projects@.len() == github_of(self.project@).len(),
            forall|i: int|
                0 <= i < projects@.len() ==> *(#[trigger] projects@[i]) == github_of(
                    self.project@,
                )[i],
    {
        let mut projects: Vec<&Github> = Vec::new();
        let mut i: usize = 0;
        while i < self.project.len()
            invariant
                i <= self.project@.len(),
                projects@.len() == github_of(self.project@.take(i as int)).len(),
                forall|k: int|
                    0 <= k < projects@.len() ==> *(#[trigger] projects@[k]) == github_of(
                        self.project@.take(i as int),
                    )[k],
            decreases self.project@.len() - i,
        {
            let values: &Vec<ProjectConfigValue> = &self.project[i].0;
            let ghost done = github_of(self.project@.take(i as int));
            let mut j: usize = 0;
            while j < values.len()
                invariant
                    j <= values@.len(),
                    projects@.len() == (done + github_values(values@.take(j as int))).len(),
                    forall|k: int|
                        0 <= k < projects@.len() ==> *(#[trigger] projects@[k]) == (done
                            + github_values(values@.take(j as int)))[k],
                decreases values@.len() - j,
            {
                proof {
                    let next = values@.take(j as int + 1);
                    assert(next.drop_last() =~= values@.take(j as int));
                    assert(next.last() == values@[j as int]);
                }
                match &values[j] {
                    ProjectConfigValue::Github(project) => {
                        projects.push(project);
                    },
                }
                j += 1;
            }
            proof {
                assert(values@.take(values@.len() as int) =~= values@);
                let next = self.project@.take(i as int + 1);
                assert(next.drop_last() =~= self.project@.take(i as int));
                assert(next.last() == self.project@[i as int]);
            }
            i += 1;
        }
        proof {
            assert(self.project@.take(self.project@.len() as int) =~= self.project@);
        }
        projects
    }
}

/// The tables that the report is computed from.
#[derive(Debug)]
pub struct ReportData {
    pub repo_participants: repo_participant::RepoParticipants,
    pub repo_infos: repo_info::RepoInfos,
}

} // verus!
