//! The repositories that a report covers, organisation by organisation.

use crate::report::Github;
use vstd::prelude::*;
use vstd::string::*;

verus! {

/// The repositories as owned by a (GitHub) organisation.
#[derive(Debug)]
pub struct GitHubOrganization {
    organisation_name: String,
    repository_names: Vec<String>,
}

impl GitHubOrganization {
    /// The organisation's name.
    pub closed spec fn name(&self) -> Seq<char> {
        self.organisation_name@
    }

    /// The names of its repositories, in the order in which they were given.
    pub closed spec fn repositories(&self) -> Seq<String> {
        self.repository_names@
    }

    /// The organisation `org_name` with the repositories `repo_names`, in
    /// that order.
    pub fn new(org_name: &str, repo_names: &Vec<String>) -> (organisation: Self)
        ensures
            organisation.name() == org_name@,
            organisation.repositories() == repo_names@,
    {
        let names = repo_names.clone();
        assert(names@ =~= repo_names@);
        Self { organisation_name: String::from_str(org_name), repository_names: names }
    }

    pub fn organisation_name(&self) -> (name: &str)
        ensures
            name@ == self.name(),
    {
        self.organisation_name.as_str()
    }

    pub fn repository_names(&self) -> (names: &[String])
        ensures
            names@ == self.repositories(),
    {
        self.repository_names.as_slice()
    }
}

/// One organisation for each project, in the order of the projects, each with
/// the project's repositories in their order.
pub fn organisation_repositories(projects: &[&Github]) -> (organisations: Vec<GitHubOrganization>)
    ensures
        organisations@.len() == projects@.len(),
        forall|i: int|
            0 <= i < projects@.len() ==> (#[trigger] organisations@[i]).name() == projects@[i].org@
                && organisations@[i].repositories() == projects@[i].repos@,
{
    let mut organisations: Vec<GitHubOrganization> = Vec::new();
    let mut i: usize = 0;
    while i < projects.len()
        invariant
            i <= projects@.len(),
            organisations@.len() == i,
            forall|j: int|
                0 <= j < i ==> (#[trigger] organisations@[j]).name() == projects@[j].org@
                    && organisations@[j].repositories() == projects@[j].repos@,
        decreases projects@.len() - i,
    {
        let project: &Github = projects[i];
        organisations.push(GitHubOrganization::new(project.org.as_str(), &project.repos));
        i += 1;
    }
    organisations
}

} // verus!
