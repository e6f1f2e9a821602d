//! Repositories and pull requests on a forge.

use vstd::prelude::*;
use crate::text::str_eq;

verus! {

/// The kind of forge hosting a repository.
#[derive(Debug, Clone, Copy, PartialEq, Eq, Structural, Hash)]
pub enum ForgeType {
    GitHub,
    GitLab,
    Gitea,
}

/// The state of a pull request.
#[derive(Debug, Clone, Copy, PartialEq, Eq, Structural, Hash)]
pub enum PrStatus {
    Open,
    Draft,
    Merged,
    Closed,
}

/// A repository on a forge.
#[derive(Debug, PartialEq, Eq, Hash)]
pub struct RepoRef {
    pub forge: ForgeType,
    pub owner: String,
    pub repo: String,
}

/// A pull request: a repository and a number.
#[derive(Debug, PartialEq, Eq, Hash)]
pub struct PrRef {
    pub repo: RepoRef,
    pub number: u64,
}

/// The mathematical content of a pull request reference.
pub struct PrView {
    pub forge: ForgeType,
    pub owner: Seq<char>,
    pub repo: Seq<char>,
    pub number: u64,
}

impl View for PrRef {
    type V = PrView;

    open spec fn view(&self) -> PrView {
        PrView { forge: self.repo.forge, owner: self.repo.owner@, repo: self.repo.repo@, number: self.number }
    }
}

impl Clone for RepoRef {
    fn clone(&self) -> (r: Self)
        ensures
            r == *self,
    {
        RepoRef { forge: self.forge, owner: self.owner.clone(), repo: self.repo.clone() }
    }
}

impl Clone for PrRef {
    fn clone(&self) -> (r: Self)
        ensures
            r == *self,
    {
        PrRef { repo: self.repo.clone(), number: self.number }
    }
}

impl RepoRef {
    /// Whether two repository references name the same repository.
    pub fn same(&self, other: &RepoRef) -> (r: bool)
        ensures
            r == (self.forge == other.forge && self.owner@ == other.owner@ && self.repo@ == other.repo@),
    {
        self.forge == other.forge && str_eq(self.owner.as_str(), other.owner.as_str())
            && str_eq(self.repo.as_str(), other.repo.as_str())
    }
}

impl PrRef {
    /// Whether two references name the same pull request.
    pub fn same(&self, other: &PrRef) -> (r: bool)
        ensures
            r == (self@ == other@),
    {
        self.number == other.number && self.repo.same(&other.repo)
    }
}

} // verus!
