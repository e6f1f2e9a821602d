//! An in-memory forge: pull requests with their status, labels and
//! comments, numbered in the order they were opened.

use vstd::prelude::*;
use crate::repo::{ForgeType, PrRef, PrStatus, PrView, RepoRef};
use crate::text::{clone_strings, contains_string, dec, dec_string, push_str, views};

verus! {

/// A pull request as the forge holds it.
struct StoredPr {
    pr: PrRef,
    title: String,
    body: String,
    head: String,
    base: String,
    status: PrStatus,
    labels: Vec<String>,
    comments: Vec<String>,
}

/// A stored pull request as plain values.
pub struct StoredView {
    pub pr: PrView,
    pub title: Seq<char>,
    pub body: Seq<char>,
    pub head: Seq<char>,
    pub base: Seq<char>,
    pub status: PrStatus,
    pub labels: Seq<Seq<char>>,
    pub comments: Seq<Seq<char>>,
}

impl View for StoredPr {
    type V = StoredView;

    closed spec fn view(&self) -> StoredView {
        StoredView {
            pr: self.pr@,
            title: self.title@,
            body: self.body@,
            head: self.head@,
            base: self.base@,
            status: self.status,
            labels: views(self.labels@),
            comments: views(self.comments@),
        }
    }
}

/// The forge as plain values: its pull requests in order and the next
/// number to hand out.
pub struct ForgeView {
    pub prs: Seq<StoredView>,
    pub next_number: u64,
}

/// The position of the first stored pull request `pr` names.
pub open spec fn position(prs: Seq<StoredView>, pr: PrView) -> Option<int>
    decreases prs.len(),
{
    if prs.len() == 0 {
        None
    } else {
        match position(prs.drop_last(), pr) {
            Some(i) => Some(i),
            None => if prs.last().pr == pr { Some(prs.len() - 1) } else { None },
        }
    }
}

/// A forge operation named a pull request it does not hold.
#[derive(Debug, PartialEq, Eq)]
pub enum ForgeError {
    NotFound { owner: String, repo: String, number: u64 },
}

impl ForgeError {
    /// The error as a sentence, e.g. `PR org/repo#3 not found`.
    pub fn message(&self) -> (s: String)
        ensures
            s@ == (match self {
                ForgeError::NotFound { owner, repo, number } => "PR "@ + owner@ + "/"@ + repo@ + "#"@ + dec(*number as nat) + " not found"@,
            }),
    {
        match self {
            ForgeError::NotFound { owner, repo, number } => {
                let mut s = String::new();
                push_str(&mut s, "PR ");
                push_str(&mut s, owner.as_str());
                push_str(&mut s, "/");
                push_str(&mut s, repo.as_str());
                push_str(&mut s, "#");
                let n = dec_string(*number);
                push_str(&mut s, n.as_str());
                push_str(&mut s, " not found");
                proof {
                    reveal_strlit("PR ");
                    reveal_strlit("/");
                    reveal_strlit("#");
                    reveal_strlit(" not found");
                    reveal_strlit("");
                }
                s
            },
        }
    }
}

/// The error for a missing pull request.
fn not_found(pr: &PrRef) -> (e: ForgeError)
    ensures
        e == (ForgeError::NotFound { owner: pr.repo.owner, repo: pr.repo.repo, number: pr.number }),
{
    ForgeError::NotFound { owner: pr.repo.owner.clone(), repo: pr.repo.repo.clone(), number: pr.number }
}

/// Whether a stored pull request carries one of the labels (any when none
/// are asked for).
pub open spec fn labelled(labels: Seq<Seq<char>>, wanted: Seq<Seq<char>>) -> bool {
    wanted.len() == 0 || exists|i: int| 0 <= i < wanted.len() && labels.contains(#[trigger] wanted[i])
}

/// The pull requests of a repository with one of the labels, in order.
pub open spec fn listed(prs: Seq<StoredView>, owner: Seq<char>, repo: Seq<char>, forge: ForgeType, wanted: Seq<Seq<char>>) -> Seq<PrView>
    decreases prs.len(),
{
    if prs.len() == 0 {
        Seq::empty()
    } else {
        let rest = listed(prs.drop_last(), owner, repo, forge, wanted);
        let p = prs.last();
        if p.pr.forge == forge && p.pr.owner == owner && p.pr.repo == repo && labelled(p.labels, wanted) {
            rest.push(p.pr)
        } else {
            rest
        }
    }
}

/// The views of pull request references.
pub open spec fn pr_views(v: Seq<PrRef>) -> Seq<PrView> {
    v.map_values(|p: PrRef| p@)
}

/// The views of string slices.
pub open spec fn str_views(v: Seq<&str>) -> Seq<Seq<char>> {
    v.map_values(|s: &str| s@)
}

/// A forge held in memory.
pub struct InMemoryForge {
    prs: Vec<StoredPr>,
    next_number: u64,
}

impl View for InMemoryForge {
    type V = ForgeView;

    closed spec fn view(&self) -> ForgeView {
        ForgeView { prs: self.prs@.map_values(|p: StoredPr| p@), next_number: self.next_number }
    }
}

proof fn lemma_position(prs: Seq<StoredView>, pr: PrView, i: int)
    requires
        0 <= i <= prs.len(),
        forall|j: int| 0 <= j < i ==> prs[j].pr != pr,
    ensures
        i < prs.len() && prs[i].pr == pr ==> position(prs, pr) == Some(i),
        i == prs.len() ==> position(prs, pr) is None,
    decreases prs.len(),
{
    if prs.len() > 0 {
        if i < prs.len() {
            if i < prs.len() - 1 {
                assert forall|j: int| 0 <= j < i implies prs.drop_last()[j].pr != pr by {
                    assert(prs.drop_last()[j] == prs[j]);
                }
                lemma_position(prs.drop_last(), pr, i);
                assert(prs.drop_last()[i] == prs[i]);
            } else {
                assert forall|j: int| 0 <= j < prs.len() - 1 implies prs.drop_last()[j].pr != pr by {
                    assert(prs.drop_last()[j] == prs[j]);
                }
                lemma_position(prs.drop_last(), pr, prs.len() - 1);
            }
        } else {
            assert forall|j: int| 0 <= j < prs.len() - 1 implies prs.drop_last()[j].pr != pr by {
                assert(prs.drop_last()[j] == prs[j]);
            }
            lemma_position(prs.drop_last(), pr, prs.len() - 1);
        }
    }
}

impl InMemoryForge {
    /// An empty forge; the first pull request gets number 1.
    pub fn new() -> (f: Self)
        ensures
            f@.prs == Seq::<StoredView>::empty(),
            f@.next_number == 1,
    {
        let f = InMemoryForge { prs: Vec::new(), next_number: 1 };
        assert(f@.prs =~= Seq::<StoredView>::empty());
        f
    }

    /// Find the first stored pull request for a reference.
    fn find(&self, pr: &PrRef) -> (r: Option<usize>)
        ensures
            match r {
                Some(i) => position(self@.prs, pr@) == Some(i as int) && i < self@.prs.len(),
                None => position(self@.prs, pr@) is None,
            },
    {
        let mut i: usize = 0;
        while i < self.prs.len()
            invariant
                i <= self.prs@.len(),
                forall|j: int| 0 <= j < i ==> self@.prs[j].pr != pr@,
            decreases self.prs@.len() - i,
        {
            if self.prs[i].pr.same(pr) {
                proof { lemma_position(self@.prs, pr@, i as int); }
                return Some(i);
            }
            i = i + 1;
        }
        proof { lemma_position(self@.prs, pr@, i as int); }
        None
    }

    /// Open a pull request with the next number.
    pub fn create_pr(&mut self, repo: &RepoRef, title: &str, body: &str, head: &str, base: &str) -> (r: Result<PrRef, ForgeError>)
        requires
            old(self)@.next_number < u64::MAX,
        ensures
            match r {
                Ok(pr) => {
                    &&& pr@ == (PrView { forge: repo.forge, owner: repo.owner@, repo: repo.repo@, number: old(self)@.next_number })
                    &&& final(self)@.next_number == old(self)@.next_number + 1
                    &&& final(self)@.prs == old(self)@.prs.push(StoredView {
                        pr: pr@,
                        title: title@,
                        body: body@,
                        head: head@,
                        base: base@,
                        status: PrStatus::Open,
                        labels: Seq::empty(),
                        comments: Seq::empty(),
                    })
                },
                Err(_) => false,
            },
    {
        let number = self.next_number;
        self.next_number = self.next_number + 1;
        let pr = PrRef { repo: repo.clone(), number };
        let labels: Vec<String> = Vec::new();
        let comments: Vec<String> = Vec::new();
        assert(views(labels@) =~= Seq::<Seq<char>>::empty());
        assert(views(comments@) =~= Seq::<Seq<char>>::empty());
        let ghost before = self@.prs;
        self.prs.push(StoredPr {
            pr: pr.clone(),
            title: title.to_owned(),
            body: body.to_owned(),
            head: head.to_owned(),
            base: base.to_owned(),
            status: PrStatus::Open,
            labels,
            comments,
        });
        assert(self@.prs =~= before.push(self.prs@[self.prs@.len() - 1]@));
        Ok(pr)
    }

    /// Add a comment to a pull request.
    pub fn comment(&mut self, pr: &PrRef, body: &str) -> (r: Result<(), ForgeError>)
        ensures
            match position(old(self)@.prs, pr@) {
                None => r == Err::<(), ForgeError>(ForgeError::NotFound { owner: pr.repo.owner, repo: pr.repo.repo, number: pr.number })
                    && final(self)@ == old(self)@,
                Some(i) => r is Ok && final(self)@ == (ForgeView {
                    prs: old(self)@.prs.update(i, StoredView { comments: old(self)@.prs[i].comments.push(body@), ..old(self)@.prs[i] }),
                    ..old(self)@
                }),
            },
    {
        match self.find(pr) {
            None => Err(not_found(pr)),
            Some(i) => {
                let ghost before = self@.prs;
                let mut stored = self.prs.remove(i);
                let ghost sv = stored@;
                let ghost cs = views(stored.comments@);
                stored.comments.push(body.to_owned());
                assert(views(stored.comments@) =~= cs.push(body@));
                self.prs.insert(i, stored);
                assert(self@.prs =~= before.update(i as int, StoredView { comments: cs.push(body@), ..sv }));
                Ok(())
            },
        }
    }

    /// The comments of a pull request.
    pub fn list_comments(&self, pr: &PrRef) -> (r: Result<Vec<String>, ForgeError>)
        ensures
            match position(self@.prs, pr@) {
                None => r == Err::<Vec<String>, ForgeError>(ForgeError::NotFound { owner: pr.repo.owner, repo: pr.repo.repo, number: pr.number }),
                Some(i) => r is Ok && views(r->Ok_0@) == self@.prs[i].comments,
            },
    {
        match self.find(pr) {
            None => Err(not_found(pr)),
            Some(i) => {
                let c = clone_strings(&self.prs[i].comments);
                assert(self@.prs[i as int] == self.prs@[i as int]@);
                Ok(c)
            },
        }
    }

    /// The status of a pull request.
    pub fn pr_status(&self, pr: &PrRef) -> (r: Result<PrStatus, ForgeError>)
        ensures
            match position(self@.prs, pr@) {
                None => r == Err::<PrStatus, ForgeError>(ForgeError::NotFound { owner: pr.repo.owner, repo: pr.repo.repo, number: pr.number }),
                Some(i) => r == Ok::<PrStatus, ForgeError>(self@.prs[i].status),
            },
    {
        match self.find(pr) {
            None => Err(not_found(pr)),
            Some(i) => {
                assert(self@.prs[i as int] == self.prs@[i as int]@);
                Ok(self.prs[i].status)
            },
        }
    }

    /// Add a label to a pull request unless it has it already.
    pub fn add_label(&mut self, pr: &PrRef, label: &str) -> (r: Result<(), ForgeError>)
        ensures
            match position(old(self)@.prs, pr@) {
                None => r == Err::<(), ForgeError>(ForgeError::NotFound { owner: pr.repo.owner, repo: pr.repo.repo, number: pr.number })
                    && final(self)@ == old(self)@,
                Some(i) => r is Ok && final(self)@ == (ForgeView {
                    prs: old(self)@.prs.update(i, StoredView {
                        labels: if old(self)@.prs[i].labels.contains(label@) {
                            old(self)@.prs[i].labels
                        } else {
                            old(self)@.prs[i].labels.push(label@)
                        },
                        ..old(self)@.prs[i]
                    }),
                    ..old(self)@
                }),
            },
    {
        match self.find(pr) {
            None => Err(not_found(pr)),
            Some(i) => {
                let ghost before = self@.prs;
                let mut stored = self.prs.remove(i);
                let ghost sv = stored@;
                let ghost ls = views(stored.labels@);
                let l = label.to_owned();
                if !contains_string(&stored.labels, &l) {
                    stored.labels.push(l);
                    assert(views(stored.labels@) =~= ls.push(label@));
                }
                self.prs.insert(i, stored);
                assert(self@.prs =~= before.update(i as int, self.prs@[i as int]@));
                Ok(())
            },
        }
    }

    /// The pull requests of a repository that carry one of the labels (all
    /// of them when no label is given), in the order they were opened.
    pub fn list_prs(&self, repo: &RepoRef, labels: &[&str]) -> (r: Result<Vec<PrRef>, ForgeError>)
        ensures
            r is Ok,
            pr_views(r->Ok_0@) == listed(self@.prs, repo.owner@, repo.repo@, repo.forge, str_views(labels@)),
    {
        let ghost wanted = str_views(labels@);
        let mut out: Vec<PrRef> = Vec::new();
        let mut i: usize = 0;
        while i < self.prs.len()
            invariant
                i <= self.prs@.len(),
                wanted == str_views(labels@),
                pr_views(out@) == listed(self@.prs.take(i as int), repo.owner@, repo.repo@, repo.forge, wanted),
            decreases self.prs@.len() - i,
        {
            let p = &self.prs[i];
            assert(self@.prs.take(i + 1).drop_last() =~= self@.prs.take(i as int));
            assert(self@.prs.take(i + 1).last() == p@);
            if p.pr.repo.same(repo) {
                let mut hit = labels.len() == 0;
                let mut k: usize = 0;
                while k < labels.len() && !hit
                    invariant
                        k <= labels@.len(),
                        wanted == str_views(labels@),
                        hit == (wanted.len() == 0 || exists|j: int| 0 <= j < k && views(p.labels@).contains(#[trigger] wanted[j])),
                    decreases labels@.len() - k,
                {
                    let l = labels[k].to_owned();
                    if contains_string(&p.labels, &l) {
                        assert(wanted[k as int] == l@);
                        hit = true;
                    }
                    k = k + 1;
                }
                proof {
                    if !hit && k < labels@.len() {
                        assert(false);
                    }
                    assert(hit == labelled(p@.labels, wanted));
                }
                if hit {
                    let ghost before = pr_views(out@);
                    out.push(p.pr.clone());
                    assert(pr_views(out@) =~= before.push(p@.pr));
                }
            }
            i = i + 1;
        }
        assert(self@.prs.take(self.prs@.len() as int) =~= self@.prs);
        Ok(out)
    }

    /// The kind of forge this stands in for.
    pub fn forge_type(&self) -> (t: ForgeType)
        ensures
            t == ForgeType::GitHub,
    {
        ForgeType::GitHub
    }

    /// The references of all pull requests, in order.
    pub fn prs(&self) -> (r: Vec<PrRef>)
        ensures
            pr_views(r@) == self@.prs.map_values(|p: StoredView| p.pr),
    {
        let mut out: Vec<PrRef> = Vec::new();
        let mut i: usize = 0;
        while i < self.prs.len()
            invariant
                i <= self.prs@.len(),
                pr_views(out@) == self@.prs.take(i as int).map_values(|p: StoredView| p.pr),
            decreases self.prs@.len() - i,
        {
            let ghost before = pr_views(out@);
            out.push(self.prs[i].pr.clone());
            assert(self@.prs[i as int].pr == self.prs@[i as int].pr@);
            assert(pr_views(out@) =~= before.push(self@.prs[i as int].pr));
            assert(self@.prs.take(i + 1).map_values(|p: StoredView| p.pr) =~= self@.prs.take(i as int).map_values(|p: StoredView| p.pr).push(self@.prs[i as int].pr));
            assert(pr_views(out@) =~= self@.prs.take(i + 1).map_values(|p: StoredView| p.pr));
            i = i + 1;
        }
        assert(self@.prs.take(self.prs@.len() as int) =~= self@.prs);
        out
    }

    /// The comments of a pull request (none if the forge does not hold it).
    pub fn comments_for(&self, pr: &PrRef) -> (r: Vec<String>)
        ensures
            match position(self@.prs, pr@) {
                None => r@.len() == 0,
                Some(i) => views(r@) == self@.prs[i].comments,
            },
    {
        match self.list_comments(pr) {
            Ok(c) => c,
            Err(_) => Vec::new(),
        }
    }

    /// Set the status of a pull request (no change if the forge does not
    /// hold it).
    pub fn set_status(&mut self, pr: &PrRef, status: PrStatus)
        ensures
            match position(old(self)@.prs, pr@) {
                None => final(self)@ == old(self)@,
                Some(i) => final(self)@ == (ForgeView {
                    prs: old(self)@.prs.update(i, StoredView { status, ..old(self)@.prs[i] }),
                    ..old(self)@
                }),
            },
    {
        match self.find(pr) {
            None => {},
            Some(i) => {
                let ghost before = self@.prs;
                let mut stored = self.prs.remove(i);
                let ghost sv = stored@;
                stored.status = status;
                self.prs.insert(i, stored);
                assert(self@.prs =~= before.update(i as int, StoredView { status, ..sv }));
            },
        }
    }
}

impl Default for InMemoryForge {
    fn default() -> (f: Self)
        ensures
            f@.prs == Seq::<StoredView>::empty(),
            f@.next_number == 1,
    {
        InMemoryForge::new()
    }
}

} // verus!
