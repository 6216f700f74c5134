use crate::contract::Contract;
use crate::index::Id;
use crate::metadata::{JsonProject, JsonProjectView};
use crate::model::{page, page_end, page_start};
use crate::{AccountId, Balance, ProjectId, Timestamp};
use vstd::prelude::*;

verus! {

/// The mathematical value of an optional project.
pub open spec fn opt_project(p: Option<JsonProject>) -> Option<JsonProjectView> {
    match p {
        Some(p) => Some(p@),
        None => None,
    }
}

/// The mathematical values of a list of projects.
pub open spec fn projects_view(projects: Vec<JsonProject>) -> Seq<JsonProjectView> {
    Seq::new(projects.len() as nat, |i: int| projects[i]@)
}

/// The bounds of the page of a list of `len` items: the page runs from the
/// first bound up to, and without, the second.
pub fn page_bounds(len: usize, from_index: Option<u128>, limit: Option<u64>) -> (r: (usize, usize))
    ensures
        r.0 == page_start(len as nat, from_index),
        r.1 == page_end(len as nat, from_index, limit),
        r.0 <= r.1 <= len,
{
    let start: u128 = match from_index {
        Some(k) => k,
        None => 0,
    };
    let count: u64 = match limit {
        Some(n) => n,
        None => 0,
    };
    if start >= len as u128 {
        (len, len)
    } else {
        let first: usize = start as usize;
        if count as u128 >= (len - first) as u128 {
            (first, len)
        } else {
            (first, first + count as usize)
        }
    }
}

impl Contract {
    /// How many projects are registered.
    pub fn get_number_of_projects(&self) -> (r: u128)
        ensures
            r == self@.projects.len(),
    {
        self.registry.len() as u128
    }

    /// The project `project_id` with its owner and metadata, if it is registered.
    pub fn get_project_info(&self, project_id: ProjectId) -> (r: Option<JsonProject>)
        requires
            self.wf(),
        ensures
            opt_project(r) == self@.get_project(project_id@),
    {
        match self.find_project(&project_id) {
            Some(at) => {
                proof {
                    self@.lemma_index_of(at as int, project_id@);
                }
                Some(self.registry[at].to_json())
            },
            None => None,
        }
    }

    /// The accounts whose pledge to `project_id` was accepted, each once, in
    /// the order of their first pledge. None for an unknown project.
    pub fn get_project_supporters(&self, project_id: ProjectId) -> (r: Vec<AccountId>)
        requires
            self.wf(),
        ensures
            r.deep_view() == self@.supporters(project_id@),
    {
        self.supporters_per_project.get(&project_id)
    }

    /// The accounts that voted for `project_id`, each once, in the order of
    /// their first vote. None for an unknown project.
    pub fn get_project_voters(&self, project_id: ProjectId) -> (r: Vec<AccountId>)
        requires
            self.wf(),
        ensures
            r.deep_view() == self@.voters(project_id@),
    {
        self.voters_per_project.get(&project_id)
    }

    /// The amount that `project_id` has raised, if it is registered. A total
    /// that was never set counts as zero.
    pub fn get_project_funded(&self, project_id: ProjectId) -> (r: Option<Balance>)
        requires
            self.wf(),
        ensures
            r == match self@.get_project(project_id@) {
                Some(p) => Some(p.metadata.funded_amount()),
                None => None,
            },
    {
        match self.find_project(&project_id) {
            Some(at) => {
                proof {
                    self@.lemma_index_of(at as int, project_id@);
                }
                match self.registry[at].metadata.funded {
                    Some(f) => Some(f),
                    None => Some(0),
                }
            },
            None => None,
        }
    }

    /// The funding goal of `project_id`, if it is registered.
    pub fn get_project_target(&self, project_id: ProjectId) -> (r: Option<Balance>)
        requires
            self.wf(),
        ensures
            r == match self@.get_project(project_id@) {
                Some(p) => Some(p.metadata.target),
                None => None,
            },
    {
        match self.find_project(&project_id) {
            Some(at) => {
                proof {
                    self@.lemma_index_of(at as int, project_id@);
                }
                Some(self.registry[at].metadata.target)
            },
            None => None,
        }
    }

    /// One page of all projects, in the order of registration: at most
    /// `limit` of them, starting at `from_index`. Without a limit the page is
    /// empty.
    pub fn get_projects_info(&self, from_index: Option<u128>, limit: Option<u64>) -> (r: Vec<
        JsonProject,
    >)
        ensures
            projects_view(r) == page(self@.projects, from_index, limit),
            r.len() == page_end(self@.projects.len(), from_index, limit) - page_start(
                self@.projects.len(),
                from_index,
            ),
    {
        let (start, end) = page_bounds(self.registry.len(), from_index, limit);
        let mut r: Vec<JsonProject> = Vec::new();
        let mut i: usize = start;
        while i < end
            invariant
                start <= i <= end <= self.registry.len(),
                r.len() == i - start,
                forall|j: int| 0 <= j < r.len() ==> r[j]@ == self.registry[start + j]@,
            decreases end - i,
        {
            r.push(self.registry[i].to_json());
            i += 1;
        }
        assert(projects_view(r) =~= page(self@.projects, from_index, limit));
        r
    }

    /// One page of the projects that `account_id` owns, in the order of
    /// registration: at most `limit` of them, starting at `from_index`.
    /// Without a limit the page is empty.
    pub fn get_projects_by_owner(
        &self,
        account_id: AccountId,
        from_index: Option<u128>,
        limit: Option<u64>,
    ) -> (r: Vec<JsonProject>)
        requires
            self.wf(),
        ensures
            projects_view(r) == page(self@.projects_of(account_id@), from_index, limit).map_values(
                |project_id: Id| self@.project(project_id),
            ),
            r.len() == page_end(self@.projects_of(account_id@).len(), from_index, limit)
                - page_start(self@.projects_of(account_id@).len(), from_index),
    {
        let keys = self.projects_per_owner.get(&account_id);
        let (start, end) = page_bounds(keys.len(), from_index, limit);
        let ghost ids = self@.projects_of(account_id@);
        assert(ids.len() == keys.len());
        let mut r: Vec<JsonProject> = Vec::new();
        let mut i: usize = start;
        while i < end
            invariant
                self.wf(),
                start <= i <= end <= keys.len(),
                keys.deep_view() == ids,
                ids == self@.projects_of(account_id@),
                r.len() == i - start,
                forall|j: int| 0 <= j < r.len() ==> r[j]@ == self@.project(ids[start + j]),
            decreases end - i,
        {
            proof {
                self@.lemma_owner_index();
                assert(ids[i as int] == keys[i as int]@);
                assert(ids.contains(ids[i as int]));
            }
            match self.find_project(&keys[i]) {
                Some(at) => {
                    proof {
                        self@.lemma_index_of(at as int, ids[i as int]);
                    }
                    r.push(self.registry[at].to_json());
                },
                None => {
                    assert(false);
                },
            }
            i += 1;
        }
        assert(projects_view(r) =~= page(ids, from_index, limit).map_values(
            |project_id: Id| self@.project(project_id),
        ));
        r
    }

    /// When `project_id` was registered, if it is registered.
    pub fn get_project_started_time(&self, project_id: ProjectId) -> (r: Option<Timestamp>)
        requires
            self.wf(),
        ensures
            r == match self@.get_project(project_id@) {
                Some(p) => p.metadata.started_at,
                None => None,
            },
    {
        match self.find_project(&project_id) {
            Some(at) => {
                proof {
                    self@.lemma_index_of(at as int, project_id@);
                }
                self.registry[at].metadata.started_at
            },
            None => None,
        }
    }

    /// Whether the deadline of `project_id` lies before `now`. Unknown where
    /// the project is not registered or has no deadline.
    pub fn is_project_ended(&self, project_id: ProjectId, now: Timestamp) -> (r: Option<bool>)
        requires
            self.wf(),
        ensures
            r == match self@.get_project(project_id@) {
                Some(p) => match p.metadata.ended_at {
                    Some(ended_at) => Some(ended_at < now),
                    None => None,
                },
                None => None,
            },
    {
        match self.find_project(&project_id) {
            Some(at) => {
                proof {
                    self@.lemma_index_of(at as int, project_id@);
                }
                match self.registry[at].metadata.ended_at {
                    Some(ended_at) => Some(ended_at < now),
                    None => None,
                }
            },
            None => None,
        }
    }
}

} // verus!
