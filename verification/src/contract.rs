use crate::index::{index_add, IndexStore};
use crate::metadata::{JsonProject, JsonProjectView, Project, ProjectMetadata};
use crate::model::ContractView;
use crate::{AccountId, ProjectId};
use vstd::prelude::*;

verus! {

/// One entry of the registry.
pub(crate) struct Registration {
    pub(crate) project_id: ProjectId,
    pub(crate) project: Project,
    pub(crate) metadata: ProjectMetadata,
}

impl Registration {
    pub(crate) open spec fn view(&self) -> JsonProjectView {
        JsonProjectView {
            owner_id: self.project.owner_id@,
            project_id: self.project_id@,
            metadata: self.metadata@,
        }
    }

    /// The entry as queries return it.
    pub(crate) fn to_json(&self) -> (r: JsonProject)
        ensures
            r@ == self@,
    {
        JsonProject {
            owner_id: self.project.owner_id.clone(),
            project_id: self.project_id.clone(),
            metadata: self.metadata.clone(),
        }
    }
}

/// The ledger: the registry of projects and the three indices.
pub struct Contract {
    pub(crate) owner_id: AccountId,
    pub(crate) registry: Vec<Registration>,
    pub(crate) projects_per_owner: IndexStore,
    pub(crate) supporters_per_project: IndexStore,
    pub(crate) voters_per_project: IndexStore,
}

impl Contract {
    /// The mathematical value of the ledger.
    pub open(crate) spec fn view(&self) -> ContractView {
        ContractView {
            owner_id: self.owner_id@,
            projects: Seq::new(self.registry.len() as nat, |i: int| self.registry[i]@),
            projects_per_owner: self.projects_per_owner@,
            supporters_per_project: self.supporters_per_project@,
            voters_per_project: self.voters_per_project@,
        }
    }

    /// Whether each of the three indices is well-formed by itself.
    pub(crate) open spec fn indices_wf(&self) -> bool {
        &&& self.projects_per_owner.wf()
        &&& self.supporters_per_project.wf()
        &&& self.voters_per_project.wf()
    }

    /// Whether the ledger is well-formed. Every ledger that this library hands
    /// out is.
    pub open(crate) spec fn wf(&self) -> bool {
        &&& self.indices_wf()
        &&& self@.wf()
    }

    /// The value of a well-formed ledger is well-formed.
    pub proof fn lemma_wf(&self)
        requires
            self.wf(),
        ensures
            self@.wf(),
    {
    }

    /// A ledger without projects, administered by `owner_id`.
    pub fn new(owner_id: AccountId) -> (r: Self)
        ensures
            r.wf(),
            r@ == ContractView::init(owner_id@),
    {
        let r = Contract {
            owner_id,
            registry: Vec::new(),
            projects_per_owner: IndexStore::new(),
            supporters_per_project: IndexStore::new(),
            voters_per_project: IndexStore::new(),
        };
        proof {
            assert(r@.projects =~= Seq::<JsonProjectView>::empty());
            ContractView::lemma_init(owner_id@);
        }
        r
    }

    /// The account that administers the ledger.
    pub fn owner_id(&self) -> (r: &AccountId)
        ensures
            r@ == self@.owner_id,
    {
        &self.owner_id
    }

    /// The place of `project_id` in the registry, if it is registered.
    pub(crate) fn find_project(&self, project_id: &ProjectId) -> (r: Option<usize>)
        ensures
            match r {
                Some(i) => i < self.registry.len() && self@.has_project_at(i as int, project_id@),
                None => !self@.contains_project(project_id@),
            },
    {
        let mut i: usize = 0;
        while i < self.registry.len()
            invariant
                i <= self.registry.len(),
                forall|j: int| 0 <= j < i ==> !self@.has_project_at(j, project_id@),
            decreases self.registry.len() - i,
        {
            if self.registry[i].project_id == *project_id {
                return Some(i);
            }
            i += 1;
        }
        None
    }

    /// Files `project_id` under its owner `account_id`.
    pub(crate) fn internal_add_project_to_owner(
        &mut self,
        project_id: &ProjectId,
        account_id: &AccountId,
    )
        requires
            old(self).indices_wf(),
        ensures
            final(self).indices_wf(),
            final(self)@ == (ContractView {
                projects_per_owner: index_add(
                    old(self)@.projects_per_owner,
                    account_id@,
                    project_id@,
                ),
                ..old(self)@
            }),
    {
        self.projects_per_owner.add(account_id, project_id);
    }

    /// Files `supporter_id` under the project `project_id`.
    pub(crate) fn internal_add_supporter_to_project(
        &mut self,
        supporter_id: &AccountId,
        project_id: &ProjectId,
    )
        requires
            old(self).indices_wf(),
        ensures
            final(self).indices_wf(),
            final(self)@ == (ContractView {
                supporters_per_project: index_add(
                    old(self)@.supporters_per_project,
                    project_id@,
                    supporter_id@,
                ),
                ..old(self)@
            }),
    {
        self.supporters_per_project.add(project_id, supporter_id);
    }

    /// Files `voter_id` under the project `project_id`.
    pub(crate) fn internal_add_voter_to_project(
        &mut self,
        voter_id: &AccountId,
        project_id: &ProjectId,
    )
        requires
            old(self).indices_wf(),
        ensures
            final(self).indices_wf(),
            final(self)@ == (ContractView {
                voters_per_project: index_add(
                    old(self)@.voters_per_project,
                    project_id@,
                    voter_id@,
                ),
                ..old(self)@
            }),
    {
        self.voters_per_project.add(project_id, voter_id);
    }
}

} // verus!
