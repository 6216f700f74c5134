use crate::error::LedgerError;
use crate::billing::storage_price;
use crate::index::{index_add, index_drop_last, index_wf, members_of, Id};
use crate::metadata::{JsonProjectView, ProjectMetadataView};
use vstd::prelude::*;

verus! {

/// A request to move `amount` to `receiver_id`, as the specifications see it.
pub struct TransferView {
    pub receiver_id: Id,
    pub amount: u128,
}

/// The share of the funded total that is paid out to the owner: 95%, rounded down.
pub open spec fn payout_share(funded: nat) -> nat {
    funded * 95 / 100
}

/// The identifiers of the projects among `projects` that `owner_id` owns, in
/// the order of `projects`.
pub open spec fn owned_ids(projects: Seq<JsonProjectView>, owner_id: Id) -> Seq<Id>
    decreases projects.len(),
{
    if projects.len() == 0 {
        Seq::empty()
    } else if projects.last().owner_id == owner_id {
        owned_ids(projects.drop_last(), owner_id).push(projects.last().project_id)
    } else {
        owned_ids(projects.drop_last(), owner_id)
    }
}

/// The owner index that belongs to a registry: under each account that owns
/// a project, its projects in the order of registration.
pub open spec fn owner_index(projects: Seq<JsonProjectView>) -> Map<Id, Seq<Id>> {
    Map::new(
        |owner_id: Id| owned_ids(projects, owner_id).len() > 0,
        |owner_id: Id| owned_ids(projects, owner_id),
    )
}

/// One pledge of a series: an amount, and the account that attaches it.
pub struct PledgeView {
    pub amount: u128,
    pub supporter_id: Id,
}

/// The sum of the amounts of a series of pledges.
pub open spec fn pledged_total(pledges: Seq<PledgeView>) -> int
    decreases pledges.len(),
{
    if pledges.len() == 0 {
        0
    } else {
        pledged_total(pledges.drop_last()) + pledges.last().amount
    }
}

/// One attempt to change the ledger.
pub enum OperationView {
    Register { project_id: Id, metadata: ProjectMetadataView, owner_id: Id, now: u64 },
    Pledge { project_id: Id, amount: u128, supporter_id: Id },
    Vote { project_id: Id, voter_id: Id },
}

/// The mathematical value of the ledger.
pub struct ContractView {
    /// The account that administers the ledger.
    pub owner_id: Id,
    /// The registry: every project, in the order of registration.
    pub projects: Seq<JsonProjectView>,
    /// For each owner, the projects they own.
    pub projects_per_owner: Map<Id, Seq<Id>>,
    /// For each project, the accounts whose pledge was accepted.
    pub supporters_per_project: Map<Id, Seq<Id>>,
    /// For each project, the accounts that cast a vote.
    pub voters_per_project: Map<Id, Seq<Id>>,
}

impl ContractView {
    /// The ledger at deployment: no project, no index entry.
    pub open spec fn init(owner_id: Id) -> ContractView {
        ContractView {
            owner_id,
            projects: Seq::empty(),
            projects_per_owner: Map::empty(),
            supporters_per_project: Map::empty(),
            voters_per_project: Map::empty(),
        }
    }

    /// Whether the project `project_id` stands at place `i` of the registry.
    pub open spec fn has_project_at(self, i: int, project_id: Id) -> bool {
        0 <= i < self.projects.len() && self.projects[i].project_id == project_id
    }

    /// Whether `project_id` is registered.
    pub open spec fn contains_project(self, project_id: Id) -> bool {
        exists|i: int| self.has_project_at(i, project_id)
    }

    /// The place of a registered project in the registry.
    pub open spec fn index_of(self, project_id: Id) -> int {
        choose|i: int| self.has_project_at(i, project_id)
    }

    /// A registered project.
    pub open spec fn project(self, project_id: Id) -> JsonProjectView {
        self.projects[self.index_of(project_id)]
    }

    /// The project `project_id`, if it is registered.
    pub open spec fn get_project(self, project_id: Id) -> Option<JsonProjectView> {
        if self.contains_project(project_id) {
            Some(self.project(project_id))
        } else {
            None
        }
    }

    /// The amount that a registered project has raised.
    pub open spec fn funded(self, project_id: Id) -> u128 {
        self.project(project_id).metadata.funded_amount()
    }

    /// The funding goal of a registered project.
    pub open spec fn target(self, project_id: Id) -> u128 {
        self.project(project_id).metadata.target
    }

    /// The accounts whose pledge to `project_id` was accepted.
    pub open spec fn supporters(self, project_id: Id) -> Seq<Id> {
        members_of(self.supporters_per_project, project_id)
    }

    /// The accounts that voted for `project_id`.
    pub open spec fn voters(self, project_id: Id) -> Seq<Id> {
        members_of(self.voters_per_project, project_id)
    }

    /// The projects that `owner_id` owns.
    pub open spec fn projects_of(self, owner_id: Id) -> Seq<Id> {
        members_of(self.projects_per_owner, owner_id)
    }

    /// Whether no identifier stands twice in the registry.
    pub open spec fn distinct_ids(self) -> bool {
        forall|i: int, j: int|
            0 <= i < j < self.projects.len() ==> self.projects[i].project_id
                != self.projects[j].project_id
    }

    /// Whether the registry and the indices agree with each other:
    /// no identifier is registered twice, the owner index lists exactly the
    /// registered projects of each owner, no index holds a member twice, and
    /// supporters and voters are filed under registered projects only.
    pub open spec fn wf(self) -> bool {
        &&& self.distinct_ids()
        &&& self.projects_per_owner == owner_index(self.projects)
        &&& index_wf(self.supporters_per_project)
        &&& index_wf(self.voters_per_project)
        &&& forall|project_id: Id| #[trigger]
            self.supporters_per_project.contains_key(project_id) ==> self.contains_project(project_id)
        &&& forall|project_id: Id| #[trigger]
            self.voters_per_project.contains_key(project_id) ==> self.contains_project(project_id)
    }

    /// Why the registration of `project_id` is refused, if it is.
    pub open spec fn register_error(self, project_id: Id) -> Option<LedgerError> {
        if self.contains_project(project_id) {
            Some(LedgerError::AlreadyExists)
        } else {
            None
        }
    }

    /// The ledger with one more project at the end of the registry, filed
    /// under its owner.
    pub open spec fn insert_project(self, project: JsonProjectView) -> ContractView {
        ContractView {
            projects: self.projects.push(project),
            projects_per_owner: index_add(
                self.projects_per_owner,
                project.owner_id,
                project.project_id,
            ),
            ..self
        }
    }

    /// The ledger after `project_id` was registered for `owner_id` at time `now`.
    /// The registration time that the caller supplied is overwritten.
    pub open spec fn register(
        self,
        project_id: Id,
        metadata: ProjectMetadataView,
        owner_id: Id,
        now: u64,
    ) -> ContractView {
        self.insert_project(
            JsonProjectView { owner_id, project_id, metadata: metadata.with_started_at(Some(now)) },
        )
    }

    /// The ledger after an attempt to register: changed where the identifier
    /// is new, as it was where the registration is refused.
    pub open spec fn after_register(
        self,
        project_id: Id,
        metadata: ProjectMetadataView,
        owner_id: Id,
        now: u64,
    ) -> ContractView {
        if self.register_error(project_id) is None {
            self.register(project_id, metadata, owner_id, now)
        } else {
            self
        }
    }

    /// The ledger without the project that was registered last: the project
    /// leaves the registry and its owner's entry, and nothing stays filed
    /// under it.
    pub open spec fn without_last(self) -> ContractView {
        let project = self.projects.last();
        ContractView {
            projects: self.projects.drop_last(),
            projects_per_owner: index_drop_last(self.projects_per_owner, project.owner_id),
            supporters_per_project: self.supporters_per_project.remove(project.project_id),
            voters_per_project: self.voters_per_project.remove(project.project_id),
            ..self
        }
    }

    /// Why the deposit for the registration of `project_id` is not settled,
    /// if it is not: `project_id` is not the project that was registered
    /// last, or the deposit does not cover the price of the storage.
    pub open spec fn settle_error(
        self,
        project_id: Id,
        storage_used: u64,
        byte_cost: u128,
        attached_deposit: u128,
    ) -> Option<LedgerError> {
        if self.projects.len() == 0 || self.projects.last().project_id != project_id {
            Some(LedgerError::NotFound)
        } else if storage_price(storage_used, byte_cost) > attached_deposit {
            Some(LedgerError::InsufficientPayment)
        } else {
            None
        }
    }

    /// Why a pledge of `amount` to `project_id` is refused, if it is.
    pub open spec fn pledge_error(self, project_id: Id, amount: u128) -> Option<LedgerError> {
        if !self.contains_project(project_id) {
            Some(LedgerError::NotFound)
        } else {
            if self.funded(project_id) >= self.target(project_id) {
                Some(LedgerError::TargetAlreadyReached)
            } else if amount < self.project(project_id).metadata.minimum_pledge {
                Some(LedgerError::BelowMinimumPledge)
            } else if self.funded(project_id) + amount > u128::MAX {
                Some(LedgerError::IntegrityOverflow)
            } else {
                None
            }
        }
    }

    /// The ledger after a pledge of `amount` by `supporter_id` was accepted.
    pub open spec fn pledge(self, project_id: Id, amount: u128, supporter_id: Id) -> ContractView {
        let i = self.index_of(project_id);
        let project = self.projects[i];
        let funded = (project.metadata.funded_amount() + amount) as u128;
        ContractView {
            projects: self.projects.update(
                i,
                JsonProjectView { metadata: project.metadata.with_funded(Some(funded)), ..project },
            ),
            supporters_per_project: index_add(self.supporters_per_project, project_id, supporter_id),
            ..self
        }
    }

    /// The transfer that an accepted pledge of `amount` sets off: none while
    /// the total stays under the target, the owner's share of the total once
    /// it reaches the target.
    pub open spec fn payout(self, project_id: Id, amount: u128) -> Option<TransferView> {
        let funded = self.funded(project_id) + amount;
        if funded >= self.target(project_id) {
            Some(
                TransferView {
                    receiver_id: self.project(project_id).owner_id,
                    amount: payout_share(funded as nat) as u128,
                },
            )
        } else {
            None
        }
    }

    /// The ledger after an attempt to pledge: changed where the pledge is
    /// accepted, as it was where the pledge is refused.
    pub open spec fn after_pledge(self, project_id: Id, amount: u128, supporter_id: Id) -> ContractView {
        if self.pledge_error(project_id, amount) is None {
            self.pledge(project_id, amount, supporter_id)
        } else {
            self
        }
    }

    /// The transfer that an attempt to pledge sets off: that of an accepted
    /// pledge, none where the pledge is refused.
    pub open spec fn payout_of_attempt(self, project_id: Id, amount: u128) -> Option<TransferView> {
        if self.pledge_error(project_id, amount) is None {
            self.payout(project_id, amount)
        } else {
            None
        }
    }

    /// The ledger after a series of attempts to pledge to `project_id`.
    pub open spec fn after_pledges(self, project_id: Id, pledges: Seq<PledgeView>) -> ContractView
        decreases pledges.len(),
    {
        if pledges.len() == 0 {
            self
        } else {
            self.after_pledges(project_id, pledges.drop_last()).after_pledge(
                project_id,
                pledges.last().amount,
                pledges.last().supporter_id,
            )
        }
    }

    /// The transfers that a series of attempts to pledge to `project_id` sets
    /// off, in their order.
    pub open spec fn payouts_of(self, project_id: Id, pledges: Seq<PledgeView>) -> Seq<TransferView>
        decreases pledges.len(),
    {
        if pledges.len() == 0 {
            Seq::empty()
        } else {
            let earlier = self.payouts_of(project_id, pledges.drop_last());
            match self.after_pledges(project_id, pledges.drop_last()).payout_of_attempt(
                project_id,
                pledges.last().amount,
            ) {
                Some(transfer) => earlier.push(transfer),
                None => earlier,
            }
        }
    }

    /// Why a vote for `project_id` is refused, if it is.
    pub open spec fn vote_error(self, project_id: Id) -> Option<LedgerError> {
        if self.contains_project(project_id) {
            None
        } else {
            Some(LedgerError::NotFound)
        }
    }

    /// The ledger after `voter_id` voted for `project_id`.
    pub open spec fn vote(self, project_id: Id, voter_id: Id) -> ContractView {
        ContractView {
            voters_per_project: index_add(self.voters_per_project, project_id, voter_id),
            ..self
        }
    }
    /// The ledger after an attempt to vote: changed where the project is
    /// registered, as it was where it is not.
    pub open spec fn after_vote(self, project_id: Id, voter_id: Id) -> ContractView {
        if self.vote_error(project_id) is None {
            self.vote(project_id, voter_id)
        } else {
            self
        }
    }

    /// The ledger after one attempt: changed where the attempt is accepted, as
    /// it was where the attempt is refused.
    pub open spec fn after_operation(self, operation: OperationView) -> ContractView {
        match operation {
            OperationView::Register { project_id, metadata, owner_id, now } => self.after_register(
                project_id,
                metadata,
                owner_id,
                now,
            ),
            OperationView::Pledge { project_id, amount, supporter_id } => self.after_pledge(
                project_id,
                amount,
                supporter_id,
            ),
            OperationView::Vote { project_id, voter_id } => self.after_vote(project_id, voter_id),
        }
    }

    /// The ledger after a series of attempts, in turn.
    pub open spec fn after_operations(self, operations: Seq<OperationView>) -> ContractView
        decreases operations.len(),
    {
        if operations.len() == 0 {
            self
        } else {
            self.after_operations(operations.drop_last()).after_operation(operations.last())
        }
    }

    /// The ledger after each of `voters` has voted for `project_id`, in turn.
    pub open spec fn after_votes(self, project_id: Id, voters: Seq<Id>) -> ContractView
        decreases voters.len(),
    {
        if voters.len() == 0 {
            self
        } else {
            self.after_votes(project_id, voters.drop_last()).after_vote(project_id, voters.last())
        }
    }
}

/// Where the page of a list of `len` items begins: at `from_index`, or at the
/// end of the list where `from_index` lies beyond it. An absent start is the
/// beginning.
pub open spec fn page_start(len: nat, from_index: Option<u128>) -> int {
    let start = match from_index {
        Some(k) => k as int,
        None => 0,
    };
    if start >= len {
        len as int
    } else {
        start
    }
}

/// Where the page of a list of `len` items ends: `limit` items after its
/// beginning, or at the end of the list where fewer are left. An absent limit
/// is zero.
pub open spec fn page_end(len: nat, from_index: Option<u128>, limit: Option<u64>) -> int {
    let count = match limit {
        Some(n) => n as int,
        None => 0,
    };
    let start = page_start(len, from_index);
    if start + count >= len {
        len as int
    } else {
        start + count
    }
}

/// The part of `items` that a listing shows: at most `limit` items, starting
/// at `from_index`, in the order of `items`.
pub open spec fn page<A>(items: Seq<A>, from_index: Option<u128>, limit: Option<u64>) -> Seq<A> {
    items.subrange(
        page_start(items.len(), from_index),
        page_end(items.len(), from_index, limit),
    )
}

} // verus!
