use crate::contract::{Contract, Registration};
use crate::error::LedgerError;
use crate::events::{project_create_event, EventLog};
use crate::index::{with_member, Id};
use crate::laws::lemma_with_member;
use crate::metadata::{JsonProjectView, Project, ProjectMetadata};
use crate::model::{payout_share, TransferView};
use crate::billing::{refund_deposit, storage_price};
use crate::{AccountId, Balance, ProjectId, Timestamp};
use vstd::prelude::*;

verus! {

/// A request to the host to move `amount` to `receiver_id`.
///
/// The ledger asks for the transfer and does not wait for it: whether it
/// arrives is the business of whoever carries it out.
#[derive(Debug, PartialEq, Eq)]
pub struct Transfer {
    pub receiver_id: AccountId,
    pub amount: Balance,
}

impl View for Transfer {
    type V = TransferView;

    open spec fn view(&self) -> TransferView {
        TransferView { receiver_id: self.receiver_id@, amount: self.amount }
    }
}

/// The transfer that a pledge asked for, as the specifications see it.
pub open spec fn opt_transfer(t: Option<Transfer>) -> Option<TransferView> {
    match t {
        Some(t) => Some(t@),
        None => None,
    }
}

/// The owner's share of a funded total: 95%, rounded down.
///
/// What becomes of the other 5% is not decided here: the ledger asks for no
/// transfer of it.
pub fn payout_amount(funded: Balance) -> (r: Balance)
    ensures
        r == payout_share(funded as nat),
{
    let hundreds: u128 = funded / 100;
    let rest: u128 = funded % 100;
    assert(funded * 95 / 100 == hundreds * 95 + rest * 95 / 100) by (nonlinear_arith)
        requires
            hundreds == funded / 100,
            rest == funded % 100,
    ;
    assert(hundreds * 95 + rest * 95 / 100 <= funded) by (nonlinear_arith)
        requires
            hundreds == funded / 100,
            rest == funded % 100,
    ;
    hundreds * 95 + rest * 95 / 100
}

impl Contract {
    /// Registers `project_id` for `project_owner_id` at time `now`.
    ///
    /// The registration time in `metadata` is overwritten with `now`. The
    /// result is the notification to emit. An identifier that is taken is
    /// refused with `AlreadyExists`, and the ledger stays as it was.
    ///
    /// The deposit that pays for the storage is settled afterwards, by
    /// [`Contract::settle_registration`], once the host has metered what the
    /// registration takes: a deposit that falls short undoes the registration.
    pub fn create_project(
        &mut self,
        project_id: ProjectId,
        metadata: ProjectMetadata,
        project_owner_id: AccountId,
        now: Timestamp,
    ) -> (r: Result<EventLog, LedgerError>)
        requires
            old(self).wf(),
        ensures
            final(self).wf(),
            match r {
                Ok(event) => {
                    &&& old(self)@.register_error(project_id@) is None
                    &&& final(self)@ == old(self)@.register(
                        project_id@,
                        metadata@,
                        project_owner_id@,
                        now,
                    )
                    &&& event@ == project_create_event(project_owner_id@, project_id@)
                    &&& final(self)@.get_project(project_id@) == Some(
                        JsonProjectView {
                            owner_id: project_owner_id@,
                            project_id: project_id@,
                            metadata: metadata@.with_started_at(Some(now)),
                        },
                    )
                    &&& forall|other: Id|
                        other != project_id@ ==> final(self)@.get_project(other) == old(
                            self,
                        )@.get_project(other)
                },
                Err(e) => {
                    &&& old(self)@.register_error(project_id@) == Some(e)
                    &&& final(self)@ == old(self)@
                },
            },
    {
        if self.find_project(&project_id).is_some() {
            return Err(LedgerError::AlreadyExists);
        }
        let ghost before = self@;
        let ghost given = metadata@;
        let mut metadata = metadata;
        metadata.started_at = Some(now);
        let event = EventLog::project_create(&project_owner_id, &project_id);
        let project = Project { owner_id: project_owner_id.clone() };
        self.registry.push(Registration { project_id: project_id.clone(), project, metadata });
        self.internal_add_project_to_owner(&project_id, &project_owner_id);
        proof {
            let after = before.register(project_id@, given, project_owner_id@, now);
            assert(self@.projects =~= after.projects);
            before.lemma_register(project_id@, given, project_owner_id@, now);
        }
        Ok(event)
    }

    /// Settles the deposit that came with the registration of `project_id`,
    /// the project registered last, against the storage that it took.
    ///
    /// `storage_used` is the growth in persisted bytes that the host's meter
    /// reports for the registration, `byte_cost` the host's price of a byte.
    /// Where the deposit covers the price, the result is the excess to return
    /// to the caller, and the ledger stays as it is. Where it does not, the
    /// registration is undone and refused with `InsufficientPayment`: the
    /// ledger is then what it was before the registration. A `project_id`
    /// that is not the project registered last is refused with `NotFound`.
    pub fn settle_registration(
        &mut self,
        project_id: ProjectId,
        storage_used: u64,
        byte_cost: Balance,
        attached_deposit: Balance,
    ) -> (r: Result<Balance, LedgerError>)
        requires
            old(self).wf(),
        ensures
            final(self).wf(),
            match r {
                Ok(refund) => {
                    &&& old(self)@.settle_error(
                        project_id@,
                        storage_used,
                        byte_cost,
                        attached_deposit,
                    ) is None
                    &&& refund == attached_deposit - storage_price(storage_used, byte_cost)
                    &&& final(self)@ == old(self)@
                },
                Err(e) => {
                    &&& old(self)@.settle_error(
                        project_id@,
                        storage_used,
                        byte_cost,
                        attached_deposit,
                    ) == Some(e)
                    &&& final(self)@ == if e == LedgerError::InsufficientPayment {
                        old(self)@.without_last()
                    } else {
                        old(self)@
                    }
                },
            },
    {
        let ghost before = self@;
        let n = self.registry.len();
        if n == 0 {
            return Err(LedgerError::NotFound);
        }
        if !(self.registry[n - 1].project_id == project_id) {
            return Err(LedgerError::NotFound);
        }
        match refund_deposit(storage_used, byte_cost, attached_deposit) {
            Ok(refund) => Ok(refund),
            Err(e) => {
                match self.registry.pop() {
                    Some(registration) => {
                        self.projects_per_owner.drop_last(&registration.project.owner_id);
                        self.supporters_per_project.remove_key(&registration.project_id);
                        self.voters_per_project.remove_key(&registration.project_id);
                    },
                    None => {},
                }
                proof {
                    assert(self@.projects =~= before.without_last().projects);
                    before.lemma_without_last();
                }
                Err(e)
            },
        }
    }

    /// Takes a pledge of `amount` by `supporter_id` toward `project_id`.
    ///
    /// An accepted pledge adds its whole amount to the funded total and files
    /// the supporter. When the total reaches the target, the result asks for
    /// the transfer of the owner's share; from then on the project takes no
    /// pledge, so the transfer is asked for once. The deadline of a project
    /// does not stop pledges. A refused pledge leaves the ledger as it was.
    pub fn donate_project(
        &mut self,
        project_id: ProjectId,
        amount: Balance,
        supporter_id: AccountId,
    ) -> (r: Result<Option<Transfer>, LedgerError>)
        requires
            old(self).wf(),
        ensures
            final(self).wf(),
            match r {
                Ok(transfer) => {
                    &&& old(self)@.pledge_error(project_id@, amount) is None
                    &&& final(self)@ == old(self)@.pledge(project_id@, amount, supporter_id@)
                    &&& opt_transfer(transfer) == old(self)@.payout(project_id@, amount)
                    &&& final(self)@.funded(project_id@) == old(self)@.funded(project_id@) + amount
                    &&& final(self)@.supporters(project_id@) == with_member(
                        old(self)@.supporters(project_id@),
                        supporter_id@,
                    )
                    &&& final(self)@.supporters(project_id@).contains(supporter_id@)
                    &&& final(self)@.supporters(project_id@).len() == if old(self)@.supporters(
                        project_id@,
                    ).contains(supporter_id@) {
                        old(self)@.supporters(project_id@).len()
                    } else {
                        old(self)@.supporters(project_id@).len() + 1
                    }
                    &&& forall|other: Id|
                        other != project_id@ ==> final(self)@.get_project(other) == old(
                            self,
                        )@.get_project(other)
                },
                Err(e) => {
                    &&& old(self)@.pledge_error(project_id@, amount) == Some(e)
                    &&& final(self)@ == old(self)@
                },
            },
    {
        let ghost before = self@;
        let at = match self.find_project(&project_id) {
            Some(at) => at,
            None => {
                return Err(LedgerError::NotFound);
            },
        };
        proof {
            before.lemma_index_of(at as int, project_id@);
        }
        let funded: u128 = match self.registry[at].metadata.funded {
            Some(f) => f,
            None => 0,
        };
        let target: u128 = self.registry[at].metadata.target;
        let minimum_pledge: u128 = self.registry[at].metadata.minimum_pledge;
        if funded >= target {
            return Err(LedgerError::TargetAlreadyReached);
        }
        if amount < minimum_pledge {
            return Err(LedgerError::BelowMinimumPledge);
        }
        let funded: u128 = match funded.checked_add(amount) {
            Some(total) => total,
            None => {
                return Err(LedgerError::IntegrityOverflow);
            },
        };
        self.registry[at].metadata.funded = Some(funded);
        let transfer = if funded >= target {
            Some(
                Transfer {
                    receiver_id: self.registry[at].project.owner_id.clone(),
                    amount: payout_amount(funded),
                },
            )
        } else {
            None
        };
        self.internal_add_supporter_to_project(&supporter_id, &project_id);
        proof {
            let after = before.pledge(project_id@, amount, supporter_id@);
            assert(self@.projects =~= after.projects);
            before.lemma_pledge(project_id@, amount, supporter_id@);
            lemma_with_member(before.supporters(project_id@), supporter_id@);
        }
        Ok(transfer)
    }

    /// Records a vote of `voter_id` for `project_id`.
    ///
    /// Voting again changes nothing. A vote for an unknown project is refused
    /// with `NotFound`.
    pub fn vote_project(&mut self, project_id: ProjectId, voter_id: AccountId) -> (r: Result<
        (),
        LedgerError,
    >)
        requires
            old(self).wf(),
        ensures
            final(self).wf(),
            match r {
                Ok(_) => {
                    &&& old(self)@.vote_error(project_id@) is None
                    &&& final(self)@ == old(self)@.vote(project_id@, voter_id@)
                    &&& final(self)@.voters(project_id@) == with_member(
                        old(self)@.voters(project_id@),
                        voter_id@,
                    )
                    &&& final(self)@.voters(project_id@).contains(voter_id@)
                    &&& final(self)@.voters(project_id@).len() == if old(self)@.voters(
                        project_id@,
                    ).contains(voter_id@) {
                        old(self)@.voters(project_id@).len()
                    } else {
                        old(self)@.voters(project_id@).len() + 1
                    }
                },
                Err(e) => {
                    &&& old(self)@.vote_error(project_id@) == Some(e)
                    &&& final(self)@ == old(self)@
                },
            },
    {
        let ghost before = self@;
        if self.find_project(&project_id).is_none() {
            return Err(LedgerError::NotFound);
        }
        self.internal_add_voter_to_project(&voter_id, &project_id);
        proof {
            before.lemma_vote(project_id@, voter_id@);
            lemma_with_member(before.voters(project_id@), voter_id@);
        }
        Ok(())
    }
}

} // verus!
