use crate::error::LedgerError;
use crate::billing::storage_price;
use crate::index::{index_add, index_drop_last, index_wf, members_of, with_member, Id};
use crate::metadata::{JsonProjectView, ProjectMetadataView};
use crate::model::{
    owned_ids, owner_index, page, payout_share, pledged_total, ContractView, OperationView,
    PledgeView, TransferView,
};
use vstd::prelude::*;

verus! {

/// Adding a member to a duplicate-free list keeps the list duplicate-free:
/// the member is in it afterwards, once, and nothing else has changed.
pub proof fn lemma_with_member(members: Seq<Id>, member: Id)
    requires
        members.no_duplicates(),
    ensures
        with_member(members, member).no_duplicates(),
        with_member(members, member).contains(member),
        forall|other: Id|
            with_member(members, member).contains(other) <==> members.contains(other) || other
                == member,
        with_member(members, member).len() == if members.contains(member) {
            members.len()
        } else {
            members.len() + 1
        },
        with_member(with_member(members, member), member) == with_member(members, member),
{
    let after = with_member(members, member);
    if members.contains(member) {
    } else {
        assert(after[members.len() as int] == member);
        assert forall|other: Id| after.contains(other) <==> members.contains(other) || other
            == member by {
            if members.contains(other) {
                let i = choose|i: int| 0 <= i < members.len() && members[i] == other;
                assert(after[i] == other);
            }
        }
    }
}

/// Filing a member keeps an index well-formed, and changes the entry of its
/// key only. Filing it again changes nothing.
pub proof fn lemma_index_add(index: Map<Id, Seq<Id>>, key: Id, member: Id)
    requires
        index_wf(index),
    ensures
        index_wf(index_add(index, key, member)),
        members_of(index_add(index, key, member), key) == with_member(
            members_of(index, key),
            member,
        ),
        forall|other: Id|
            other != key ==> members_of(index_add(index, key, member), other) == members_of(
                index,
                other,
            ),
        forall|other: Id|
            index_add(index, key, member).contains_key(other) <==> index.contains_key(other)
                || other == key,
        index_add(index_add(index, key, member), key, member) == index_add(index, key, member),
{
    let after = index_add(index, key, member);
    assert(members_of(index, key).no_duplicates());
    lemma_with_member(members_of(index, key), member);
    assert forall|k: Id| #[trigger] after.contains_key(k) implies after[k].len() > 0
        && after[k].no_duplicates() by {
        if k != key {
            assert(index.contains_key(k));
        }
    }
    assert(index_add(after, key, member) =~= after);
}

/// The projects that an owner owns are those of the registry that name them
/// as owner, each once where the registry holds no identifier twice.
pub proof fn lemma_owned_ids(projects: Seq<JsonProjectView>, owner_id: Id)
    ensures
        forall|project_id: Id|
            owned_ids(projects, owner_id).contains(project_id) <==> exists|i: int|
                0 <= i < projects.len() && projects[i].project_id == project_id
                    && projects[i].owner_id == owner_id,
        (forall|i: int, j: int|
            0 <= i < j < projects.len() ==> projects[i].project_id != projects[j].project_id)
            ==> owned_ids(projects, owner_id).no_duplicates(),
    decreases projects.len(),
{
    if projects.len() > 0 {
        let rest = projects.drop_last();
        let last = projects.last();
        let at = projects.len() - 1;
        lemma_owned_ids(rest, owner_id);
        let owned = owned_ids(projects, owner_id);
        let before = owned_ids(rest, owner_id);
        assert forall|project_id: Id| owned.contains(project_id) <==> exists|i: int|
            0 <= i < projects.len() && projects[i].project_id == project_id
                && projects[i].owner_id == owner_id by {
            if owned.contains(project_id) {
                let k = choose|k: int| 0 <= k < owned.len() && owned[k] == project_id;
                if last.owner_id == owner_id && k == owned.len() - 1 {
                    assert(projects[at].project_id == project_id);
                } else {
                    assert(before[k] == project_id);
                    assert(before.contains(project_id));
                    let i = choose|i: int|
                        0 <= i < rest.len() && rest[i].project_id == project_id
                            && rest[i].owner_id == owner_id;
                    assert(projects[i] == rest[i]);
                }
            }
            if exists|i: int|
                0 <= i < projects.len() && projects[i].project_id == project_id
                    && projects[i].owner_id == owner_id {
                let i = choose|i: int|
                    0 <= i < projects.len() && projects[i].project_id == project_id
                        && projects[i].owner_id == owner_id;
                if i == at {
                    assert(owned[owned.len() - 1] == project_id);
                } else {
                    assert(rest[i] == projects[i]);
                    assert(before.contains(project_id));
                    let k = choose|k: int| 0 <= k < before.len() && before[k] == project_id;
                    assert(owned[k] == project_id);
                }
            }
        }
        if forall|i: int, j: int|
            0 <= i < j < projects.len() ==> projects[i].project_id != projects[j].project_id {
            assert forall|i: int, j: int| 0 <= i < j < rest.len() implies rest[i].project_id
                != rest[j].project_id by {
                assert(rest[i] == projects[i] && rest[j] == projects[j]);
            }
            if last.owner_id == owner_id {
                if before.contains(last.project_id) {
                    let i = choose|i: int|
                        0 <= i < rest.len() && rest[i].project_id == last.project_id
                            && rest[i].owner_id == owner_id;
                    assert(projects[i] == rest[i]);
                    assert(false);
                }
                assert(owned =~= with_member(before, last.project_id));
                lemma_with_member(before, last.project_id);
            }
        }
    }
}

/// Which projects an owner owns depends on the owners and identifiers in the
/// registry alone.
pub proof fn lemma_owned_ids_by_identity(
    a: Seq<JsonProjectView>,
    b: Seq<JsonProjectView>,
    owner_id: Id,
)
    requires
        a.len() == b.len(),
        forall|i: int|
            0 <= i < a.len() ==> a[i].owner_id == b[i].owner_id && a[i].project_id
                == b[i].project_id,
    ensures
        owned_ids(a, owner_id) == owned_ids(b, owner_id),
    decreases a.len(),
{
    if a.len() > 0 {
        lemma_owned_ids_by_identity(a.drop_last(), b.drop_last(), owner_id);
    }
}

/// The sum of the amounts of a series of pledges is no less than that of the
/// series without its last pledge, and never negative.
pub proof fn lemma_pledged_total_grows(pledges: Seq<PledgeView>)
    ensures
        0 <= pledged_total(pledges),
        pledges.len() > 0 ==> pledged_total(pledges.drop_last()) <= pledged_total(pledges),
    decreases pledges.len(),
{
    if pledges.len() > 0 {
        lemma_pledged_total_grows(pledges.drop_last());
    }
}

/// A page of a list of `M` items that starts at `k` and takes at most `n`
/// holds `min(n, max(0, M - k))` items: those of the list from `k` on, in
/// the order of the list. Without a limit, or with a limit of zero, the
/// page is empty.
pub proof fn lemma_page<A>(items: Seq<A>, from_index: Option<u128>, limit: Option<u64>)
    ensures
        page(items, from_index, limit).len() == ({
            let k = match from_index {
                Some(k) => k as int,
                None => 0,
            };
            let n = match limit {
                Some(n) => n as int,
                None => 0,
            };
            let left = if items.len() - k > 0 {
                items.len() - k
            } else {
                0
            };
            if n < left {
                n
            } else {
                left
            }
        }),
        forall|i: int|
            0 <= i < page(items, from_index, limit).len() ==> page(items, from_index, limit)[i]
                == items[(match from_index {
                Some(k) => k as int,
                None => 0,
            }) + i],
        limit is None || limit == Some(0u64) ==> page(items, from_index, limit) == Seq::<
            A,
        >::empty(),
{
    if limit is None || limit == Some(0u64) {
        assert(page(items, from_index, limit) =~= Seq::<A>::empty());
    }
}

impl ContractView {
    /// Where no identifier stands twice in the registry, a project that
    /// stands at place `i` is found at place `i`.
    pub proof fn lemma_first_index(self, i: int, project_id: Id)
        requires
            self.distinct_ids(),
            self.has_project_at(i, project_id),
        ensures
            self.contains_project(project_id),
            self.index_of(project_id) == i,
            self.project(project_id) == self.projects[i],
            self.get_project(project_id) == Some(self.projects[i]),
    {
        let c = self.index_of(project_id);
        assert(self.has_project_at(c, project_id));
        if c < i {
            assert(self.projects[c].project_id != self.projects[i].project_id);
        } else if i < c {
            assert(self.projects[i].project_id != self.projects[c].project_id);
        }
    }

    /// In a well-formed ledger the owner index is well-formed, and it files
    /// a project under an account exactly if the project is registered with
    /// that account as its owner.
    pub proof fn lemma_owner_index(self)
        requires
            self.wf(),
        ensures
            index_wf(self.projects_per_owner),
            forall|owner_id: Id| self.projects_of(owner_id) == owned_ids(self.projects, owner_id),
            forall|owner_id: Id, project_id: Id| #[trigger]
                self.projects_of(owner_id).contains(project_id) <==> self.contains_project(
                    project_id,
                ) && self.project(project_id).owner_id == owner_id,
    {
        assert forall|owner_id: Id| self.projects_of(owner_id) == owned_ids(
            self.projects,
            owner_id,
        ) by {
            assert(self.projects_of(owner_id) =~= owned_ids(self.projects, owner_id));
        }
        assert forall|owner_id: Id| #[trigger]
            self.projects_per_owner.contains_key(owner_id) implies self.projects_per_owner[owner_id].len()
            > 0 && self.projects_per_owner[owner_id].no_duplicates() by {
            lemma_owned_ids(self.projects, owner_id);
        }
        assert forall|owner_id: Id, project_id: Id| #[trigger]
            self.projects_of(owner_id).contains(project_id) <==> self.contains_project(project_id)
                && self.project(project_id).owner_id == owner_id by {
            lemma_owned_ids(self.projects, owner_id);
            if self.projects_of(owner_id).contains(project_id) {
                let i = choose|i: int|
                    0 <= i < self.projects.len() && self.projects[i].project_id == project_id
                        && self.projects[i].owner_id == owner_id;
                assert(self.has_project_at(i, project_id));
                self.lemma_first_index(i, project_id);
            }
            if self.contains_project(project_id) && self.project(project_id).owner_id == owner_id {
                let i = self.index_of(project_id);
                assert(self.has_project_at(i, project_id));
            }
        }
    }

    /// The ledger at deployment is well-formed, and holds no project.
    pub proof fn lemma_init(owner_id: Id)
        ensures
            Self::init(owner_id).wf(),
            forall|project_id: Id| Self::init(owner_id).get_project(project_id) is None,
    {
        let s = Self::init(owner_id);
        assert forall|project_id: Id| s.get_project(project_id) is None by {
            assert forall|i: int| !s.has_project_at(i, project_id) by {}
        }
        assert(s.projects_per_owner =~= owner_index(s.projects));
    }

    /// A project under a new identifier, put at the end of the registry: it
    /// is found as it was put, every other project is found as before, and
    /// the ledger stays well-formed.
    pub proof fn lemma_insert_project(self, project: JsonProjectView)
        requires
            self.wf(),
            !self.contains_project(project.project_id),
        ensures
            self.insert_project(project).wf(),
            self.insert_project(project).get_project(project.project_id) == Some(project),
            forall|other: Id|
                other != project.project_id ==> self.insert_project(project).get_project(other)
                    == self.get_project(other),
    {
        let after = self.insert_project(project);
        let project_id = project.project_id;
        let last = self.projects.len() as int;
        assert forall|i: int| 0 <= i < last implies self.projects[i].project_id != project_id by {
            assert(!self.has_project_at(i, project_id));
        }
        assert forall|i: int, other: Id|
            after.has_project_at(i, other) <==> self.has_project_at(i, other) || (i == last
                && other == project_id) by {}
        assert(after.has_project_at(last, project_id));
        after.lemma_first_index(last, project_id);
        assert forall|other: Id| other != project_id implies after.get_project(other)
            == self.get_project(other) by {
            if self.contains_project(other) {
                let i = self.index_of(other);
                assert(after.has_project_at(i, other));
                self.lemma_first_index(i, other);
                after.lemma_first_index(i, other);
            } else {
                assert forall|i: int| !after.has_project_at(i, other) by {
                    assert(!self.has_project_at(i, other));
                }
            }
        }
        assert(after.projects_per_owner =~= owner_index(after.projects)) by {
            assert(after.projects.drop_last() =~= self.projects);
            lemma_owned_ids(self.projects, project.owner_id);
            assert(!owned_ids(self.projects, project.owner_id).contains(project_id));
            assert(members_of(self.projects_per_owner, project.owner_id) =~= owned_ids(
                self.projects,
                project.owner_id,
            ));
        }
        assert forall|p: Id| #[trigger]
            after.supporters_per_project.contains_key(p) implies after.contains_project(p) by {
            assert(self.contains_project(p));
            assert(after.has_project_at(self.index_of(p), p));
        }
        assert forall|p: Id| #[trigger]
            after.voters_per_project.contains_key(p) implies after.contains_project(p) by {
            assert(self.contains_project(p));
            assert(after.has_project_at(self.index_of(p), p));
        }
    }

    /// Registration of a new identifier: the new project is found as it was
    /// registered, with the time of registration in place of whatever the
    /// caller supplied; every other project is found as before; and the
    /// ledger stays well-formed.
    pub proof fn lemma_register(
        self,
        project_id: Id,
        metadata: ProjectMetadataView,
        owner_id: Id,
        now: u64,
    )
        requires
            self.wf(),
            self.register_error(project_id) is None,
        ensures
            self.register(project_id, metadata, owner_id, now).wf(),
            self.register(project_id, metadata, owner_id, now).get_project(project_id) == Some(
                JsonProjectView {
                    owner_id,
                    project_id,
                    metadata: metadata.with_started_at(Some(now)),
                },
            ),
            forall|other: Id|
                other != project_id ==> self.register(
                    project_id,
                    metadata,
                    owner_id,
                    now,
                ).get_project(other) == self.get_project(other),
    {
        self.lemma_insert_project(
            JsonProjectView { owner_id, project_id, metadata: metadata.with_started_at(Some(now)) },
        );
    }

    /// An accepted pledge: the funded total of the project grows by exactly
    /// the pledged amount, nothing else of it changes, every other project
    /// stays as it was, the supporter is on file once, and the ledger stays
    /// well-formed.
    pub proof fn lemma_pledge(self, project_id: Id, amount: u128, supporter_id: Id)
        requires
            self.wf(),
            self.pledge_error(project_id, amount) is None,
        ensures
            self.pledge(project_id, amount, supporter_id).wf(),
            self.pledge(project_id, amount, supporter_id).get_project(project_id) == Some(
                JsonProjectView {
                    metadata: self.project(project_id).metadata.with_funded(
                        Some((self.funded(project_id) + amount) as u128),
                    ),
                    ..self.project(project_id)
                },
            ),
            self.pledge(project_id, amount, supporter_id).funded(project_id) == self.funded(
                project_id,
            ) + amount,
            forall|other: Id|
                other != project_id ==> self.pledge(project_id, amount, supporter_id).get_project(
                    other,
                ) == self.get_project(other),
            self.pledge(project_id, amount, supporter_id).supporters(project_id) == with_member(
                self.supporters(project_id),
                supporter_id,
            ),
            forall|other: Id|
                other != project_id ==> self.pledge(project_id, amount, supporter_id).supporters(
                    other,
                ) == self.supporters(other),
    {
        let after = self.pledge(project_id, amount, supporter_id);
        let at = self.index_of(project_id);
        assert(self.has_project_at(at, project_id));
        assert forall|i: int, other: Id|
            after.has_project_at(i, other) <==> self.has_project_at(i, other) by {}
        after.lemma_first_index(at, project_id);
        assert forall|other: Id| other != project_id implies after.get_project(other)
            == self.get_project(other) by {
            if self.contains_project(other) {
                let i = self.index_of(other);
                assert(self.has_project_at(i, other));
                assert(after.has_project_at(i, other));
                after.lemma_first_index(i, other);
            } else {
                assert forall|i: int| !after.has_project_at(i, other) by {
                    assert(!self.has_project_at(i, other));
                }
            }
        }
        lemma_index_add(self.supporters_per_project, project_id, supporter_id);
        assert(after.projects_per_owner =~= owner_index(after.projects)) by {
            assert forall|o: Id| owned_ids(self.projects, o) == owned_ids(after.projects, o) by {
                lemma_owned_ids_by_identity(self.projects, after.projects, o);
            }
        }
        assert forall|p: Id| #[trigger]
            after.supporters_per_project.contains_key(p) implies after.contains_project(p) by {
            if p != project_id {
                assert(self.contains_project(p));
                assert(after.has_project_at(self.index_of(p), p));
            }
        }
        assert forall|p: Id| #[trigger]
            after.voters_per_project.contains_key(p) implies after.contains_project(p) by {
            assert(self.contains_project(p));
            assert(after.has_project_at(self.index_of(p), p));
        }
    }

    /// A vote for a registered project: the voter is on file once, the voters
    /// of every other project and all else stay as they were, and the ledger
    /// stays well-formed.
    pub proof fn lemma_vote(self, project_id: Id, voter_id: Id)
        requires
            self.wf(),
            self.vote_error(project_id) is None,
        ensures
            self.vote(project_id, voter_id).wf(),
            self.vote(project_id, voter_id).voters(project_id) == with_member(
                self.voters(project_id),
                voter_id,
            ),
            forall|other: Id|
                other != project_id ==> self.vote(project_id, voter_id).voters(other)
                    == self.voters(other),
            forall|any: Id|
                self.vote(project_id, voter_id).get_project(any) == self.get_project(any),
    {
        let after = self.vote(project_id, voter_id);
        lemma_index_add(self.voters_per_project, project_id, voter_id);
        assert forall|i: int, other: Id|
            after.has_project_at(i, other) <==> self.has_project_at(i, other) by {}
        assert forall|p: Id| after.get_project(p) == self.get_project(p) by {
            if self.contains_project(p) {
                let i = self.index_of(p);
                assert(after.has_project_at(i, p));
                self.lemma_first_index(i, p);
                after.lemma_first_index(i, p);
            }
            if after.contains_project(p) {
                assert(self.has_project_at(after.index_of(p), p));
            }
        }
        assert forall|p: Id| #[trigger]
            after.supporters_per_project.contains_key(p) implies after.contains_project(p) by {
            assert(self.get_project(p) is Some);
            assert(after.get_project(p) is Some);
        }
        assert forall|p: Id| #[trigger]
            after.voters_per_project.contains_key(p) implies after.contains_project(p) by {
            if p != project_id {
                assert(self.get_project(p) is Some);
            }
            assert(after.get_project(p) is Some);
        }
    }

    /// A well-formed ledger without its last project is well-formed: that
    /// project is unknown to it, and every other project is found as before.
    pub proof fn lemma_without_last(self)
        requires
            self.wf(),
            self.projects.len() > 0,
        ensures
            self.without_last().wf(),
            self.without_last().projects_per_owner == owner_index(self.projects.drop_last()),
            self.without_last().get_project(self.projects.last().project_id) is None,
            forall|other: Id|
                other != self.projects.last().project_id ==> self.without_last().get_project(other)
                    == self.get_project(other),
    {
        let after = self.without_last();
        let last = self.projects.last();
        let n = self.projects.len() - 1;
        assert forall|i: int, other: Id|
            after.has_project_at(i, other) <==> self.has_project_at(i, other) && i < n by {}
        assert(after.distinct_ids());
        assert forall|i: int| !after.has_project_at(i, last.project_id) by {
            if after.has_project_at(i, last.project_id) {
                assert(self.projects[i].project_id != self.projects[n].project_id);
            }
        }
        assert forall|other: Id| other != last.project_id implies after.get_project(other)
            == self.get_project(other) by {
            if self.contains_project(other) {
                let i = self.index_of(other);
                assert(self.has_project_at(i, other));
                assert(after.has_project_at(i, other));
                after.lemma_first_index(i, other);
                self.lemma_first_index(i, other);
            } else {
                assert forall|i: int| !after.has_project_at(i, other) by {
                    assert(!self.has_project_at(i, other));
                }
            }
        }
        assert(after.projects_per_owner =~= owner_index(after.projects)) by {
            let owned = owned_ids(after.projects, last.owner_id);
            assert(owned_ids(self.projects, last.owner_id) == owned.push(last.project_id));
            assert(owned.push(last.project_id).drop_last() =~= owned);
            assert(self.projects_per_owner.contains_key(last.owner_id));
        }
        assert forall|p: Id| #[trigger]
            after.supporters_per_project.contains_key(p) implies after.contains_project(p) by {
            assert(self.supporters_per_project.contains_key(p));
            assert(self.get_project(p) is Some);
            assert(after.get_project(p) is Some);
        }
        assert forall|p: Id| #[trigger]
            after.voters_per_project.contains_key(p) implies after.contains_project(p) by {
            assert(self.voters_per_project.contains_key(p));
            assert(self.get_project(p) is Some);
            assert(after.get_project(p) is Some);
        }
    }

    /// A registration whose deposit does not cover the price of its storage
    /// leaves no trace: the project that was just registered is the one that
    /// the settlement refuses with `InsufficientPayment`, and the ledger
    /// without it is the ledger before the registration.
    pub proof fn lemma_register_undone(
        self,
        project_id: Id,
        metadata: ProjectMetadataView,
        owner_id: Id,
        now: u64,
        storage_used: u64,
        byte_cost: u128,
        attached_deposit: u128,
    )
        requires
            self.wf(),
            self.register_error(project_id) is None,
        ensures
            self.register(project_id, metadata, owner_id, now).without_last() == self,
            self.register(project_id, metadata, owner_id, now).settle_error(
                project_id,
                storage_used,
                byte_cost,
                attached_deposit,
            ) == if storage_price(storage_used, byte_cost) > attached_deposit {
                Some(LedgerError::InsufficientPayment)
            } else {
                None
            },
    {
        let registered = self.register(project_id, metadata, owner_id, now);
        let undone = registered.without_last();
        self.lemma_register(project_id, metadata, owner_id, now);
        registered.lemma_without_last();
        assert(undone.projects =~= self.projects);
        assert(undone.supporters_per_project =~= self.supporters_per_project);
        assert(undone.voters_per_project =~= self.voters_per_project);
    }

    /// Once a project is registered, its identifier is taken: a second
    /// registration under it is refused with `AlreadyExists`, whatever it
    /// brings, and so leaves the first as it is.
    pub proof fn lemma_register_twice(
        self,
        project_id: Id,
        metadata: ProjectMetadataView,
        owner_id: Id,
        now: u64,
    )
        requires
            self.wf(),
            self.register_error(project_id) is None,
        ensures
            self.register(project_id, metadata, owner_id, now).register_error(project_id) == Some(
                LedgerError::AlreadyExists,
            ),
    {
        self.lemma_register(project_id, metadata, owner_id, now);
    }

    /// A pledge under the minimum to a project that has not reached its
    /// target is refused with `BelowMinimumPledge`, and the ledger, the
    /// funded total with it, stays as it was.
    pub proof fn lemma_pledge_below_minimum(self, project_id: Id, amount: u128, supporter_id: Id)
        requires
            self.contains_project(project_id),
            self.funded(project_id) < self.target(project_id),
            amount < self.project(project_id).metadata.minimum_pledge,
        ensures
            self.pledge_error(project_id, amount) == Some(LedgerError::BelowMinimumPledge),
            self.after_pledge(project_id, amount, supporter_id) == self,
    {
    }

    /// Once a project has reached its target, every pledge to it is refused
    /// with `TargetAlreadyReached`, sets off no transfer, and the ledger, the
    /// funded total with it, stays as it was.
    pub proof fn lemma_pledge_after_target(self, project_id: Id, amount: u128, supporter_id: Id)
        requires
            self.contains_project(project_id),
            self.funded(project_id) >= self.target(project_id),
        ensures
            self.pledge_error(project_id, amount) == Some(LedgerError::TargetAlreadyReached),
            self.after_pledge(project_id, amount, supporter_id) == self,
            self.payout_of_attempt(project_id, amount) is None,
    {
    }

    /// An accepted pledge sets off a transfer exactly if it takes the funded
    /// total to the target, and after such a pledge every further pledge is
    /// refused with `TargetAlreadyReached`.
    pub proof fn lemma_payout_closes(
        self,
        project_id: Id,
        amount: u128,
        supporter_id: Id,
        further: u128,
    )
        requires
            self.wf(),
            self.pledge_error(project_id, amount) is None,
        ensures
            self.payout(project_id, amount) is Some <==> self.pledge(
                project_id,
                amount,
                supporter_id,
            ).funded(project_id) >= self.target(project_id),
            self.payout(project_id, amount) is Some ==> self.pledge(
                project_id,
                amount,
                supporter_id,
            ).pledge_error(project_id, further) == Some(LedgerError::TargetAlreadyReached),
    {
        self.lemma_pledge(project_id, amount, supporter_id);
    }

    /// Whatever series of pledges is attempted on a project that has not
    /// reached its target: the funded total never shrinks; at most one
    /// transfer is set off; exactly one is set off if the series takes the
    /// total to the target; and that one goes to the owner, over 95% of
    /// the total at which the target was reached, rounded down.
    pub proof fn lemma_pledges_pay_once(self, project_id: Id, pledges: Seq<PledgeView>)
        requires
            self.wf(),
            self.contains_project(project_id),
            self.funded(project_id) < self.target(project_id),
        ensures
            self.after_pledges(project_id, pledges).wf(),
            self.after_pledges(project_id, pledges).contains_project(project_id),
            self.after_pledges(project_id, pledges).target(project_id) == self.target(project_id),
            self.after_pledges(project_id, pledges).project(project_id).owner_id == self.project(
                project_id,
            ).owner_id,
            self.after_pledges(project_id, pledges).project(project_id).metadata.minimum_pledge
                == self.project(project_id).metadata.minimum_pledge,
            self.after_pledges(project_id, pledges).funded(project_id) >= self.funded(project_id),
            self.payouts_of(project_id, pledges).len() <= 1,
            self.payouts_of(project_id, pledges).len() == 1 <==> self.after_pledges(
                project_id,
                pledges,
            ).funded(project_id) >= self.target(project_id),
            self.payouts_of(project_id, pledges).len() == 1 ==> self.payouts_of(
                project_id,
                pledges,
            )[0] == (TransferView {
                receiver_id: self.project(project_id).owner_id,
                amount: payout_share(
                    self.after_pledges(project_id, pledges).funded(project_id) as nat,
                ) as u128,
            }),
        decreases pledges.len(),
    {
        if pledges.len() > 0 {
            let earlier = pledges.drop_last();
            let last = pledges.last();
            self.lemma_pledges_pay_once(project_id, earlier);
            let before = self.after_pledges(project_id, earlier);
            if before.pledge_error(project_id, last.amount) is None {
                before.lemma_pledge(project_id, last.amount, last.supporter_id);
            }
        }
    }

    /// A series of pledges, none under the minimum, whose amounts reach the
    /// target only with the last of them: each is accepted, and the funded
    /// total grows by exactly the sum of the amounts. Where that takes it to
    /// the target, exactly one transfer is set off, to the owner, over 95%
    /// of the total, rounded down.
    pub proof fn lemma_pledges_sum(self, project_id: Id, pledges: Seq<PledgeView>)
        requires
            self.wf(),
            self.contains_project(project_id),
            pledges.len() > 0,
            forall|i: int|
                0 <= i < pledges.len() ==> pledges[i].amount >= self.project(
                    project_id,
                ).metadata.minimum_pledge,
            self.funded(project_id) + pledged_total(pledges.drop_last()) < self.target(project_id),
            self.funded(project_id) + pledged_total(pledges) <= u128::MAX,
        ensures
            self.after_pledges(project_id, pledges).funded(project_id) == self.funded(project_id)
                + pledged_total(pledges),
            self.funded(project_id) + pledged_total(pledges) >= self.target(project_id)
                ==> self.payouts_of(project_id, pledges) == seq![
                TransferView {
                    receiver_id: self.project(project_id).owner_id,
                    amount: payout_share(
                        (self.funded(project_id) + pledged_total(pledges)) as nat,
                    ) as u128,
                },
            ],
            self.funded(project_id) + pledged_total(pledges) < self.target(project_id)
                ==> self.payouts_of(project_id, pledges).len() == 0,
        decreases pledges.len(),
    {
        let earlier = pledges.drop_last();
        let last = pledges.last();
        lemma_pledged_total_grows(earlier);
        self.lemma_pledges_pay_once(project_id, earlier);
        self.lemma_pledges_pay_once(project_id, pledges);
        if earlier.len() > 0 {
            lemma_pledged_total_grows(earlier.drop_last());
            assert forall|i: int| 0 <= i < earlier.len() implies earlier[i].amount >= self.project(
                project_id,
            ).metadata.minimum_pledge by {
                assert(earlier[i] == pledges[i]);
            }
            self.lemma_pledges_sum(project_id, earlier);
        }
        let before = self.after_pledges(project_id, earlier);
        assert(before.funded(project_id) == self.funded(project_id) + pledged_total(earlier));
        assert(before.pledge_error(project_id, last.amount) is None);
        before.lemma_pledge(project_id, last.amount, last.supporter_id);
        if self.funded(project_id) + pledged_total(pledges) >= self.target(project_id) {
            assert(self.payouts_of(project_id, pledges).len() == 1);
            assert(self.payouts_of(project_id, pledges) =~= seq![
                TransferView {
                    receiver_id: self.project(project_id).owner_id,
                    amount: payout_share(
                        (self.funded(project_id) + pledged_total(pledges)) as nat,
                    ) as u128,
                },
            ]);
        }
    }

    /// Whatever series of registrations, pledges and votes is attempted on a
    /// well-formed ledger, the ledger stays well-formed, and a project that
    /// was registered before stays registered as it was: owner, time of
    /// registration and all else of it are untouched, but for the funded
    /// total, which never shrinks.
    pub proof fn lemma_operations(self, project_id: Id, operations: Seq<OperationView>)
        requires
            self.wf(),
        ensures
            self.after_operations(operations).wf(),
            self.contains_project(project_id) ==> {
                let after = self.after_operations(operations);
                &&& after.contains_project(project_id)
                &&& after.project(project_id) == (JsonProjectView {
                    metadata: self.project(project_id).metadata.with_funded(
                        after.project(project_id).metadata.funded,
                    ),
                    ..self.project(project_id)
                })
                &&& after.project(project_id).metadata.started_at == self.project(
                    project_id,
                ).metadata.started_at
                &&& after.funded(project_id) >= self.funded(project_id)
            },
        decreases operations.len(),
    {
        if operations.len() == 0 {
            if self.contains_project(project_id) {
                assert(self.project(project_id).metadata == self.project(
                    project_id,
                ).metadata.with_funded(self.project(project_id).metadata.funded));
            }
        } else {
            self.lemma_operations(project_id, operations.drop_last());
            let before = self.after_operations(operations.drop_last());
            let after = self.after_operations(operations);
            assert(after == before.after_operation(operations.last()));
            match operations.last() {
                OperationView::Register { project_id: other, metadata, owner_id, now } => {
                    if before.register_error(other) is None {
                        before.lemma_register(other, metadata, owner_id, now);
                    }
                },
                OperationView::Pledge { project_id: other, amount, supporter_id } => {
                    if before.pledge_error(other, amount) is None {
                        before.lemma_pledge(other, amount, supporter_id);
                    }
                },
                OperationView::Vote { project_id: other, voter_id } => {
                    if before.vote_error(other) is None {
                        before.lemma_vote(other, voter_id);
                    }
                },
            }
            if self.contains_project(project_id) {
                assert(before.get_project(project_id) == Some(before.project(project_id)));
                assert(after.get_project(project_id) is Some);
                assert(after.project(project_id).owner_id == before.project(project_id).owner_id);
                assert(after.project(project_id).project_id == before.project(
                    project_id,
                ).project_id);
                assert(after.project(project_id).metadata == before.project(
                    project_id,
                ).metadata.with_funded(after.project(project_id).metadata.funded));
            }
        }
    }

    /// Voting again changes nothing: after a vote the voter is on file, once,
    /// and a second vote of the same account leaves the ledger as it is.
    pub proof fn lemma_vote_twice(self, project_id: Id, voter_id: Id)
        requires
            self.wf(),
            self.vote_error(project_id) is None,
        ensures
            self.vote(project_id, voter_id).voters(project_id).contains(voter_id),
            self.vote(project_id, voter_id).voters(project_id).no_duplicates(),
            self.vote(project_id, voter_id).vote(project_id, voter_id) == self.vote(
                project_id,
                voter_id,
            ),
            self.voters(project_id).len() == 0 ==> self.vote(project_id, voter_id).vote(
                project_id,
                voter_id,
            ).voters(project_id).len() == 1,
    {
        self.lemma_vote(project_id, voter_id);
        lemma_index_add(self.voters_per_project, project_id, voter_id);
        assert(self.voters(project_id).no_duplicates());
        lemma_with_member(self.voters(project_id), voter_id);
    }

    /// Votes of accounts that differ from each other and have not voted yet
    /// are all filed, in their order: `n` such votes make the voters `n`
    /// more.
    pub proof fn lemma_votes_of_distinct(self, project_id: Id, voters: Seq<Id>)
        requires
            self.wf(),
            self.contains_project(project_id),
            voters.no_duplicates(),
            forall|i: int| 0 <= i < voters.len() ==> !self.voters(project_id).contains(voters[i]),
        ensures
            self.after_votes(project_id, voters).wf(),
            self.after_votes(project_id, voters).contains_project(project_id),
            self.after_votes(project_id, voters).voters(project_id) == self.voters(project_id)
                + voters,
            self.after_votes(project_id, voters).voters(project_id).len() == self.voters(
                project_id,
            ).len() + voters.len(),
        decreases voters.len(),
    {
        if voters.len() == 0 {
            assert(self.voters(project_id) + voters =~= self.voters(project_id));
        } else {
            let earlier = voters.drop_last();
            let last = voters.last();
            assert forall|i: int| 0 <= i < earlier.len() implies !self.voters(project_id).contains(
                earlier[i],
            ) by {
                assert(earlier[i] == voters[i]);
            }
            self.lemma_votes_of_distinct(project_id, earlier);
            let before = self.after_votes(project_id, earlier);
            before.lemma_vote(project_id, last);
            let filed = before.voters(project_id);
            if filed.contains(last) {
                let k = choose|k: int| 0 <= k < filed.len() && filed[k] == last;
                if k < self.voters(project_id).len() {
                    assert(self.voters(project_id)[k] == last);
                    assert(!self.voters(project_id).contains(voters[voters.len() - 1]));
                } else {
                    let j = k - self.voters(project_id).len();
                    assert(earlier[j] == voters[j]);
                    assert(voters[j] == voters[voters.len() - 1]);
                }
                assert(false);
            }
            assert(filed.push(last) =~= self.voters(project_id) + voters);
        }
    }

    /// In a well-formed ledger, a project that stands at place `i` is found
    /// at place `i`.
    pub proof fn lemma_index_of(self, i: int, project_id: Id)
        requires
            self.wf(),
            self.has_project_at(i, project_id),
        ensures
            self.contains_project(project_id),
            self.index_of(project_id) == i,
            self.project(project_id) == self.projects[i],
            self.get_project(project_id) == Some(self.projects[i]),
    {
        self.lemma_first_index(i, project_id);
    }
}

} // verus!
