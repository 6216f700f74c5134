use crate::contract::{Contract, Registration};
use crate::error::LedgerError;
use crate::index::{index_add, index_wf, members_of, Id, IndexStore};
use crate::laws::lemma_index_add;
use crate::metadata::{JsonProject, JsonProjectView, Project};
use crate::model::{owner_index, ContractView};
use crate::AccountId;
use vstd::prelude::*;

verus! {

/// All that the ledger holds on one project, as plain values: what a host
/// writes to its storage and reads back from it.
#[derive(Debug)]
pub struct ProjectRecord {
    pub project: JsonProject,
    /// The accounts whose pledge was accepted.
    pub supporters: Vec<AccountId>,
    /// The accounts that cast a vote.
    pub voters: Vec<AccountId>,
}

/// The mathematical value of a [`ProjectRecord`].
pub struct ProjectRecordView {
    pub project: JsonProjectView,
    pub supporters: Seq<Id>,
    pub voters: Seq<Id>,
}

impl View for ProjectRecord {
    type V = ProjectRecordView;

    open spec fn view(&self) -> ProjectRecordView {
        ProjectRecordView {
            project: self.project@,
            supporters: self.supporters.deep_view(),
            voters: self.voters.deep_view(),
        }
    }
}

/// The mathematical values of a list of records.
pub open spec fn records_view(records: Vec<ProjectRecord>) -> Seq<ProjectRecordView> {
    Seq::new(records.len() as nat, |i: int| records[i]@)
}

/// Whether no two of the records are of the same project.
pub open spec fn distinct_records(records: Seq<ProjectRecordView>) -> bool {
    forall|i: int, j: int|
        0 <= i < j < records.len() ==> records[i].project.project_id
            != records[j].project.project_id
}

/// `index` after each of `members` was filed under `key`, in turn.
pub open spec fn file_all(index: Map<Id, Seq<Id>>, key: Id, members: Seq<Id>) -> Map<Id, Seq<Id>>
    decreases members.len(),
{
    if members.len() == 0 {
        index
    } else {
        index_add(file_all(index, key, members.drop_last()), key, members.last())
    }
}

impl ContractView {
    /// The ledger with the project of one more record at the end of the
    /// registry, and the record's supporters and voters filed under it.
    pub open spec fn with_record(self, record: ProjectRecordView) -> ContractView {
        let inserted = self.insert_project(record.project);
        ContractView {
            supporters_per_project: file_all(
                inserted.supporters_per_project,
                record.project.project_id,
                record.supporters,
            ),
            voters_per_project: file_all(
                inserted.voters_per_project,
                record.project.project_id,
                record.voters,
            ),
            ..inserted
        }
    }

    /// The ledger that `records` describe, administered by `owner_id`.
    pub open spec fn restored(owner_id: Id, records: Seq<ProjectRecordView>) -> ContractView
        decreases records.len(),
    {
        if records.len() == 0 {
            Self::init(owner_id)
        } else {
            Self::restored(owner_id, records.drop_last()).with_record(records.last())
        }
    }

    /// The records that describe the ledger: one for each project, in the
    /// order of registration.
    pub open spec fn records(self) -> Seq<ProjectRecordView> {
        Seq::new(
            self.projects.len(),
            |i: int|
                ProjectRecordView {
                    project: self.projects[i],
                    supporters: self.supporters(self.projects[i].project_id),
                    voters: self.voters(self.projects[i].project_id),
                },
        )
    }

    /// The ledger cut down to its first `n` projects.
    pub open spec fn first(self, n: int) -> ContractView {
        let projects = self.projects.take(n);
        ContractView {
            owner_id: self.owner_id,
            projects,
            projects_per_owner: owner_index(projects),
            supporters_per_project: Map::new(
                |id: Id|
                    self.supporters_per_project.contains_key(id) && exists|i: int|
                        0 <= i < n && self.projects[i].project_id == id,
                |id: Id| self.supporters_per_project[id],
            ),
            voters_per_project: Map::new(
                |id: Id|
                    self.voters_per_project.contains_key(id) && exists|i: int|
                        0 <= i < n && self.projects[i].project_id == id,
                |id: Id| self.voters_per_project[id],
            ),
        }
    }
}

/// Filing members under one key keeps an index well-formed and changes the
/// entry of that key only.
pub proof fn lemma_file_all(index: Map<Id, Seq<Id>>, key: Id, members: Seq<Id>)
    requires
        index_wf(index),
    ensures
        index_wf(file_all(index, key, members)),
        forall|other: Id|
            file_all(index, key, members).contains_key(other) <==> index.contains_key(other) || (
            other == key && members.len() > 0),
        forall|other: Id|
            other != key ==> members_of(file_all(index, key, members), other) == members_of(
                index,
                other,
            ),
    decreases members.len(),
{
    if members.len() > 0 {
        lemma_file_all(index, key, members.drop_last());
        lemma_index_add(file_all(index, key, members.drop_last()), key, members.last());
    }
}

/// Members that differ from each other, filed under a key that the index
/// does not hold yet, are its entry afterwards, in their order.
pub proof fn lemma_file_all_fresh(index: Map<Id, Seq<Id>>, key: Id, members: Seq<Id>)
    requires
        !index.contains_key(key),
        members.no_duplicates(),
    ensures
        file_all(index, key, members) == if members.len() == 0 {
            index
        } else {
            index.insert(key, members)
        },
    decreases members.len(),
{
    if members.len() > 0 {
        let earlier = members.drop_last();
        let last = members.last();
        lemma_file_all_fresh(index, key, earlier);
        let before = file_all(index, key, earlier);
        assert(members_of(before, key) =~= earlier);
        if earlier.contains(last) {
            let i = choose|i: int| 0 <= i < earlier.len() && earlier[i] == last;
            assert(members[i] == members[members.len() - 1]);
        }
        assert(earlier.push(last) =~= members);
        assert(index_add(before, key, last) =~= index.insert(key, members));
    }
}

impl ContractView {
    /// A record of a new project, taken into a well-formed ledger: the ledger
    /// stays well-formed, the project is found as the record has it, and every
    /// other project is found as before.
    pub proof fn lemma_with_record(self, record: ProjectRecordView)
        requires
            self.wf(),
            !self.contains_project(record.project.project_id),
        ensures
            self.with_record(record).wf(),
            self.with_record(record).projects == self.projects.push(record.project),
            self.with_record(record).get_project(record.project.project_id) == Some(
                record.project,
            ),
            forall|other: Id|
                other != record.project.project_id ==> self.with_record(record).get_project(other)
                    == self.get_project(other),
    {
        let id = record.project.project_id;
        let inserted = self.insert_project(record.project);
        let after = self.with_record(record);
        self.lemma_insert_project(record.project);
        lemma_file_all(inserted.supporters_per_project, id, record.supporters);
        lemma_file_all(inserted.voters_per_project, id, record.voters);
        assert forall|i: int, other: Id|
            after.has_project_at(i, other) <==> inserted.has_project_at(i, other) by {}
        assert forall|p: Id| after.get_project(p) == inserted.get_project(p) by {
            if inserted.contains_project(p) {
                let i = inserted.index_of(p);
                assert(after.has_project_at(i, p));
                inserted.lemma_first_index(i, p);
                after.lemma_first_index(i, p);
            }
            if after.contains_project(p) {
                assert(inserted.has_project_at(after.index_of(p), p));
            }
        }
        assert(inserted.get_project(id) is Some);
        assert forall|p: Id| #[trigger]
            after.supporters_per_project.contains_key(p) implies after.contains_project(p) by {
            if p != id {
                assert(inserted.supporters_per_project.contains_key(p));
                assert(inserted.contains_project(p));
            }
            assert(after.get_project(p) is Some);
        }
        assert forall|p: Id| #[trigger]
            after.voters_per_project.contains_key(p) implies after.contains_project(p) by {
            if p != id {
                assert(inserted.voters_per_project.contains_key(p));
                assert(inserted.contains_project(p));
            }
            assert(after.get_project(p) is Some);
        }
    }

    /// Records of projects that differ from each other describe a well-formed
    /// ledger, whose registry holds their projects in their order.
    pub proof fn lemma_restored(owner_id: Id, records: Seq<ProjectRecordView>)
        requires
            distinct_records(records),
        ensures
            Self::restored(owner_id, records).wf(),
            Self::restored(owner_id, records).owner_id == owner_id,
            Self::restored(owner_id, records).projects == records.map_values(
                |r: ProjectRecordView| r.project,
            ),
        decreases records.len(),
    {
        let after = Self::restored(owner_id, records);
        let projects = records.map_values(|r: ProjectRecordView| r.project);
        if records.len() == 0 {
            Self::lemma_init(owner_id);
            assert(after.projects =~= projects);
        } else {
            let earlier = records.drop_last();
            let last = records.last();
            assert(distinct_records(earlier)) by {
                assert forall|i: int, j: int| 0 <= i < j < earlier.len() implies earlier[i].project.project_id
                    != earlier[j].project.project_id by {
                    assert(earlier[i] == records[i] && earlier[j] == records[j]);
                }
            }
            Self::lemma_restored(owner_id, earlier);
            let before = Self::restored(owner_id, earlier);
            assert forall|i: int| !before.has_project_at(i, last.project.project_id) by {
                if before.has_project_at(i, last.project.project_id) {
                    assert(before.projects[i] == earlier[i].project);
                    assert(earlier[i] == records[i]);
                    assert(records[i].project.project_id != records[records.len()
                        - 1].project.project_id);
                }
            }
            before.lemma_with_record(last);
            assert(after.projects =~= projects);
        }
    }

    /// A well-formed ledger is the one that its records describe: writing a
    /// ledger out and reading it back loses nothing.
    pub proof fn lemma_records_restore(self)
        requires
            self.wf(),
        ensures
            distinct_records(self.records()),
            Self::restored(self.owner_id, self.records()) == self,
    {
        self.lemma_first_restored(self.projects.len() as int);
        let n = self.projects.len() as int;
        let whole = self.first(n);
        assert(self.records().take(n) =~= self.records());
        assert(self.projects.take(n) =~= self.projects);
        assert(whole.supporters_per_project =~= self.supporters_per_project) by {
            assert forall|id: Id| #[trigger]
                self.supporters_per_project.contains_key(id) implies exists|i: int|
                0 <= i < n && self.projects[i].project_id == id by {
                let i = self.index_of(id);
                assert(self.has_project_at(i, id));
            }
        }
        assert(whole.voters_per_project =~= self.voters_per_project) by {
            assert forall|id: Id| #[trigger] self.voters_per_project.contains_key(id) implies exists|
                i: int,
            |
                0 <= i < n && self.projects[i].project_id == id by {
                let i = self.index_of(id);
                assert(self.has_project_at(i, id));
            }
        }
    }

    /// The first `n` records of a well-formed ledger describe the ledger cut
    /// down to its first `n` projects, which is well-formed.
    pub proof fn lemma_first_restored(self, n: int)
        requires
            self.wf(),
            0 <= n <= self.projects.len(),
        ensures
            distinct_records(self.records().take(n)),
            Self::restored(self.owner_id, self.records().take(n)) == self.first(n),
            self.first(n).wf(),
        decreases n,
    {
        let records = self.records().take(n);
        let cut = self.first(n);
        assert(distinct_records(records)) by {
            assert forall|i: int, j: int| 0 <= i < j < records.len() implies records[i].project.project_id
                != records[j].project.project_id by {
                assert(self.projects[i].project_id != self.projects[j].project_id);
            }
        }
        if n == 0 {
            Self::lemma_init(self.owner_id);
            assert(cut.projects =~= Seq::<JsonProjectView>::empty());
            assert(cut.supporters_per_project =~= Map::<Id, Seq<Id>>::empty());
            assert(cut.voters_per_project =~= Map::<Id, Seq<Id>>::empty());
            assert(cut.projects_per_owner =~= Self::init(self.owner_id).projects_per_owner);
            assert(cut == Self::init(self.owner_id));
        } else {
            self.lemma_first_restored(n - 1);
            let before = self.first(n - 1);
            let record = self.records()[n - 1];
            let id = record.project.project_id;
            assert(records.drop_last() =~= self.records().take(n - 1));
            assert(records.last() == record);
            assert forall|i: int| !before.has_project_at(i, id) by {
                if before.has_project_at(i, id) {
                    assert(self.projects[i].project_id != self.projects[n - 1].project_id);
                }
            }
            before.lemma_with_record(record);
            let after = before.with_record(record);
            assert(after.projects =~= cut.projects);
            assert(after.projects_per_owner == cut.projects_per_owner);
            assert(!before.supporters_per_project.contains_key(id)) by {
                if before.supporters_per_project.contains_key(id) {
                    let i = choose|i: int| 0 <= i < n - 1 && self.projects[i].project_id == id;
                    assert(self.projects[i].project_id != self.projects[n - 1].project_id);
                }
            }
            assert(!before.voters_per_project.contains_key(id)) by {
                if before.voters_per_project.contains_key(id) {
                    let i = choose|i: int| 0 <= i < n - 1 && self.projects[i].project_id == id;
                    assert(self.projects[i].project_id != self.projects[n - 1].project_id);
                }
            }
            assert(record.supporters.no_duplicates() && (
            self.supporters_per_project.contains_key(id) ==> record.supporters.len() > 0));
            assert(record.voters.no_duplicates() && (self.voters_per_project.contains_key(id)
                ==> record.voters.len() > 0));
            lemma_file_all_fresh(before.supporters_per_project, id, record.supporters);
            lemma_file_all_fresh(before.voters_per_project, id, record.voters);
            assert(after.supporters_per_project =~= cut.supporters_per_project) by {
                assert forall|k: Id| #[trigger]
                    cut.supporters_per_project.contains_key(k)
                    == after.supporters_per_project.contains_key(k) by {
                    if cut.supporters_per_project.contains_key(k) && k != id {
                        let i = choose|i: int| 0 <= i < n && self.projects[i].project_id == k;
                        assert(0 <= i < n - 1);
                    }
                    if k == id && self.supporters_per_project.contains_key(k) {
                        assert(self.projects[n - 1].project_id == k);
                    }
                }
            }
            assert(after.voters_per_project =~= cut.voters_per_project) by {
                assert forall|k: Id| #[trigger]
                    cut.voters_per_project.contains_key(k) == after.voters_per_project.contains_key(
                        k,
                    ) by {
                    if cut.voters_per_project.contains_key(k) && k != id {
                        let i = choose|i: int| 0 <= i < n && self.projects[i].project_id == k;
                        assert(0 <= i < n - 1);
                    }
                    if k == id && self.voters_per_project.contains_key(k) {
                        assert(self.projects[n - 1].project_id == k);
                    }
                }
            }
            assert(after == cut);
        }
    }
}

impl Contract {
    /// The ledger as records: one for each project, in the order of
    /// registration, with the project's supporters and voters.
    pub fn records(&self) -> (r: Vec<ProjectRecord>)
        requires
            self.wf(),
        ensures
            records_view(r) == self@.records(),
    {
        let mut r: Vec<ProjectRecord> = Vec::new();
        let mut i: usize = 0;
        while i < self.registry.len()
            invariant
                self.wf(),
                i <= self.registry.len(),
                r.len() == i,
                forall|j: int| 0 <= j < i ==> r[j]@ == self@.records()[j],
            decreases self.registry.len() - i,
        {
            let project = self.registry[i].to_json();
            let supporters = self.supporters_per_project.get(&self.registry[i].project_id);
            let voters = self.voters_per_project.get(&self.registry[i].project_id);
            r.push(ProjectRecord { project, supporters, voters });
            i += 1;
        }
        assert(records_view(r) =~= self@.records());
        r
    }

    /// Files each of `members` under `key` in `index`.
    fn file_members(index: &mut IndexStore, key: &String, members: &Vec<String>)
        requires
            old(index).wf(),
        ensures
            final(index).wf(),
            final(index)@ == file_all(old(index)@, key@, members.deep_view()),
    {
        let ghost before = index@;
        let mut k: usize = 0;
        while k < members.len()
            invariant
                k <= members.len(),
                index.wf(),
                index@ == file_all(before, key@, members.deep_view().take(k as int)),
            decreases members.len() - k,
        {
            index.add(key, &members[k]);
            proof {
                let next = members.deep_view().take(k + 1);
                assert(next.drop_last() =~= members.deep_view().take(k as int));
                assert(next.last() == members[k as int]@);
            }
            k += 1;
        }
        assert(members.deep_view().take(members.len() as int) =~= members.deep_view());
    }

    /// The ledger that `records` describe, administered by `owner_id`.
    ///
    /// Records that name a project twice describe no ledger: they are
    /// refused with `AlreadyExists`. A supporter or voter that a record
    /// names twice is filed once.
    pub fn from_records(owner_id: AccountId, records: &Vec<ProjectRecord>) -> (r: Result<
        Contract,
        LedgerError,
    >)
        ensures
            match r {
                Ok(contract) => {
                    &&& distinct_records(records_view(*records))
                    &&& contract.wf()
                    &&& contract@ == ContractView::restored(owner_id@, records_view(*records))
                },
                Err(e) => {
                    &&& e == LedgerError::AlreadyExists
                    &&& !distinct_records(records_view(*records))
                },
            },
    {
        let ghost all = records_view(*records);
        let mut contract = Contract::new(owner_id);
        let mut i: usize = 0;
        while i < records.len()
            invariant
                i <= records.len(),
                all == records_view(*records),
                contract.wf(),
                distinct_records(all.take(i as int)),
                contract@ == ContractView::restored(owner_id@, all.take(i as int)),
            decreases records.len() - i,
        {
            let record = &records[i];
            let ghost before = contract@;
            proof {
                ContractView::lemma_restored(owner_id@, all.take(i as int));
            }
            match contract.find_project(&record.project.project_id) {
                Some(at) => {
                    proof {
                        assert(before.projects[at as int] == all.take(i as int)[at as int].project);
                        assert(all[at as int].project.project_id == all[i as int].project.project_id);
                    }
                    return Err(LedgerError::AlreadyExists);
                },
                None => {},
            }
            contract.registry.push(
                Registration {
                    project_id: record.project.project_id.clone(),
                    project: Project { owner_id: record.project.owner_id.clone() },
                    metadata: record.project.metadata.clone(),
                },
            );
            contract.internal_add_project_to_owner(
                &record.project.project_id,
                &record.project.owner_id,
            );
            assert(contract@.projects =~= before.insert_project(all[i as int].project).projects);
            Self::file_members(
                &mut contract.supporters_per_project,
                &record.project.project_id,
                &record.supporters,
            );
            Self::file_members(
                &mut contract.voters_per_project,
                &record.project.project_id,
                &record.voters,
            );
            proof {
                let next = all.take(i + 1);
                assert(next.drop_last() =~= all.take(i as int));
                assert(next.last() == all[i as int]);
                assert(contract@.projects =~= before.with_record(all[i as int]).projects);
                assert(contract@ == before.with_record(all[i as int]));
                before.lemma_with_record(all[i as int]);
                assert forall|a: int, b: int| 0 <= a < b < next.len() implies next[a].project.project_id
                    != next[b].project.project_id by {
                    if b < i {
                        assert(all.take(i as int)[a] == next[a] && all.take(i as int)[b]
                            == next[b]);
                    } else {
                        assert(before.projects[a] == all.take(i as int)[a].project);
                        assert(!before.has_project_at(a, all[i as int].project.project_id));
                    }
                }
            }
            i += 1;
        }
        assert(all.take(records.len() as int) =~= all);
        Ok(contract)
    }
}

} // verus!
