use vstd::prelude::*;

verus! {

/// An identifier as the specifications see it.
pub type Id = Seq<char>;

/// The members filed under `key`; none where the key is unknown.
pub open spec fn members_of(index: Map<Id, Seq<Id>>, key: Id) -> Seq<Id> {
    if index.contains_key(key) {
        index[key]
    } else {
        Seq::empty()
    }
}

/// `members` with `member` added at the end, unless it is there already.
pub open spec fn with_member(members: Seq<Id>, member: Id) -> Seq<Id> {
    if members.contains(member) {
        members
    } else {
        members.push(member)
    }
}

/// `index` after `member` was filed under `key`.
pub open spec fn index_add(index: Map<Id, Seq<Id>>, key: Id, member: Id) -> Map<Id, Seq<Id>> {
    index.insert(key, with_member(members_of(index, key), member))
}

/// `index` without the member that was filed last under `key`, and without
/// the key where that was its only member.
pub open spec fn index_drop_last(index: Map<Id, Seq<Id>>, key: Id) -> Map<Id, Seq<Id>> {
    if !index.contains_key(key) {
        index
    } else if index[key].len() <= 1 {
        index.remove(key)
    } else {
        index.insert(key, index[key].drop_last())
    }
}

/// Whether every key of `index` holds at least one member, and none twice.
pub open spec fn index_wf(index: Map<Id, Seq<Id>>) -> bool {
    forall|key: Id| #[trigger]
        index.contains_key(key) ==> index[key].len() > 0 && index[key].no_duplicates()
}

/// The identifiers filed under one key, in the order in which they came.
struct IndexEntry {
    key: String,
    members: Vec<String>,
}

/// A keyed multi-map from an identifier to a set of identifiers.
///
/// Filing a member twice under one key keeps it once.
pub struct IndexStore {
    entries: Vec<IndexEntry>,
}

/// A copy of a list of identifiers.
pub fn clone_ids(ids: &Vec<String>) -> (r: Vec<String>)
    ensures
        r.deep_view() == ids.deep_view(),
{
    let mut r: Vec<String> = Vec::new();
    let mut i: usize = 0;
    while i < ids.len()
        invariant
            i <= ids.len(),
            r.len() == i,
            forall|j: int| 0 <= j < i ==> r[j]@ == ids[j]@,
        decreases ids.len() - i,
    {
        r.push(ids[i].clone());
        i += 1;
    }
    assert(r.deep_view() =~= ids.deep_view());
    r
}

/// Where `id` stands in `ids`, if it does.
pub fn position_of(ids: &Vec<String>, id: &String) -> (r: Option<usize>)
    ensures
        match r {
            Some(i) => i < ids.len() && ids[i as int]@ == id@,
            None => !ids.deep_view().contains(id@),
        },
{
    let mut i: usize = 0;
    while i < ids.len()
        invariant
            i <= ids.len(),
            forall|j: int| 0 <= j < i ==> ids[j]@ != id@,
        decreases ids.len() - i,
    {
        if ids[i] == *id {
            return Some(i);
        }
        i += 1;
    }
    assert(!ids.deep_view().contains(id@)) by {
        if ids.deep_view().contains(id@) {
            let j = choose|j: int| 0 <= j < ids.deep_view().len() && ids.deep_view()[j] == id@;
            assert(ids[j]@ == id@);
        }
    }
    None
}

impl IndexStore {
    /// Whether the keys are distinct and every entry holds at least one
    /// member, and none twice.
    pub closed spec fn wf(&self) -> bool {
        &&& forall|i: int, j: int|
            0 <= i < j < self.entries.len() ==> self.entries[i].key@ != self.entries[j].key@
        &&& forall|i: int|
            0 <= i < self.entries.len() ==> (#[trigger] self.entries[i]).members.len() > 0
                && self.entries[i].members.deep_view().no_duplicates()
    }

    spec fn has_key_at(&self, i: int, key: Id) -> bool {
        0 <= i < self.entries.len() && self.entries[i].key@ == key
    }

    /// The members filed under each key.
    pub closed spec fn view(&self) -> Map<Id, Seq<Id>> {
        Map::new(
            |key: Id| exists|i: int| self.has_key_at(i, key),
            |key: Id| self.entries[choose|i: int| self.has_key_at(i, key)].members.deep_view(),
        )
    }

    /// The value of a well-formed index is well-formed.
    pub proof fn lemma_wf(&self)
        requires
            self.wf(),
        ensures
            index_wf(self@),
    {
        assert forall|key: Id| #[trigger] self@.contains_key(key) implies self@[key].len() > 0
            && self@[key].no_duplicates() by {
            let i = choose|i: int| self.has_key_at(i, key);
            assert(self.entries[i].members.deep_view().no_duplicates());
        }
    }

    /// An index without entries.
    pub fn new() -> (r: Self)
        ensures
            r.wf(),
            r@ == Map::<Id, Seq<Id>>::empty(),
    {
        let r = IndexStore { entries: Vec::new() };
        assert(r@ =~= Map::<Id, Seq<Id>>::empty());
        r
    }

    /// Under a key that stands at `i`, the index holds the members of entry `i`.
    proof fn lemma_entry_is_value(&self, i: int, key: Id)
        requires
            self.wf(),
            self.has_key_at(i, key),
        ensures
            self@.contains_key(key),
            self@[key] == self.entries[i].members.deep_view(),
    {
        let c = choose|c: int| self.has_key_at(c, key);
        assert(c == i);
    }

    fn find(&self, key: &String) -> (r: Option<usize>)
        requires
            self.wf(),
        ensures
            match r {
                Some(i) => self.has_key_at(i as int, key@),
                None => !self@.contains_key(key@),
            },
    {
        let mut i: usize = 0;
        while i < self.entries.len()
            invariant
                i <= self.entries.len(),
                forall|j: int| 0 <= j < i ==> !self.has_key_at(j, key@),
            decreases self.entries.len() - i,
        {
            if self.entries[i].key == *key {
                return Some(i);
            }
            i += 1;
        }
        None
    }

    /// A well-formed index is the map whose keys are the entries' keys and whose
    /// values are their members.
    proof fn lemma_view_is(&self, index: Map<Id, Seq<Id>>)
        requires
            self.wf(),
            forall|j: int| 0 <= j < self.entries.len() ==> index.contains_key(#[trigger] self.entries[j].key@),
            forall|j: int|
                0 <= j < self.entries.len() ==> index[#[trigger] self.entries[j].key@]
                    == self.entries[j].members.deep_view(),
            forall|k: Id| #[trigger] index.contains_key(k) ==> exists|j: int| self.has_key_at(j, k),
        ensures
            self@ == index,
    {
        assert forall|k: Id| self@.contains_key(k) == index.contains_key(k) by {
            if self@.contains_key(k) {
                let j = choose|j: int| self.has_key_at(j, k);
                assert(index.contains_key(self.entries[j].key@));
            }
        }
        assert forall|k: Id| #[trigger] self@.contains_key(k) implies self@[k] == index[k] by {
            let j = choose|j: int| self.has_key_at(j, k);
            self.lemma_entry_is_value(j, k);
            assert(index[self.entries[j].key@] == self.entries[j].members.deep_view());
        }
        assert(self@ =~= index);
    }

    /// Files `member` under `key`. A member that is already there stays once.
    pub fn add(&mut self, key: &String, member: &String)
        requires
            old(self).wf(),
        ensures
            final(self).wf(),
            final(self)@ == index_add(old(self)@, key@, member@),
    {
        let ghost before = *self;
        let ghost after = index_add(before@, key@, member@);
        match self.find(key) {
            Some(i) => {
                proof {
                    before.lemma_entry_is_value(i as int, key@);
                }
                match position_of(&self.entries[i].members, member) {
                    Some(at) => {
                        assert(before.entries[i as int].members.deep_view()[at as int] == member@);
                        assert(after =~= before@);
                    },
                    None => {
                        let mut members = clone_ids(&self.entries[i].members);
                        members.push(member.clone());
                        assert(members.deep_view() =~= before.entries[i as int].members.deep_view().push(
                            member@,
                        ));
                        let entry = IndexEntry { key: key.clone(), members };
                        self.entries.set(i, entry);
                        proof {
                            assert forall|j: int| 0 <= j < self.entries.len() implies (
                            #[trigger] self.entries[j]).key@ == before.entries[j].key@ by {}
                            assert(self.wf());
                            assert forall|j: int| 0 <= j < self.entries.len() implies after.contains_key(
                                #[trigger] self.entries[j].key@,
                            ) && after[self.entries[j].key@] == self.entries[j].members.deep_view() by {
                                if j != i {
                                    assert(before.has_key_at(j, before.entries[j].key@));
                                    before.lemma_entry_is_value(j, before.entries[j].key@);
                                }
                            }
                            assert forall|k: Id| #[trigger] after.contains_key(k) implies exists|j: int|
                                self.has_key_at(j, k) by {
                                if k == key@ {
                                    assert(self.has_key_at(i as int, k));
                                } else {
                                    let j = choose|j: int| before.has_key_at(j, k);
                                    assert(self.has_key_at(j, k));
                                }
                            }
                            self.lemma_view_is(after);
                        }
                    },
                }
            },
            None => {
                let mut members: Vec<String> = Vec::new();
                members.push(member.clone());
                assert(members.deep_view() =~= Seq::<Id>::empty().push(member@));
                self.entries.push(IndexEntry { key: key.clone(), members });
                proof {
                    let last = before.entries.len() as int;
                    assert forall|j: int| 0 <= j < last implies (#[trigger] self.entries[j])
                        == before.entries[j] && self.entries[j].key@ != key@ by {
                        assert(!before.has_key_at(j, key@));
                    }
                    assert(self.entries[last].members.deep_view().no_duplicates());
                    assert(self.wf());
                    assert forall|j: int| 0 <= j < self.entries.len() implies after.contains_key(
                        #[trigger] self.entries[j].key@,
                    ) && after[self.entries[j].key@] == self.entries[j].members.deep_view() by {
                        if j != last {
                            assert(before.has_key_at(j, before.entries[j].key@));
                            before.lemma_entry_is_value(j, before.entries[j].key@);
                        }
                    }
                    assert forall|k: Id| #[trigger] after.contains_key(k) implies exists|j: int|
                        self.has_key_at(j, k) by {
                        if k == key@ {
                            assert(self.has_key_at(last, k));
                        } else {
                            let j = choose|j: int| before.has_key_at(j, k);
                            assert(self.has_key_at(j, k));
                        }
                    }
                    self.lemma_view_is(after);
                }
            },
        }
    }

    /// Takes `key` out of the index, with all that is filed under it.
    pub fn remove_key(&mut self, key: &String)
        requires
            old(self).wf(),
        ensures
            final(self).wf(),
            final(self)@ == old(self)@.remove(key@),
    {
        let ghost before = *self;
        let ghost after = before@.remove(key@);
        match self.find(key) {
            Some(i) => {
                self.entries.remove(i);
                proof {
                    assert forall|j: int| 0 <= j < self.entries.len() implies (
                    #[trigger] self.entries[j]) == before.entries[if j < i {
                        j
                    } else {
                        j + 1
                    }] by {}
                    assert(self.wf());
                    assert forall|j: int| 0 <= j < self.entries.len() implies after.contains_key(
                        #[trigger] self.entries[j].key@,
                    ) && after[self.entries[j].key@] == self.entries[j].members.deep_view() by {
                        let k = if j < i {
                            j
                        } else {
                            j + 1
                        };
                        assert(before.has_key_at(k, before.entries[k].key@));
                        before.lemma_entry_is_value(k, before.entries[k].key@);
                        assert(before.entries[k].key@ != before.entries[i as int].key@);
                    }
                    assert forall|k: Id| #[trigger] after.contains_key(k) implies exists|j: int|
                        self.has_key_at(j, k) by {
                        let j = choose|j: int| before.has_key_at(j, k);
                        if j < i {
                            assert(self.has_key_at(j, k));
                        } else {
                            assert(self.has_key_at(j - 1, k));
                        }
                    }
                    self.lemma_view_is(after);
                }
            },
            None => {
                assert(after =~= before@);
            },
        }
    }

    /// Takes back the member that was filed last under `key`. A key that is
    /// left without members leaves the index.
    pub fn drop_last(&mut self, key: &String)
        requires
            old(self).wf(),
        ensures
            final(self).wf(),
            final(self)@ == index_drop_last(old(self)@, key@),
    {
        let ghost before = *self;
        let ghost after = index_drop_last(before@, key@);
        match self.find(key) {
            Some(i) => {
                proof {
                    before.lemma_entry_is_value(i as int, key@);
                }
                if self.entries[i].members.len() <= 1 {
                    self.remove_key(key);
                } else {
                    let mut members = clone_ids(&self.entries[i].members);
                    members.pop();
                    assert(members.deep_view() =~= before.entries[i as int].members.deep_view().drop_last());
                    let entry = IndexEntry { key: key.clone(), members };
                    self.entries.set(i, entry);
                    proof {
                        assert forall|j: int| 0 <= j < self.entries.len() implies (
                        #[trigger] self.entries[j]).key@ == before.entries[j].key@ by {}
                        let old_members = before.entries[i as int].members.deep_view();
                        assert(old_members.drop_last().no_duplicates()) by {
                            assert forall|a: int, b: int|
                                0 <= a < old_members.len() - 1 && 0 <= b < old_members.len() - 1
                                    && a != b implies old_members.drop_last()[a]
                                != old_members.drop_last()[b] by {
                                assert(old_members[a] != old_members[b]);
                            }
                        }
                        assert(self.wf());
                        assert forall|j: int| 0 <= j < self.entries.len() implies after.contains_key(
                            #[trigger] self.entries[j].key@,
                        ) && after[self.entries[j].key@] == self.entries[j].members.deep_view() by {
                            if j != i {
                                assert(before.has_key_at(j, before.entries[j].key@));
                                before.lemma_entry_is_value(j, before.entries[j].key@);
                            }
                        }
                        assert forall|k: Id| #[trigger] after.contains_key(k) implies exists|j: int|
                            self.has_key_at(j, k) by {
                            if k == key@ {
                                assert(self.has_key_at(i as int, k));
                            } else {
                                let j = choose|j: int| before.has_key_at(j, k);
                                assert(self.has_key_at(j, k));
                            }
                        }
                        self.lemma_view_is(after);
                    }
                }
            },
            None => {},
        }
    }

    /// The members filed under `key`, in the order in which they came.
    pub fn get(&self, key: &String) -> (r: Vec<String>)
        requires
            self.wf(),
        ensures
            r.deep_view() == members_of(self@, key@),
            r.deep_view().no_duplicates(),
    {
        match self.find(key) {
            Some(i) => {
                proof {
                    self.lemma_entry_is_value(i as int, key@);
                }
                clone_ids(&self.entries[i].members)
            },
            None => {
                let r: Vec<String> = Vec::new();
                assert(r.deep_view() =~= Seq::<Id>::empty());
                r
            },
        }
    }
}

} // verus!
