use vstd::prelude::*;
use super::output_tag_value::{OutPutTagValue, RecordModel};
use super::util::{clone_tag_hierarchy, same_tag_hierarchy};

verus! {

/// One record of the store together with the tag path it is kept under.
#[derive(Debug)]
struct StoreEntry {
    key: Vec<String>,
    record: OutPutTagValue,
}

/// The record that a path gets when it is first asked for: bound to the
/// path, with nothing captured.
pub open spec fn fresh_record(tag_hierarchy: Seq<Seq<char>>) -> RecordModel {
    RecordModel { tag_hierarchy, tag_values: Seq::empty() }
}

/// The records of the tags that are open, each under its tag path.
#[derive(Debug)]
pub struct TagHierarchyStore {
    tag_store: Vec<StoreEntry>,
}

impl View for TagHierarchyStore {
    type V = Map<Seq<Seq<char>>, RecordModel>;

    closed spec fn view(&self) -> Map<Seq<Seq<char>>, RecordModel> {
        Map::new(
            |k: Seq<Seq<char>>| self.position(k) is Some,
            |k: Seq<Seq<char>>| self.tag_store@[self.position(k)->Some_0].record@,
        )
    }
}

impl TagHierarchyStore {
    /// Where the record for `key` stands, if the store has one.
    spec fn position(&self, key: Seq<Seq<char>>) -> Option<int> {
        if exists|i: int| 0 <= i < self.tag_store@.len() && self.tag_store@[i].key.deep_view() == key {
            Some(
                choose|i: int|
                    0 <= i < self.tag_store@.len() && self.tag_store@[i].key.deep_view() == key,
            )
        } else {
            None
        }
    }

    /// No tag path is kept twice.
    pub closed spec fn wf(&self) -> bool {
        forall|i: int, j: int|
            0 <= i < self.tag_store@.len() && 0 <= j < self.tag_store@.len() && i != j
                ==> self.tag_store@[i].key.deep_view() != self.tag_store@[j].key.deep_view()
    }

    /// A store that holds nothing.
    pub fn new() -> (store: TagHierarchyStore)
        ensures
            store.wf(),
            store@ == Map::<Seq<Seq<char>>, RecordModel>::empty(),
    {
        let store = TagHierarchyStore { tag_store: Vec::new() };
        assert(store@ =~= Map::<Seq<Seq<char>>, RecordModel>::empty());
        store
    }

    /// The index of the entry kept under `key`, if there is one.
    fn find(&self, key: &Vec<String>) -> (found: Option<usize>)
        requires
            self.wf(),
        ensures
            match found {
                Some(i) => i < self.tag_store@.len() && self.position(key.deep_view()) == Some(
                    i as int,
                ),
                None => self.position(key.deep_view()) is None,
            },
    {
        let mut i: usize = 0;
        while i < self.tag_store.len()
            invariant
                self.wf(),
                i <= self.tag_store@.len(),
                forall|j: int| 0 <= j < i ==> self.tag_store@[j].key.deep_view() != key.deep_view(),
            decreases self.tag_store@.len() - i,
        {
            if same_tag_hierarchy(&self.tag_store[i].key, key) {
                return Some(i);
            }
            i += 1;
        }
        None
    }

    /// The record kept under `key`, if there is one.
    pub fn get(&self, key: &Vec<String>) -> (record: Option<&OutPutTagValue>)
        requires
            self.wf(),
        ensures
            record is Some == self@.contains_key(key.deep_view()),
            record matches Some(found) ==> found@ == self@[key.deep_view()],
    {
        match self.find(key) {
            None => None,
            Some(i) => Some(&self.tag_store[i].record),
        }
    }

    /// Takes the record kept under `key` out of the store and returns it; a
    /// store that has none stays as it is.
    pub fn remove(&mut self, key: &Vec<String>) -> (record: Option<OutPutTagValue>)
        requires
            old(self).wf(),
        ensures
            final(self).wf(),
            final(self)@ == old(self)@.remove(key.deep_view()),
            record is Some == old(self)@.contains_key(key.deep_view()),
            record matches Some(taken) ==> taken@ == old(self)@[key.deep_view()],
    {
        match self.find(key) {
            None => {
                assert(self@ =~= old(self)@.remove(key.deep_view()));
                None
            },
            Some(i) => {
                let entry = self.tag_store.remove(i);
                proof {
                    self.lemma_after_removal(*old(self), i as int);
                }
                Some(entry.record)
            },
        }
    }

    /// The record kept under `key`, for changing in place. A store that has
    /// none first gets a fresh record, bound to `key`.
    pub fn get_mut(&mut self, key: &Vec<String>) -> (record: Option<&mut OutPutTagValue>)
        requires
            old(self).wf(),
        ensures
            final(self).wf(),
            record is Some,
            (*record->Some_0)@ == (if old(self)@.contains_key(key.deep_view()) {
                old(self)@[key.deep_view()]
            } else {
                fresh_record(key.deep_view())
            }),
            final(self)@ == old(self)@.insert(key.deep_view(), (*final(record->Some_0))@),
    {
        let i: usize = match self.find(key) {
            Some(i) => i,
            None => {
                let mut out_put_tag_value = OutPutTagValue::default();
                let _ = out_put_tag_value.set_tag_hierarchy(key);
                self.tag_store.push(
                    StoreEntry { key: clone_tag_hierarchy(key), record: out_put_tag_value },
                );
                proof {
                    assert(self.tag_store@.drop_last() =~= old(self).tag_store@);
                    self.lemma_after_push(*old(self));
                }
                self.tag_store.len() - 1
            },
        };
        let ghost before = *self;
        let record = &mut self.tag_store[i].record;
        proof {
            after_borrow(*self).lemma_after_change(before, i as int);
        }
        Some(record)
    }

    /// What the store holds after an entry for a path it did not have was
    /// appended to `before`.
    proof fn lemma_after_push(&self, before: TagHierarchyStore)
        requires
            before.wf(),
            self.tag_store@.len() == before.tag_store@.len() + 1,
            self.tag_store@.drop_last() == before.tag_store@,
            before.position(self.tag_store@.last().key.deep_view()) is None,
        ensures
            self.wf(),
            self.position(self.tag_store@.last().key.deep_view()) == Some(
                before.tag_store@.len() as int,
            ),
            self@ == before@.insert(
                self.tag_store@.last().key.deep_view(),
                self.tag_store@.last().record@,
            ),
    {
        let n = before.tag_store@.len() as int;
        let key = self.tag_store@.last().key.deep_view();
        assert forall|j: int| 0 <= j < n implies self.tag_store@[j] == before.tag_store@[j] by {
            assert(self.tag_store@.drop_last()[j] == self.tag_store@[j]);
        }
        assert(self.tag_store@[n].key.deep_view() == key);
        assert forall|k: Seq<Seq<char>>| self@.contains_key(k) <==> before@.insert(
            key,
            self.tag_store@.last().record@,
        ).contains_key(k) by {
            if self.position(k) is Some {
                let j = self.position(k)->Some_0;
                if j < n {
                    assert(before.tag_store@[j].key.deep_view() == k);
                }
            }
            if before.position(k) is Some {
                let j = before.position(k)->Some_0;
                assert(self.tag_store@[j].key.deep_view() == k);
            }
        }
        assert forall|k: Seq<Seq<char>>| self@.contains_key(k) implies self@[k] == before@.insert(
            key,
            self.tag_store@.last().record@,
        )[k] by {
            let j = self.position(k)->Some_0;
            if j < n {
                assert(before.tag_store@[j].key.deep_view() == k);
                assert(before.position(k) == Some(j));
            }
        }
        assert(self@ =~= before@.insert(key, self.tag_store@.last().record@));
    }

    /// What the store holds after the record at `i` of `before` was changed.
    proof fn lemma_after_change(&self, before: TagHierarchyStore, i: int)
        requires
            before.wf(),
            0 <= i < before.tag_store@.len(),
            self.tag_store@.len() == before.tag_store@.len(),
            forall|j: int|
                0 <= j < before.tag_store@.len() ==> self.tag_store@[j].key
                    == before.tag_store@[j].key,
            forall|j: int|
                0 <= j < before.tag_store@.len() && j != i ==> self.tag_store@[j]
                    == before.tag_store@[j],
        ensures
            self.wf(),
            self@ == before@.insert(
                before.tag_store@[i].key.deep_view(),
                self.tag_store@[i].record@,
            ),
    {
        let key = before.tag_store@[i].key.deep_view();
        let after = before@.insert(key, self.tag_store@[i].record@);
        assert forall|k: Seq<Seq<char>>| self@.contains_key(k) <==> after.contains_key(k) by {
            if self.position(k) is Some {
                let j = self.position(k)->Some_0;
                assert(before.tag_store@[j].key.deep_view() == k);
            }
            if before.position(k) is Some {
                let j = before.position(k)->Some_0;
                assert(self.tag_store@[j].key.deep_view() == k);
            }
            if k == key {
                assert(self.tag_store@[i].key.deep_view() == k);
            }
        }
        assert forall|k: Seq<Seq<char>>| self@.contains_key(k) implies self@[k] == after[k] by {
            let j = self.position(k)->Some_0;
            assert(before.tag_store@[j].key.deep_view() == k);
            assert(before.position(k) == Some(j));
        }
        assert(self@ =~= after);
    }

    /// What the store holds after the entry at `i` was taken out of
    /// `before`.
    proof fn lemma_after_removal(&self, before: TagHierarchyStore, i: int)
        requires
            before.wf(),
            0 <= i < before.tag_store@.len(),
            self.tag_store@ == before.tag_store@.remove(i),
        ensures
            self.wf(),
            self@ == before@.remove(before.tag_store@[i].key.deep_view()),
    {
        let key = before.tag_store@[i].key.deep_view();
        assert forall|k: Seq<Seq<char>>| self@.contains_key(k) <==> before@.remove(
            key,
        ).contains_key(k) by {
            if self.position(k) is Some {
                let j = self.position(k)->Some_0;
                let b = if j < i { j } else { j + 1 };
                assert(before.tag_store@[b].key.deep_view() == k);
            }
            if before.position(k) is Some && k != key {
                let b = before.position(k)->Some_0;
                let j = if b < i { b } else { b - 1 };
                assert(self.tag_store@[j].key.deep_view() == k);
            }
        }
        assert forall|k: Seq<Seq<char>>| self@.contains_key(k) implies self@[k] == before@.remove(
            key,
        )[k] by {
            let j = self.position(k)->Some_0;
            let b = if j < i { j } else { j + 1 };
            assert(before.tag_store@[b].key.deep_view() == k);
            assert(before.position(k) == Some(b));
        }
        assert(self@ =~= before@.remove(key));
    }
}

} // verus!
