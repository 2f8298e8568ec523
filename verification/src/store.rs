//! A key-addressed record store with create-if-absent, mutate and read.
//!
//! The store is modelled as the sequence of its records in the order of
//! their creation, each paired with its address. No address occurs twice,
//! records are never removed, and a record keeps its place for good.

use vstd::prelude::*;
use crate::keys::Address;

verus! {

/// Why a store operation was refused.
#[derive(Clone, Copy, Debug, PartialEq, Eq, Structural)]
pub enum StoreError {
    /// A record already occupies the address; it was left untouched.
    AlreadyExists,
    /// No record occupies the address.
    NotFound,
}

/// Whether some record occupies `address`.
pub open spec fn spec_occupied<V>(records: Seq<(Seq<u8>, V)>, address: Seq<u8>) -> bool {
    exists|i: int| 0 <= i < records.len() && (#[trigger] records[i]).0 == address
}

/// The place of the record at `address`, where one occupies it.
pub open spec fn spec_slot<V>(records: Seq<(Seq<u8>, V)>, address: Seq<u8>) -> int {
    choose|i: int| 0 <= i < records.len() && (#[trigger] records[i]).0 == address
}

/// The record at `address`, where one occupies it.
pub open spec fn spec_value<V>(records: Seq<(Seq<u8>, V)>, address: Seq<u8>) -> V {
    records[spec_slot(records, address)].1
}

/// No address occurs twice.
pub open spec fn spec_unique<V>(records: Seq<(Seq<u8>, V)>) -> bool {
    forall|i: int, j: int|
        0 <= i < j < records.len() ==> (#[trigger] records[i]).0 != (#[trigger] records[j]).0
}

/// Where addresses are unique, the place of an address is the one place
/// that holds it.
pub proof fn lemma_slot_is<V>(records: Seq<(Seq<u8>, V)>, address: Seq<u8>, i: int)
    requires
        spec_unique(records),
        0 <= i < records.len(),
        records[i].0 == address,
    ensures
        spec_occupied(records, address),
        spec_slot(records, address) == i,
{
    let k = spec_slot(records, address);
    assert(0 <= k < records.len() && records[k].0 == address);
    if k < i {
        assert(records[k].0 != records[i].0);
    } else if i < k {
        assert(records[i].0 != records[k].0);
    }
}

/// What a lookup finds after a record was created at a free address: the new
/// record at its address, and at every other address what was there before.
pub proof fn lemma_lookup_after_create<V>(
    records: Seq<(Seq<u8>, V)>,
    entry: (Seq<u8>, V),
    address: Seq<u8>,
)
    requires
        spec_unique(records),
        !spec_occupied(records, entry.0),
    ensures
        spec_unique(records.push(entry)),
        address == entry.0 ==> spec_occupied(records.push(entry), address) && spec_slot(
            records.push(entry),
            address,
        ) == records.len() && spec_value(records.push(entry), address) == entry.1,
        address != entry.0 ==> spec_occupied(records.push(entry), address) == spec_occupied(
            records,
            address,
        ),
        address != entry.0 && spec_occupied(records, address) ==> spec_slot(
            records.push(entry),
            address,
        ) == spec_slot(records, address) && spec_value(records.push(entry), address) == spec_value(
            records,
            address,
        ),
{
    let after = records.push(entry);
    assert forall|i: int, j: int| 0 <= i < j < after.len() implies (#[trigger] after[i]).0 != (
    #[trigger] after[j]).0 by {
        if j < records.len() {
            assert(records[i].0 != records[j].0);
        } else {
            assert(records[i].0 != entry.0);
        }
    }
    if address == entry.0 {
        assert(after[records.len() as int].0 == address);
        lemma_slot_is(after, address, records.len() as int);
    } else {
        if spec_occupied(records, address) {
            let i = spec_slot(records, address);
            assert(after[i].0 == address);
            lemma_slot_is(after, address, i);
        }
        if spec_occupied(after, address) {
            let j = spec_slot(after, address);
            assert(j < records.len());
            assert(records[j].0 == address);
        }
    }
}

/// What a lookup finds after the record in one place was replaced, its
/// address kept: the new record at that address, and at every other address
/// what was there before.
pub proof fn lemma_lookup_after_replace<V>(
    records: Seq<(Seq<u8>, V)>,
    i: int,
    entry: (Seq<u8>, V),
    address: Seq<u8>,
)
    requires
        spec_unique(records),
        0 <= i < records.len(),
        entry.0 == records[i].0,
    ensures
        spec_unique(records.update(i, entry)),
        spec_occupied(records.update(i, entry), address) == spec_occupied(records, address),
        spec_occupied(records, address) ==> spec_slot(records.update(i, entry), address)
            == spec_slot(records, address),
        address == entry.0 ==> spec_slot(records, address) == i && spec_value(
            records.update(i, entry),
            address,
        ) == entry.1,
        address != entry.0 && spec_occupied(records, address) ==> spec_value(
            records.update(i, entry),
            address,
        ) == spec_value(records, address),
{
    let after = records.update(i, entry);
    assert forall|a: int, b: int| 0 <= a < b < after.len() implies (#[trigger] after[a]).0 != (
    #[trigger] after[b]).0 by {
        assert(records[a].0 != records[b].0);
    }
    if spec_occupied(records, address) {
        let k = spec_slot(records, address);
        assert(after[k].0 == address);
        lemma_slot_is(after, address, k);
    }
    if spec_occupied(after, address) {
        let k = spec_slot(after, address);
        assert(records[k].0 == address);
    }
    if address == entry.0 {
        lemma_slot_is(records, address, i);
    }
}

struct Entry<V> {
    address: Address,
    value: V,
}

/// The record store.
pub struct RecordStore<V> {
    entries: Vec<Entry<V>>,
}

impl<V> View for RecordStore<V> {
    type V = Seq<(Seq<u8>, V)>;

    closed spec fn view(&self) -> Seq<(Seq<u8>, V)> {
        Seq::new(self.entries@.len(), |i: int| (self.entries@[i].address@, self.entries@[i].value))
    }
}

impl<V> RecordStore<V> {
    /// The store's invariant: no address occurs twice.
    pub open spec fn wf(&self) -> bool {
        spec_unique(self@)
    }

    /// An empty store.
    pub fn new() -> (store: Self)
        ensures
            store@ == Seq::<(Seq<u8>, V)>::empty(),
            store.wf(),
    {
        let store = RecordStore { entries: Vec::new() };
        assert(store@ =~= Seq::<(Seq<u8>, V)>::empty());
        store
    }

    /// A store in memory holds no more records than `usize` can count.
    pub proof fn lemma_len_bounded(&self)
        ensures
            self@.len() <= usize::MAX,
    {
        vstd::std_specs::vec::axiom_spec_len(&self.entries);
    }

    /// The number of records.
    pub fn len(&self) -> (n: usize)
        ensures
            n == self@.len(),
    {
        self.entries.len()
    }

    fn find(&self, address: &Address) -> (found: Option<usize>)
        requires
            self.wf(),
        ensures
            match found {
                Some(i) => i < self@.len() && self@[i as int].0 == address@ && spec_slot(
                    self@,
                    address@,
                ) == i && spec_occupied(self@, address@),
                None => !spec_occupied(self@, address@),
            },
    {
        let mut i: usize = 0;
        while i < self.entries.len()
            invariant
                self.wf(),
                i <= self.entries@.len(),
                self@.len() == self.entries@.len(),
                forall|j: int| 0 <= j < i ==> (#[trigger] self@[j]).0 != address@,
            decreases self.entries@.len() - i,
        {
            if self.entries[i].address.same_as(address) {
                proof {
                    assert(self@[i as int].0 == address@);
                    lemma_slot_is(self@, address@, i as int);
                }
                return Some(i);
            }
            assert(self@[i as int].0 != address@);
            i = i + 1;
        }
        None
    }

    /// Creates the record at `address` unless one occupies it already, and
    /// hands back the record as stored. An occupied address is refused with
    /// `AlreadyExists`, and nothing changes.
    pub fn create_if_absent(&mut self, address: Address, value: V) -> (created: Result<
        &V,
        StoreError,
    >)
        requires
            old(self).wf(),
        ensures
            final(self).wf(),
            spec_occupied(old(self)@, address@) ==> created == Err::<&V, StoreError>(
                StoreError::AlreadyExists,
            ) && final(self)@ == old(self)@,
            !spec_occupied(old(self)@, address@) ==> created == Ok::<&V, StoreError>(&value)
                && final(self)@ == old(self)@.push((address@, value)),
    {
        match self.find(&address) {
            Some(_) => Err(StoreError::AlreadyExists),
            None => {
                let ghost before = self@;
                let ghost key = address@;
                self.entries.push(Entry { address, value });
                let n = self.entries.len();
                proof {
                    assert(self@ =~= before.push((key, value)));
                    lemma_lookup_after_create(before, (key, value), key);
                }
                Ok(&self.entries[n - 1].value)
            },
        }
    }

    /// The record at `address`, or `NotFound` where none occupies it.
    pub fn read(&self, address: &Address) -> (record: Result<&V, StoreError>)
        requires
            self.wf(),
        ensures
            spec_occupied(self@, address@) ==> record == Ok::<&V, StoreError>(
                &spec_value(self@, address@),
            ),
            !spec_occupied(self@, address@) ==> record == Err::<&V, StoreError>(
                StoreError::NotFound,
            ),
    {
        match self.find(address) {
            Some(i) => Ok(&self.entries[i].value),
            None => Err(StoreError::NotFound),
        }
    }

    /// Replaces the record at `address` by what `change` makes of it, in one
    /// step, and hands back the new record. Where no record occupies the
    /// address, `change` is not called and nothing changes.
    pub fn mutate<F: FnOnce(&V) -> V>(&mut self, address: &Address, change: F) -> (changed: Result<
        &V,
        StoreError,
    >)
        requires
            old(self).wf(),
            spec_occupied(old(self)@, address@) ==> change.requires(
                (&spec_value(old(self)@, address@),),
            ),
        ensures
            final(self).wf(),
            !spec_occupied(old(self)@, address@) ==> changed == Err::<&V, StoreError>(
                StoreError::NotFound,
            ) && final(self)@ == old(self)@,
            spec_occupied(old(self)@, address@) ==> (changed matches Ok(value) && change.ensures(
                (&spec_value(old(self)@, address@),),
                *value,
            ) && final(self)@ == old(self)@.update(
                spec_slot(old(self)@, address@),
                (address@, *value),
            )),
    {
        match self.find(address) {
            None => Err(StoreError::NotFound),
            Some(i) => {
                let ghost before = self@;
                let next = change(&self.entries[i].value);
                self.entries[i].value = next;
                proof {
                    assert(self@ =~= before.update(i as int, (address@, next)));
                    lemma_lookup_after_replace(before, i as int, (address@, next), address@);
                }
                Ok(&self.entries[i].value)
            },
        }
    }
}

} // verus!
