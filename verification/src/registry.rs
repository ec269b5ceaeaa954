//! The pair registry: the records of the registered pairs, and an index
//! from pair key to record kept in a key-value storage under the namespace
//! `pair_info`, which hands the keys out in ascending order.

use crate::asset::PairInfoRaw;
use crate::byte_order::{bytes_lt, lemma_lt_transitive, lemma_trichotomy};
use crate::error::{write_outcome, FactoryError};
use crate::listing::{
    beyond, blocks, bound_view, first_after, has_key, lemma_first_after, lemma_lookup_at,
    listing_blocked, listing_start, lookup, page_of, sorted,
};
use crate::pair_key::pair_key_of;
use crate::storage::{
    empty_storage, first_slot_after, load_slot, save_slot, stored_slots, unread_slots,
};
use vstd::prelude::*;

verus! {

/// The registry.
pub struct PairRegistry {
    pub index: cosmwasm_std::MemoryStorage,
    pub records: Vec<PairInfoRaw>,
}

impl View for PairRegistry {
    type V = Seq<(Seq<u8>, PairInfoRaw)>;

    /// The registered pairs in ascending key order, each key with its
    /// record.
    open spec fn view(&self) -> Seq<(Seq<u8>, PairInfoRaw)> {
        records_of(stored_slots(self.index), self.records@)
    }
}

/// Each entry of the index with the record that its slot stands for.
pub open spec fn records_of(slots: Seq<(Seq<u8>, u64)>, records: Seq<PairInfoRaw>) -> Seq<
    (Seq<u8>, PairInfoRaw),
> {
    Seq::new(slots.len(), |i: int| (slots[i].0, records[slots[i].1 as int]))
}

/// The result of a lookup in the index, with the record in place of its
/// slot.
pub open spec fn record_for(found: Option<u64>, records: Seq<PairInfoRaw>) -> Option<PairInfoRaw> {
    match found {
        Some(slot) => Some(records[slot as int]),
        None => None,
    }
}

/// Looking a key up among the records is looking it up in the index and
/// taking the record of the slot found.
pub proof fn lemma_lookup_record(slots: Seq<(Seq<u8>, u64)>, records: Seq<PairInfoRaw>, k: Seq<u8>)
    requires
        sorted(slots),
    ensures
        sorted(records_of(slots, records)),
        has_key(records_of(slots, records), k) == has_key(slots, k),
        lookup(records_of(slots, records), k) == record_for(lookup(slots, k), records),
{
    let view = records_of(slots, records);
    assert forall|i: int, j: int| 0 <= i < j < view.len() implies crate::byte_order::bytes_lt(
        #[trigger] view[i].0,
        #[trigger] view[j].0,
    ) by {
        assert(view[i].0 == slots[i].0 && view[j].0 == slots[j].0);
    }
    if has_key(slots, k) {
        let i = choose|i: int| 0 <= i < slots.len() && (#[trigger] slots[i]).0 == k;
        assert(view[i].0 == k);
        lemma_lookup_at(slots, i);
        lemma_lookup_at(view, i);
    } else if has_key(view, k) {
        let i = choose|i: int| 0 <= i < view.len() && (#[trigger] view[i]).0 == k;
        assert(slots[i].0 == k);
    }
}

/// Every record stands under the key of its own pair of identifiers.
pub open spec fn keyed(s: Seq<(Seq<u8>, PairInfoRaw)>) -> bool {
    forall|i: int|
        0 <= i < s.len() ==> (#[trigger] s[i]).0 == pair_key_of(
            s[i].1.asset_infos[0]@,
            s[i].1.asset_infos[1]@,
        )
}

/// Storing a record under the key of its own pair keeps every record
/// under the key of its pair.
pub proof fn lemma_keyed_after_put(
    before: Seq<(Seq<u8>, PairInfoRaw)>,
    after: Seq<(Seq<u8>, PairInfoRaw)>,
    key: Seq<u8>,
)
    requires
        sorted(before),
        sorted(after),
        keyed(before),
        lookup(after, key) is Some,
        key == pair_key_of(
            lookup(after, key)->Some_0.asset_infos[0]@,
            lookup(after, key)->Some_0.asset_infos[1]@,
        ),
        forall|k: Seq<u8>| k != key ==> lookup(after, k) == lookup(before, k),
    ensures
        keyed(after),
{
    assert forall|i: int| 0 <= i < after.len() implies (#[trigger] after[i]).0 == pair_key_of(
        after[i].1.asset_infos[0]@,
        after[i].1.asset_infos[1]@,
    ) by {
        let k = after[i].0;
        lemma_lookup_at(after, i);
        if k != key {
            let j = choose|j: int| 0 <= j < before.len() && (#[trigger] before[j]).0 == k;
            lemma_lookup_at(before, j);
        }
    }
}

impl PairRegistry {
    /// The registered pairs stand in strictly ascending key order.
    pub proof fn lemma_view_sorted(&self)
        requires
            self.wf(),
        ensures
            sorted(self@),
    {
        lemma_lookup_record(stored_slots(self.index), self.records@, Seq::<u8>::empty());
    }

    /// The index is in key order, every slot in it stands for a record,
    /// and no two keys share a slot.
    pub open spec fn wf(&self) -> bool {
        &&& sorted(stored_slots(self.index))
        &&& forall|i: int|
            0 <= i < stored_slots(self.index).len() ==> (#[trigger] stored_slots(
                self.index,
            )[i]).1 < self.records@.len()
        &&& forall|i: int, j: int|
            0 <= i < j < stored_slots(self.index).len() ==> (#[trigger] stored_slots(
                self.index,
            )[i]).1 != (#[trigger] stored_slots(self.index)[j]).1
    }

    /// The keys under which the storage holds something that does not
    /// read as a slot. A registry that only `new` and `put` have touched
    /// has none.
    pub open spec fn unreadable(&self) -> Set<Seq<u8>> {
        unread_slots(self.index)
    }

    /// An empty registry.
    pub fn new() -> (registry: Self)
        ensures
            registry.wf(),
            registry@.len() == 0,
            forall|k: Seq<u8>| !registry.unreadable().contains(k),
    {
        PairRegistry { index: empty_storage(), records: Vec::new() }
    }

    /// Stores `record` under `key`, in place of what the key had, readable
    /// or not. Every other key keeps its record. This always succeeds.
    pub fn put(&mut self, key: Vec<u8>, record: PairInfoRaw) -> (result: Result<(), FactoryError>)
        requires
            old(self).wf(),
        ensures
            final(self).wf(),
            result is Ok,
            lookup(final(self)@, key@) == Some(record),
            forall|k: Seq<u8>| k != key@ ==> lookup(final(self)@, k) == lookup(old(self)@, k),
            final(self).unreadable() == old(self).unreadable().remove(key@),
    {
        let count: usize = self.records.len();
        let ghost before = stored_slots(self.index);
        let ghost old_records = self.records@;
        match slot_from_loaded(load_slot(&self.index, key.as_slice())) {
            Ok(slot) => {
                // the key has a record: the new one takes its place
                proof {
                    let i = choose|i: int| 0 <= i < before.len() && (#[trigger] before[i]).0 == key@;
                    lemma_lookup_at(before, i);
                    assert(slot < count);
                }
                self.records.set(slot as usize, record);
                proof {
                    assert(self.unreadable() =~= old(self).unreadable().remove(key@));
                    lemma_lookup_record(before, self.records@, key@);
                    assert forall|k: Seq<u8>| k != key@ implies lookup(self@, k) == lookup(
                        old(self)@,
                        k,
                    ) by {
                        lemma_lookup_record(before, self.records@, k);
                        lemma_lookup_record(before, old_records, k);
                        if has_key(before, k) {
                            let i = choose|i: int|
                                0 <= i < before.len() && (#[trigger] before[i]).0 == key@;
                            let j = choose|j: int|
                                0 <= j < before.len() && (#[trigger] before[j]).0 == k;
                            lemma_lookup_at(before, i);
                            lemma_lookup_at(before, j);
                            assert(before[i].1 != before[j].1);
                        }
                    }
                }
                Ok(())
            },
            Err(_) => {
                // the key has none: a new record, and a slot for it in the index
                self.records.push(record);
                let written = write_outcome(
                    save_slot(&mut self.index, key.as_slice(), count as u64),
                );
                proof {
                    let after = stored_slots(self.index);
                    lemma_fresh_slot(before, after, key@, count as u64);
                    lemma_lookup_record(after, self.records@, key@);
                    assert forall|k: Seq<u8>| k != key@ implies lookup(self@, k) == lookup(
                        old(self)@,
                        k,
                    ) by {
                        lemma_lookup_record(after, self.records@, k);
                        lemma_lookup_record(before, old_records, k);
                        if has_key(before, k) {
                            let j = choose|j: int|
                                0 <= j < before.len() && (#[trigger] before[j]).0 == k;
                            lemma_lookup_at(before, j);
                        }
                    }
                }
                written
            },
        }
    }

    /// Whether the pair with this key is registered: `true` where it is,
    /// the error `Storage` where what the storage holds under the key
    /// cannot be read, `false` otherwise.
    pub fn contains(&self, key: &[u8]) -> (result: Result<bool, FactoryError>)
        requires
            self.wf(),
        ensures
            has_key(self@, key@) ==> result == Ok::<bool, FactoryError>(true),
            self.unreadable().contains(key@) ==> result == Err::<bool, FactoryError>(
                FactoryError::Storage,
            ),
            !has_key(self@, key@) && !self.unreadable().contains(key@) ==> result == Ok::<
                bool,
                FactoryError,
            >(false),
    {
        proof {
            lemma_lookup_record(stored_slots(self.index), self.records@, key@);
        }
        presence_from_loaded(load_slot(&self.index, key))
    }

    /// The record stored under `key`: the record where there is one, the
    /// error `Storage` where what the storage holds under the key cannot
    /// be read, the error `NotFound` otherwise.
    pub fn get(&self, key: &[u8]) -> (result: Result<&PairInfoRaw, FactoryError>)
        requires
            self.wf(),
        ensures
            has_key(self@, key@) ==> result is Ok && Some(*result->Ok_0) == lookup(self@, key@),
            self.unreadable().contains(key@) ==> result is Err && result->Err_0
                == FactoryError::Storage,
            !has_key(self@, key@) && !self.unreadable().contains(key@) ==> result is Err
                && result->Err_0 == FactoryError::NotFound,
    {
        proof {
            lemma_lookup_record(stored_slots(self.index), self.records@, key@);
        }
        let count: usize = self.records.len();
        match slot_from_loaded(load_slot(&self.index, key)) {
            Ok(slot) => {
                proof {
                    let slots = stored_slots(self.index);
                    let i = choose|i: int| 0 <= i < slots.len() && (#[trigger] slots[i]).0 == key@;
                    lemma_lookup_at(slots, i);
                    assert(slot < count);
                }
                Ok(&self.records[slot as usize])
            },
            Err(error) => Err(error),
        }
    }

    /// At most `limit` records, in key order, of the pairs whose key sorts
    /// strictly after `bound`; from the first pair on where no bound is
    /// given. It fails, with `Storage`, exactly where a key that cannot be
    /// read comes up after the bound before the page is full.
    pub fn list_after(&self, bound: Option<Vec<u8>>, limit: usize) -> (result: Result<
        Vec<&PairInfoRaw>,
        FactoryError,
    >)
        requires
            self.wf(),
        ensures
            result is Ok ==> result->Ok_0@.len() == page_of(
                self@,
                bound_view(bound),
                limit as nat,
            ).len(),
            result is Ok ==> forall|i: int|
                0 <= i < result->Ok_0@.len() ==> *(#[trigger] result->Ok_0@[i]) == page_of(
                    self@,
                    bound_view(bound),
                    limit as nat,
                )[i].1,
            result is Err ==> result->Err_0 == FactoryError::Storage,
            result is Err <==> listing_blocked(
                self@,
                self.unreadable(),
                bound_view(bound),
                limit as nat,
            ),
    {
        let ghost all = stored_slots(self.index);
        let ghost unread = self.unreadable();
        let ghost first = bound_view(bound);
        let ghost start = listing_start(all, first);
        proof {
            if first is Some {
                lemma_first_after(all, first->Some_0, 0);
            }
        }
        let mut slots: Vec<u64> = Vec::new();
        let mut cursor: Option<Vec<u8>> = bound;
        let mut done: bool = false;
        while !done && slots.len() < limit
            invariant
                self.wf(),
                all == stored_slots(self.index),
                unread == unread_slots(self.index),
                first == bound_view(bound),
                start == listing_start(all, first),
                0 <= start,
                start + slots@.len() <= all.len(),
                slots@.len() <= limit,
                first is Some ==> forall|j: int|
                    start <= j < all.len() ==> bytes_lt(first->Some_0, (#[trigger] all[j]).0),
                listing_start(all, bound_view(cursor)) == start + slots@.len(),
                forall|j: int| 0 <= j < slots@.len() ==> (#[trigger] slots@[j]) == all[start + j].1,
                slots@.len() > 0 ==> bound_view(cursor) == Some(all[start + slots@.len() - 1].0),
                slots@.len() == 0 ==> bound_view(cursor) == first,
                forall|k: Seq<u8>|
                    #[trigger] unread.contains(k) && beyond(first, k) ==> beyond(
                        bound_view(cursor),
                        k,
                    ),
                done ==> start + slots@.len() == all.len(),
                done ==> forall|k: Seq<u8>|
                    #[trigger] unread.contains(k) ==> !beyond(bound_view(cursor), k),
            decreases limit - slots.len(), (if done { 0int } else { 1int }),
        {
            let ghost at = bound_view(cursor);
            let ghost n = slots@.len() as int;
            let ghost next = page_of(all, at, 1);
            match first_slot_after(&self.index, &cursor) {
                Err(_) => {
                    proof {
                        let k = choose|k: Seq<u8>|
                            #[trigger] unread.contains(k) && blocks(all, at, 1, k);
                        let whole = page_of(all, first, limit as nat);
                        if n > 0 && first is Some {
                            lemma_lt_transitive(first->Some_0, all[start + n - 1].0, k);
                        }
                        // the key that stops the walk stops the whole page too
                        if whole.len() == limit && next.len() > 0 {
                            assert(next.last() == all[start + n]);
                            assert(whole.last() == all[start + limit - 1]);
                            if n < limit - 1 {
                                assert(bytes_lt(all[start + n].0, all[start + limit - 1].0));
                                lemma_lt_transitive(k, all[start + n].0, all[start + limit - 1].0);
                            }
                        }
                        assert(beyond(first, k));
                        assert(unread.contains(k) && blocks(all, first, limit as nat, k));
                        lemma_blocked_records(all, self.records@, unread, first, limit as nat);
                    }
                    return Err(FactoryError::Storage);
                },
                Ok(None) => {
                    proof {
                        assert forall|k: Seq<u8>| #[trigger] unread.contains(k) implies !beyond(
                            at,
                            k,
                        ) by {
                            if beyond(at, k) {
                                assert(blocks(all, at, 1, k));
                            }
                        }
                    }
                    done = true;
                },
                Ok(Some(entry)) => {
                    proof {
                        assert(next[0] == all[start + n]);
                        assert(entry.0@ == all[start + n].0);
                        lemma_first_after(all, entry.0@, 0);
                        lemma_trichotomy(entry.0@, entry.0@);
                        let after = first_after(all, entry.0@, 0);
                        if after <= start + n {
                            assert(bytes_lt(entry.0@, all[start + n].0));
                        }
                        if after > start + n + 1 {
                            assert(bytes_lt(all[start + n].0, all[start + n + 1].0));
                        }
                        assert forall|k: Seq<u8>| #[trigger]
                            unread.contains(k) && beyond(first, k) implies bytes_lt(
                            entry.0@,
                            k,
                        ) by {
                            lemma_trichotomy(entry.0@, k);
                            if bytes_lt(k, entry.0@) {
                                assert(blocks(all, at, 1, k));
                            }
                        }
                    }
                    slots.push(entry.1);
                    cursor = Some(entry.0);
                },
            }
        }
        proof {
            let whole = page_of(all, first, limit as nat);
            let n = slots@.len() as int;
            lemma_blocked_records(all, self.records@, unread, first, limit as nat);
            lemma_page_records(all, self.records@, first, limit as nat);
            assert(whole =~= all.subrange(start, start + n));
            assert forall|k: Seq<u8>| #[trigger] unread.contains(k) implies !blocks(
                all,
                first,
                limit as nat,
                k,
            ) by {
                if beyond(first, k) && !done && n > 0 {
                    lemma_trichotomy(k, all[start + n - 1].0);
                    assert(whole.last() == all[start + n - 1]);
                }
            }
            assert forall|j: int| 0 <= j < slots@.len() implies (#[trigger] slots@[j])
                < self.records@.len() by {}
            assert(records_of(whole, self.records@).len() == n);
        }
        let page = pick_records(&self.records, &slots);
        Ok(page)
    }
}

/// An index that gave one key a slot above all slots in use, and left the
/// other keys as they were, still has every slot at most that one and no
/// slot twice.
pub proof fn lemma_fresh_slot(
    before: Seq<(Seq<u8>, u64)>,
    after: Seq<(Seq<u8>, u64)>,
    key: Seq<u8>,
    slot: u64,
)
    requires
        sorted(before),
        sorted(after),
        forall|i: int| 0 <= i < before.len() ==> (#[trigger] before[i]).1 < slot,
        forall|i: int, j: int|
            0 <= i < j < before.len() ==> (#[trigger] before[i]).1 != (#[trigger] before[j]).1,
        lookup(after, key) == Some(slot),
        forall|k: Seq<u8>| k != key ==> lookup(after, k) == lookup(before, k),
    ensures
        forall|i: int| 0 <= i < after.len() ==> (#[trigger] after[i]).1 <= slot,
        forall|i: int, j: int|
            0 <= i < j < after.len() ==> (#[trigger] after[i]).1 != (#[trigger] after[j]).1,
{
    assert forall|i: int| 0 <= i < after.len() implies (#[trigger] after[i]).1 <= slot && (
    after[i].0 != key ==> after[i].1 < slot) by {
        lemma_lookup_at(after, i);
        if after[i].0 != key {
            let j = choose|j: int| 0 <= j < before.len() && (#[trigger] before[j]).0 == after[i].0;
            lemma_lookup_at(before, j);
        }
    }
    assert forall|i: int, j: int| 0 <= i < j < after.len() implies (#[trigger] after[i]).1 != (
    #[trigger] after[j]).1 by {
        lemma_lookup_at(after, i);
        lemma_lookup_at(after, j);
        crate::byte_order::lemma_trichotomy(after[i].0, after[j].0);
        if after[i].0 != key && after[j].0 != key {
            let i2 = choose|x: int| 0 <= x < before.len() && (#[trigger] before[x]).0 == after[i].0;
            let j2 = choose|x: int| 0 <= x < before.len() && (#[trigger] before[x]).0 == after[j].0;
            lemma_lookup_at(before, i2);
            lemma_lookup_at(before, j2);
            if i2 < j2 {
                assert(before[i2].1 != before[j2].1);
            } else if j2 < i2 {
                assert(before[j2].1 != before[i2].1);
            }
        }
    }
}

/// The records that `slots` stand for, in the order of the slots.
pub fn pick_records<'a>(records: &'a Vec<PairInfoRaw>, slots: &Vec<u64>) -> (page: Vec<
    &'a PairInfoRaw,
>)
    requires
        forall|j: int| 0 <= j < slots@.len() ==> (#[trigger] slots@[j]) < records@.len(),
    ensures
        page@.len() == slots@.len(),
        forall|j: int|
            0 <= j < page@.len() ==> *(#[trigger] page@[j]) == records@[slots@[j] as int],
{
    let count: usize = records.len();
    let mut page: Vec<&PairInfoRaw> = Vec::new();
    let mut i: usize = 0;
    while i < slots.len()
        invariant
            i <= slots.len(),
            count == records@.len(),
            page@.len() == i,
            forall|j: int| 0 <= j < slots@.len() ==> (#[trigger] slots@[j]) < records@.len(),
            forall|j: int| 0 <= j < i ==> *(#[trigger] page@[j]) == records@[slots@[j] as int],
        decreases slots.len() - i,
    {
        assert(slots@[i as int] < count);
        page.push(&records[slots[i] as usize]);
        i += 1;
    }
    page
}

/// What a read of the index amounts to: the slot that was found,
/// `NotFound` where nothing is stored, `Storage` where the read failed.
pub fn slot_from_loaded(loaded: Result<Option<u64>, cosmwasm_std::StdError>) -> (result: Result<
    u64,
    FactoryError,
>)
    ensures
        result == (match loaded {
            Ok(Some(slot)) => Ok::<u64, FactoryError>(slot),
            Ok(None) => Err::<u64, FactoryError>(FactoryError::NotFound),
            Err(_) => Err::<u64, FactoryError>(FactoryError::Storage),
        }),
{
    match loaded {
        Ok(Some(slot)) => Ok(slot),
        Ok(None) => Err(FactoryError::NotFound),
        Err(_) => Err(FactoryError::Storage),
    }
}

/// Whether a read of the index found something: `true` for a slot, `false`
/// where nothing is stored, `Storage` where the read failed.
pub fn presence_from_loaded(loaded: Result<Option<u64>, cosmwasm_std::StdError>) -> (result: Result<
    bool,
    FactoryError,
>)
    ensures
        result == (match loaded {
            Ok(Some(_)) => Ok::<bool, FactoryError>(true),
            Ok(None) => Ok::<bool, FactoryError>(false),
            Err(_) => Err::<bool, FactoryError>(FactoryError::Storage),
        }),
{
    match loaded {
        Ok(Some(_)) => Ok(true),
        Ok(None) => Ok(false),
        Err(_) => Err(FactoryError::Storage),
    }
}

/// A page of the records is the page of the index, each slot replaced by
/// its record.
pub proof fn lemma_page_records(
    slots: Seq<(Seq<u8>, u64)>,
    records: Seq<PairInfoRaw>,
    bound: Option<Seq<u8>>,
    limit: nat,
)
    ensures
        page_of(records_of(slots, records), bound, limit) == records_of(
            page_of(slots, bound, limit),
            records,
        ),
{
    if bound is Some {
        lemma_same_start(slots, records, bound->Some_0, 0);
    }
    assert(page_of(records_of(slots, records), bound, limit) =~= records_of(
        page_of(slots, bound, limit),
        records,
    ));
}

/// Whether a listing is blocked depends on the keys alone.
pub proof fn lemma_blocked_records(
    slots: Seq<(Seq<u8>, u64)>,
    records: Seq<PairInfoRaw>,
    unread: Set<Seq<u8>>,
    bound: Option<Seq<u8>>,
    limit: nat,
)
    ensures
        listing_blocked(records_of(slots, records), unread, bound, limit) == listing_blocked(
            slots,
            unread,
            bound,
            limit,
        ),
{
    lemma_page_records(slots, records, bound, limit);
    let view = records_of(slots, records);
    let page = page_of(slots, bound, limit);
    assert(page_of(view, bound, limit).len() == page.len());
    if page.len() > 0 {
        assert(page_of(view, bound, limit).last().0 == page.last().0);
    }
    assert forall|k: Seq<u8>| blocks(view, bound, limit, k) == blocks(slots, bound, limit, k) by {}
    if listing_blocked(view, unread, bound, limit) {
        let k = choose|k: Seq<u8>| #[trigger] unread.contains(k) && blocks(view, bound, limit, k);
        assert(unread.contains(k) && blocks(slots, bound, limit, k));
    }
    if listing_blocked(slots, unread, bound, limit) {
        let k = choose|k: Seq<u8>| #[trigger] unread.contains(k) && blocks(slots, bound, limit, k);
        assert(unread.contains(k) && blocks(view, bound, limit, k));
    }
}

/// Where a listing starts depends on the keys alone.
pub proof fn lemma_same_start(
    slots: Seq<(Seq<u8>, u64)>,
    records: Seq<PairInfoRaw>,
    bound: Seq<u8>,
    from: int,
)
    requires
        0 <= from <= slots.len(),
    ensures
        first_after(records_of(slots, records), bound, from) == first_after(slots, bound, from),
        from <= first_after(slots, bound, from) <= slots.len(),
    decreases slots.len() - from,
{
    if from < slots.len() {
        assert(records_of(slots, records)[from].0 == slots[from].0);
        if !crate::byte_order::bytes_lt(bound, slots[from].0) {
            lemma_same_start(slots, records, bound, from + 1);
        }
    }
}

} // verus!
