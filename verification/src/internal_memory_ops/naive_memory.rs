//! The dense reference engine: one flat array of bytes and one of
//! provenance tags covering the whole address space. It implements the same
//! interface as the paged engine and serves as its oracle in differential
//! tests; the shared spec projections make the equivalence provable.

use super::{repeat_byte, repeat_id, InternalMemoryOps, Transaction};
use crate::model::{id_values, is_power_of_two, repeated, splice};
use crate::{Memory, TransactionId};
use vstd::prelude::*;
use vstd::slice::slice_index_get;

verus! {

/// The dense store plus its journal: `SIZE` bytes (with `SIZE` equal to
/// `NUM_PAGES * PAGE_SIZE`, the same address space as the paged engine),
/// `SIZE` provenance tags, the journal records, and the cursor.
#[derive(Debug, Clone, Eq, PartialEq, Ord, PartialOrd)]
pub struct NaiveMemory<const NUM_PAGES: usize, const PAGE_SIZE: usize, const SIZE: usize> {
    default_value: u8,
    data: Vec<u8>,
    transaction_ids: Vec<TransactionId>,
    transactions: Vec<Transaction>,
    transaction_idx: usize,
}

impl<const NUM_PAGES: usize, const PAGE_SIZE: usize, const SIZE: usize> NaiveMemory<
    NUM_PAGES,
    PAGE_SIZE,
    SIZE,
> {
    /// A fresh memory: every byte the default, every tag zero, no records.
    pub fn new(default_value: u8) -> (r: Self)
        requires
            is_power_of_two(NUM_PAGES as nat),
            is_power_of_two(PAGE_SIZE as nat),
            NUM_PAGES * PAGE_SIZE == SIZE,
        ensures
            crate::mem_wf(&r),
            r.journal() == Seq::<Transaction>::empty(),
            r.cursor() == 0,
            r.space() == SIZE,
            r.default_byte() == default_value,
            r.mem_bytes() == repeated(default_value, SIZE as nat),
            r.mem_ids() == repeated(0u32, SIZE as nat),
    {
        let r = NaiveMemory {
            default_value,
            data: repeat_byte(default_value, SIZE),
            transaction_ids: repeat_id(TransactionId(0), SIZE),
            transactions: Vec::new(),
            transaction_idx: 0,
        };
        proof {
            assert(r.mem_ids() =~= repeated(0u32, SIZE as nat));
        }
        r
    }
}

impl<const NUM_PAGES: usize, const PAGE_SIZE: usize, const SIZE: usize> InternalMemoryOps
    for NaiveMemory<NUM_PAGES, PAGE_SIZE, SIZE> {
    closed spec fn inv(&self) -> bool {
        &&& is_power_of_two(NUM_PAGES as nat)
        &&& is_power_of_two(PAGE_SIZE as nat)
        &&& NUM_PAGES * PAGE_SIZE == SIZE
        &&& self.data@.len() == SIZE
        &&& self.transaction_ids@.len() == SIZE
    }

    closed spec fn space(&self) -> nat {
        SIZE as nat
    }

    closed spec fn default_byte(&self) -> u8 {
        self.default_value
    }

    closed spec fn mem_bytes(&self) -> Seq<u8> {
        self.data@
    }

    closed spec fn mem_ids(&self) -> Seq<u32> {
        id_values(self.transaction_ids@)
    }

    closed spec fn journal(&self) -> Seq<Transaction> {
        self.transactions@
    }

    closed spec fn cursor(&self) -> nat {
        self.transaction_idx as nat
    }

    closed spec fn ids_writable(&self, addr: int, len: int) -> bool {
        true
    }

    fn transaction_vec_len(&self) -> usize {
        self.transactions.len()
    }

    fn transaction_vec_push(&mut self, transaction: Transaction) {
        self.transactions.push(transaction);
    }

    fn get_transaction(&self, idx: usize) -> &Transaction {
        &self.transactions[idx]
    }

    fn set_transaction_idx(&mut self, idx: usize) {
        self.transaction_idx = idx;
    }

    #[verifier::loop_isolation(false)]
    fn write_data(&mut self, addr: usize, data: &[u8]) {
        let ghost m0 = *old(self);
        let mut j: usize = 0;
        while j < data.len()
            invariant
                j <= data@.len(),
                self.default_value == m0.default_value,
                self.transactions == m0.transactions,
                self.transaction_idx == m0.transaction_idx,
                self.transaction_ids == m0.transaction_ids,
                self.data@.len() == SIZE,
                forall|i: int| 0 <= i < j ==> self.data@[addr + i] == data@[i],
                forall|i: int|
                    0 <= i < SIZE && !(addr <= i < addr + j) ==> self.data@[i] == m0.data@[i],
            decreases data@.len() - j,
        {
            self.data.set(addr + j, *slice_index_get(data, j));
            j = j + 1;
        }
        proof {
            assert(self.mem_bytes() =~= splice(m0.mem_bytes(), addr as int, data@));
        }
    }

    #[verifier::loop_isolation(false)]
    fn write_transaction_ids(&mut self, addr: usize, transaction_ids: &[TransactionId]) {
        let ghost m0 = *old(self);
        let mut j: usize = 0;
        while j < transaction_ids.len()
            invariant
                j <= transaction_ids@.len(),
                self.default_value == m0.default_value,
                self.transactions == m0.transactions,
                self.transaction_idx == m0.transaction_idx,
                self.data == m0.data,
                self.transaction_ids@.len() == SIZE,
                forall|i: int|
                    0 <= i < j ==> self.transaction_ids@[addr + i] == transaction_ids@[i],
                forall|i: int|
                    0 <= i < SIZE && !(addr <= i < addr + j) ==> self.transaction_ids@[i]
                        == m0.transaction_ids@[i],
            decreases transaction_ids@.len() - j,
        {
            self.transaction_ids.set(addr + j, *slice_index_get(transaction_ids, j));
            j = j + 1;
        }
        proof {
            assert(self.mem_ids() =~= splice(
                m0.mem_ids(),
                addr as int,
                id_values(transaction_ids@),
            ));
        }
    }

    fn address_space_size(&self) -> usize {
        SIZE
    }
}

impl<const NUM_PAGES: usize, const PAGE_SIZE: usize, const SIZE: usize> Memory for NaiveMemory<
    NUM_PAGES,
    PAGE_SIZE,
    SIZE,
> {
    #[verifier::loop_isolation(false)]
    fn read(&self, addr: usize, size: usize) -> Vec<u8> {
        let mut data: Vec<u8> = Vec::new();
        let mut j: usize = 0;
        while j < size
            invariant
                j <= size,
                data@.len() == j,
                forall|i: int| 0 <= i < j ==> data@[i] == self.data@[addr + i],
            decreases size - j,
        {
            data.push(self.data[addr + j]);
            j = j + 1;
        }
        proof {
            assert(data@ =~= self.mem_bytes().subrange(addr as int, addr + size));
        }
        data
    }

    #[verifier::loop_isolation(false)]
    fn read_transaction_ids(&self, addr: usize, size: usize) -> Vec<TransactionId> {
        let mut transaction_ids: Vec<TransactionId> = Vec::new();
        let mut j: usize = 0;
        while j < size
            invariant
                j <= size,
                transaction_ids@.len() == j,
                forall|i: int|
                    0 <= i < j ==> transaction_ids@[i] == self.transaction_ids@[addr + i],
            decreases size - j,
        {
            transaction_ids.push(self.transaction_ids[addr + j]);
            j = j + 1;
        }
        proof {
            assert(id_values(transaction_ids@) =~= self.mem_ids().subrange(
                addr as int,
                addr + size,
            ));
        }
        transaction_ids
    }

    fn current_transaction_id(&self) -> usize {
        self.transaction_idx
    }
}

} // verus!
