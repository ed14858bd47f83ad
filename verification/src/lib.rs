//! Sparse, paged, transactional byte-addressable memory with per-byte
//! provenance and bidirectional stepping through a linear journal of writes.

use vstd::prelude::*;

mod internal_memory_ops;
pub mod laws;
mod model;

pub use internal_memory_ops::mem_wf;
pub use internal_memory_ops::InternalMemoryOps;
pub use internal_memory_ops::NaiveMemory;
pub use internal_memory_ops::Page;
pub use internal_memory_ops::PagedMemory;
pub use internal_memory_ops::Transaction;

verus! {

/// Provenance tag for a byte of memory: the 1-based ordinal of the journal
/// record that last wrote the byte, or `0` for a byte that was never written.
#[derive(Debug, Clone, Copy, PartialEq, Eq, Structural, PartialOrd, Ord)]
pub struct TransactionId(pub u32);

/// A transactional memory: reads over the whole address space, plus a linear
/// journal of writes that can be stepped forward and backward. The stepping
/// algorithms are provided here once, over the primitives of
/// [`InternalMemoryOps`], and are shared by every engine.
pub trait Memory: InternalMemoryOps {
    /// The bytes of `[addr, addr + size)`; unwritten addresses read as the
    /// default byte.
    fn read(&self, addr: usize, size: usize) -> (r: Vec<u8>)
        requires
            self.inv(),
            size > 0,
            addr + size <= self.space(),
        ensures
            r@ == self.mem_bytes().subrange(addr as int, addr + size),
    ;

    /// The provenance tags of `[addr, addr + size)`; unwritten addresses
    /// report id `0`.
    fn read_transaction_ids(&self, addr: usize, size: usize) -> (r: Vec<TransactionId>)
        requires
            self.inv(),
            size > 0,
            addr + size <= self.space(),
        ensures
            r@.len() == size,
            crate::model::id_values(r@) == self.mem_ids().subrange(addr as int, addr + size),
    ;

    /// The cursor: how many journal records are currently applied.
    fn current_transaction_id(&self) -> (n: usize)
        ensures
            n == self.cursor(),
    ;

    /// Re-apply the first pending record, if any: write its bytes, stamp its
    /// window with the record's 1-based ordinal, and advance the cursor.
    fn next_transaction(&mut self) -> (r: Result<(), ()>)
        requires
            mem_wf(old(self)),
        ensures
            mem_wf(final(self)),
            final(self).journal() == old(self).journal(),
            final(self).space() == old(self).space(),
            final(self).default_byte() == old(self).default_byte(),
            r is Ok <==> old(self).cursor() < old(self).journal().len(),
            r is Ok ==> {
                let t = old(self).journal()[old(self).cursor() as int];
                &&& final(self).cursor() == old(self).cursor() + 1
                &&& final(self).mem_bytes() == crate::model::splice(
                    old(self).mem_bytes(),
                    t.addr as int,
                    t.data@,
                )
                &&& final(self).mem_ids() == crate::model::splice(
                    old(self).mem_ids(),
                    t.addr as int,
                    crate::model::repeated((old(self).cursor() + 1) as u32, t.data@.len()),
                )
            },
            r is Err ==> *final(self) == *old(self),
    {
        let current_idx = self.current_transaction_id();
        if current_idx == self.transaction_vec_len() {
            return Err(());
        }
        let transaction = self.get_transaction(current_idx);
        let addr = transaction.addr;
        let data = internal_memory_ops::copy_bytes(&transaction.data);
        proof {
            assert(crate::model::record_wf(
                self.journal(),
                current_idx as int,
                self.default_byte(),
                self.space(),
            ));
        }
        let transaction_idx = TransactionId((current_idx + 1) as u32);
        let ids = internal_memory_ops::repeat_id(transaction_idx, data.len());
        proof {
            assert(crate::model::id_values(ids@) =~= crate::model::repeated(
                (current_idx + 1) as u32,
                data@.len(),
            ));
        }
        self.write_data(addr, data.as_slice());
        self.write_transaction_ids(addr, ids.as_slice());
        self.set_transaction_idx(current_idx + 1);
        Ok(())
    }

    /// Revert the most recently applied record, if any: write back its
    /// snapshot of bytes and provenance tags and step the cursor back.
    fn previous_transaction(&mut self) -> (r: Result<(), ()>)
        requires
            mem_wf(old(self)),
        ensures
            mem_wf(final(self)),
            final(self).journal() == old(self).journal(),
            final(self).space() == old(self).space(),
            final(self).default_byte() == old(self).default_byte(),
            r is Ok <==> old(self).cursor() > 0,
            r is Ok ==> {
                let t = old(self).journal()[old(self).cursor() - 1];
                &&& final(self).cursor() == old(self).cursor() - 1
                &&& final(self).mem_bytes() == crate::model::splice(
                    old(self).mem_bytes(),
                    t.addr as int,
                    t.old_data@,
                )
                &&& final(self).mem_ids() == crate::model::splice(
                    old(self).mem_ids(),
                    t.addr as int,
                    crate::model::id_values(t.old_ids@),
                )
            },
            r is Err ==> *final(self) == *old(self),
    {
        let current_idx = self.current_transaction_id();
        if current_idx == 0 {
            return Err(());
        }
        let transaction = self.get_transaction(current_idx - 1);
        let addr = transaction.addr;
        let old_data = internal_memory_ops::copy_bytes(&transaction.old_data);
        let old_ids = internal_memory_ops::copy_ids(&transaction.old_ids);
        proof {
            assert(crate::model::record_wf(
                self.journal(),
                current_idx - 1,
                self.default_byte(),
                self.space(),
            ));
            crate::model::lemma_replay_len(
                self.journal(),
                current_idx - 1,
                self.default_byte(),
                self.space(),
            );
        }
        self.write_data(addr, old_data.as_slice());
        self.write_transaction_ids(addr, old_ids.as_slice());
        self.set_transaction_idx(current_idx - 1);
        proof {
            let j = self.journal();
            let t = j[current_idx - 1];
            crate::model::lemma_splice_restore(
                crate::model::bytes_after(j, current_idx - 1, self.default_byte(), self.space()),
                t.addr as int,
                t.data@,
            );
            crate::model::lemma_splice_restore(
                crate::model::ids_after(j, current_idx - 1, self.space()),
                t.addr as int,
                crate::model::repeated(current_idx as u32, t.data@.len()),
            );
        }
        Ok(())
    }

    /// Append a new write to the journal and apply it. Rejected — with no
    /// state change — while reverted records are pending re-application,
    /// for an empty write, and for a write that does not fit below the end
    /// of the address space.
    fn add_transaction(&mut self, addr: usize, data: Vec<u8>, code_location: usize) -> (r: Result<
        (),
        (),
    >)
        requires
            mem_wf(old(self)),
            old(self).journal().len() < u32::MAX,
        ensures
            mem_wf(final(self)),
            final(self).space() == old(self).space(),
            final(self).default_byte() == old(self).default_byte(),
            r is Ok <==> {
                &&& old(self).cursor() == old(self).journal().len()
                &&& data@.len() > 0
                &&& addr + data@.len() < old(self).space()
            },
            r is Err ==> *final(self) == *old(self),
            r is Ok ==> {
                let t = final(self).journal().last();
                &&& final(self).journal().len() == old(self).journal().len() + 1
                &&& final(self).journal().subrange(0, old(self).journal().len() as int) == old(
                    self,
                ).journal()
                &&& t.addr == addr
                &&& t.data@ == data@
                &&& t.code_location == code_location
                &&& t.old_data@ == old(self).mem_bytes().subrange(addr as int, addr + data@.len())
                &&& crate::model::id_values(t.old_ids@) == old(self).mem_ids().subrange(
                    addr as int,
                    addr + data@.len(),
                )
                &&& final(self).cursor() == old(self).cursor() + 1
                &&& final(self).mem_bytes() == crate::model::splice(
                    old(self).mem_bytes(),
                    addr as int,
                    data@,
                )
                &&& final(self).mem_ids() == crate::model::splice(
                    old(self).mem_ids(),
                    addr as int,
                    crate::model::repeated((old(self).journal().len() + 1) as u32, data@.len()),
                )
            },
    {
        if self.transaction_vec_len() != self.current_transaction_id() {
            return Err(());
        }
        if data.len() == 0 {
            return Err(());
        }
        let space = self.address_space_size();
        if addr >= space || data.len() >= space - addr {
            return Err(());
        }
        let old_data = self.read(addr, data.len());
        let old_ids = self.read_transaction_ids(addr, data.len());
        let transaction = Transaction { addr, data, old_ids, old_data, code_location };
        proof {
            let j = old(self).journal();
            let j2 = j.push(transaction);
            crate::model::lemma_replay_len(
                j,
                old(self).cursor() as int,
                self.default_byte(),
                self.space(),
            );
            assert(j2.subrange(0, j.len() as int) =~= j);
            crate::model::lemma_replay_prefix(
                j,
                j2,
                j.len() as int,
                self.default_byte(),
                self.space(),
            );
            assert(crate::model::record_wf(j2, j.len() as int, self.default_byte(), self.space()));
            crate::model::lemma_journal_wf_push(
                j,
                transaction,
                self.default_byte(),
                self.space(),
            );
        }
        self.transaction_vec_push(transaction);
        let _ = self.next_transaction();
        proof {
            assert(self.journal().subrange(0, old(self).journal().len() as int) =~= old(
                self,
            ).journal());
        }
        Ok(())
    }

    /// Move the cursor to `idx` by stepping backward or forward as needed,
    /// so that exactly the records before `idx` are applied. Rejected when
    /// `idx` does not name a journal record.
    fn move_to_transaction(&mut self, idx: TransactionId) -> (r: Result<(), ()>)
        requires
            mem_wf(old(self)),
        ensures
            mem_wf(final(self)),
            final(self).journal() == old(self).journal(),
            final(self).space() == old(self).space(),
            final(self).default_byte() == old(self).default_byte(),
            r is Ok <==> (idx.0 as nat) < old(self).journal().len(),
            r is Ok ==> final(self).cursor() == idx.0 as nat,
            r is Err ==> *final(self) == *old(self),
    {
        let ghost journal0 = old(self).journal();
        let ghost space0 = old(self).space();
        let ghost default0 = old(self).default_byte();
        let id = idx.0 as usize;
        if id >= self.transaction_vec_len() {
            return Err(());
        }
        while id < self.current_transaction_id()
            invariant
                mem_wf(self),
                self.journal() == journal0,
                self.space() == space0,
                self.default_byte() == default0,
                id < journal0.len(),
            decreases self.cursor(),
        {
            let _ = self.previous_transaction();
        }
        while self.current_transaction_id() < id
            invariant
                mem_wf(self),
                self.journal() == journal0,
                self.space() == space0,
                self.default_byte() == default0,
                id < journal0.len(),
                self.cursor() <= id,
            decreases id - self.cursor(),
        {
            let _ = self.next_transaction();
        }
        Ok(())
    }
}

} // verus!
