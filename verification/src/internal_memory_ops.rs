//! The low-level store interface shared by the paged engine and the naive
//! (dense) reference engine: raw byte and provenance writes, journal record
//! storage, and the cursor. The journal algorithms in the crate root are
//! written once against this interface.

use crate::model::{bytes_after, id_values, ids_after, journal_wf, splice};
use crate::TransactionId;
use vstd::prelude::*;

mod naive_memory;
mod paged_memory;

pub use naive_memory::NaiveMemory;
pub use paged_memory::Page;
pub use paged_memory::PagedMemory;

verus! {

/// One journal record: a write of `data` at `addr`, together with the
/// snapshot (`old_data`, `old_ids`) of the bytes and provenance tags the
/// write replaced, which makes the record exactly reversible.
/// `code_location` is an opaque caller-supplied tag.
#[derive(Debug, Default, Clone, Eq, PartialEq, Ord, PartialOrd)]
pub struct Transaction {
    pub addr: usize,
    pub data: Vec<u8>,
    pub old_data: Vec<u8>,
    pub old_ids: Vec<TransactionId>,
    pub code_location: usize,
}

/// Raw primitives of a memory engine. Each implementation exposes its state
/// through the spec projections (`mem_bytes`, `mem_ids`, `journal`, `cursor`,
/// `default_byte`, `space`) and implements the executable primitives against
/// them; the journal stepping logic is layered on top, in `Memory`.
pub trait InternalMemoryOps: Sized {
    /// Representation invariant of the concrete store.
    spec fn inv(&self) -> bool;

    /// Number of addressable bytes.
    spec fn space(&self) -> nat;

    /// The byte an unwritten address reads as.
    spec fn default_byte(&self) -> u8;

    /// Current byte image of the whole address space.
    spec fn mem_bytes(&self) -> Seq<u8>;

    /// Current provenance image of the whole address space.
    spec fn mem_ids(&self) -> Seq<u32>;

    /// The stored journal records, oldest first.
    spec fn journal(&self) -> Seq<Transaction>;

    /// How many journal records are currently applied.
    spec fn cursor(&self) -> nat;

    /// Whether provenance tags may be written over `[addr, addr + len)`.
    /// The paged engine requires the covering pages to exist, which a byte
    /// write over the same window guarantees; writing tags to untouched
    /// storage is a programming error.
    spec fn ids_writable(&self, addr: int, len: int) -> bool;

    /// How many records the journal holds.
    fn transaction_vec_len(&self) -> (n: usize)
        ensures
            n == self.journal().len(),
    ;

    /// Append a record to the journal. Nothing else changes.
    fn transaction_vec_push(&mut self, transaction: Transaction)
        requires
            old(self).inv(),
            old(self).journal().len() < usize::MAX,
        ensures
            final(self).inv(),
            final(self).journal() == old(self).journal().push(transaction),
            final(self).mem_bytes() == old(self).mem_bytes(),
            final(self).mem_ids() == old(self).mem_ids(),
            final(self).cursor() == old(self).cursor(),
            final(self).space() == old(self).space(),
            final(self).default_byte() == old(self).default_byte(),
    ;

    /// The journal record at `idx`.
    fn get_transaction(&self, idx: usize) -> (t: &Transaction)
        requires
            idx < self.journal().len(),
        ensures
            *t == self.journal()[idx as int],
    ;

    /// Move the cursor. Nothing else changes.
    fn set_transaction_idx(&mut self, idx: usize)
        requires
            old(self).inv(),
            idx <= old(self).journal().len(),
        ensures
            final(self).inv(),
            final(self).cursor() == idx,
            final(self).journal() == old(self).journal(),
            final(self).mem_bytes() == old(self).mem_bytes(),
            final(self).mem_ids() == old(self).mem_ids(),
            final(self).space() == old(self).space(),
            final(self).default_byte() == old(self).default_byte(),
    ;

    /// Write `data` over `[addr, addr + data.len())`: the byte image gets
    /// spliced, the provenance image is untouched, and the window becomes
    /// ready for a provenance write.
    fn write_data(&mut self, addr: usize, data: &[u8])
        requires
            old(self).inv(),
            data@.len() > 0,
            addr + data@.len() <= old(self).space(),
        ensures
            final(self).inv(),
            final(self).mem_bytes() == splice(old(self).mem_bytes(), addr as int, data@),
            final(self).mem_ids() == old(self).mem_ids(),
            final(self).ids_writable(addr as int, data@.len() as int),
            final(self).journal() == old(self).journal(),
            final(self).cursor() == old(self).cursor(),
            final(self).space() == old(self).space(),
            final(self).default_byte() == old(self).default_byte(),
    ;

    /// Write provenance tags over `[addr, addr + transaction_ids.len())`:
    /// the provenance image gets spliced, the byte image is untouched.
    fn write_transaction_ids(&mut self, addr: usize, transaction_ids: &[TransactionId])
        requires
            old(self).inv(),
            transaction_ids@.len() > 0,
            addr + transaction_ids@.len() <= old(self).space(),
            old(self).ids_writable(addr as int, transaction_ids@.len() as int),
        ensures
            final(self).inv(),
            final(self).mem_ids() == splice(
                old(self).mem_ids(),
                addr as int,
                id_values(transaction_ids@),
            ),
            final(self).mem_bytes() == old(self).mem_bytes(),
            final(self).journal() == old(self).journal(),
            final(self).cursor() == old(self).cursor(),
            final(self).space() == old(self).space(),
            final(self).default_byte() == old(self).default_byte(),
    ;

    /// Number of addressable bytes.
    fn address_space_size(&self) -> (n: usize)
        requires
            self.inv(),
        ensures
            n == self.space(),
    ;
}

/// Full well-formedness of an engine: the representation invariant holds,
/// the cursor counts applied records, record ids fit the 32-bit id space,
/// every stored record is well-formed, and the live byte and provenance
/// images are exactly the replay of the applied records.
pub open spec fn mem_wf<M: InternalMemoryOps>(m: &M) -> bool {
    &&& m.inv()
    &&& m.cursor() <= m.journal().len()
    &&& m.journal().len() <= u32::MAX
    &&& journal_wf(m.journal(), m.default_byte(), m.space())
    &&& m.mem_bytes() == bytes_after(m.journal(), m.cursor() as int, m.default_byte(), m.space())
    &&& m.mem_ids() == ids_after(m.journal(), m.cursor() as int, m.space())
}

/// An exact copy of a byte vector.
pub(crate) fn copy_bytes(src: &Vec<u8>) -> (r: Vec<u8>)
    ensures
        r@ == src@,
{
    let mut r: Vec<u8> = Vec::new();
    let mut i: usize = 0;
    while i < src.len()
        invariant
            i <= src@.len(),
            r@.len() == i,
            forall|j: int| 0 <= j < i ==> r@[j] == src@[j],
        decreases src@.len() - i,
    {
        r.push(src[i]);
        i = i + 1;
    }
    assert(r@ =~= src@);
    r
}

/// An exact copy of a provenance tag vector.
pub(crate) fn copy_ids(src: &Vec<TransactionId>) -> (r: Vec<TransactionId>)
    ensures
        r@ == src@,
{
    let mut r: Vec<TransactionId> = Vec::new();
    let mut i: usize = 0;
    while i < src.len()
        invariant
            i <= src@.len(),
            r@.len() == i,
            forall|j: int| 0 <= j < i ==> r@[j] == src@[j],
        decreases src@.len() - i,
    {
        r.push(src[i]);
        i = i + 1;
    }
    assert(r@ =~= src@);
    r
}

/// `len` copies of the tag `id`.
pub(crate) fn repeat_id(id: TransactionId, len: usize) -> (r: Vec<TransactionId>)
    ensures
        r@ == crate::model::repeated(id, len as nat),
{
    let mut r: Vec<TransactionId> = Vec::new();
    let mut i: usize = 0;
    while i < len
        invariant
            i <= len,
            r@.len() == i,
            forall|j: int| 0 <= j < i ==> r@[j] == id,
        decreases len - i,
    {
        r.push(id);
        i = i + 1;
    }
    assert(r@ =~= crate::model::repeated(id, len as nat));
    r
}

/// `len` copies of the byte `b`.
pub(crate) fn repeat_byte(b: u8, len: usize) -> (r: Vec<u8>)
    ensures
        r@ == crate::model::repeated(b, len as nat),
{
    let mut r: Vec<u8> = Vec::new();
    let mut i: usize = 0;
    while i < len
        invariant
            i <= len,
            r@.len() == i,
            forall|j: int| 0 <= j < i ==> r@[j] == b,
        decreases len - i,
    {
        r.push(b);
        i = i + 1;
    }
    assert(r@ =~= crate::model::repeated(b, len as nat));
    r
}

} // verus!
