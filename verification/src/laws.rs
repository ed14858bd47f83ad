//! The global laws of the memory, stated and proved once over the shared
//! spec projections, so that they hold of every engine (paged and naive
//! alike) and of every sequence of journal operations.

use crate::internal_memory_ops::{mem_wf, InternalMemoryOps};
use crate::model::{
    lemma_replay_len, lemma_splice_read_back, repeated, splice,
};
use vstd::prelude::*;

verus! {

/// Default read law: a memory with no applied records — in particular a
/// freshly constructed one — shows only default bytes and zero provenance
/// ids. Over any in-bounds window the byte image is `size` copies of the
/// default byte and the provenance image is `size` zeros, which by the
/// contracts of `read` and `read_transaction_ids` is exactly what those
/// functions return.
pub proof fn lemma_default_read<M: InternalMemoryOps>(m: &M, addr: int, size: int)
    requires
        mem_wf(m),
        m.cursor() == 0,
        0 <= addr,
        0 <= size,
        addr + size <= m.space(),
    ensures
        m.mem_bytes().subrange(addr, addr + size) == repeated(m.default_byte(), size as nat),
        m.mem_ids().subrange(addr, addr + size) == repeated(0u32, size as nat),
{
    assert(m.mem_bytes().subrange(addr, addr + size) =~= repeated(
        m.default_byte(),
        size as nat,
    ));
    assert(m.mem_ids().subrange(addr, addr + size) =~= repeated(0u32, size as nat));
}

/// Write-then-read identity: an accepted `add_transaction` of `data` at
/// `addr` leaves the byte image spliced with `data` (its contract), and
/// reading the written window back — which `read` returns as a subrange of
/// the byte image — yields exactly `data`.
pub proof fn lemma_write_then_read<M: InternalMemoryOps>(
    before: &M,
    after: &M,
    addr: int,
    data: Seq<u8>,
)
    requires
        mem_wf(before),
        0 <= addr,
        addr + data.len() <= before.space(),
        after.mem_bytes() == splice(before.mem_bytes(), addr, data),
    ensures
        after.mem_bytes().subrange(addr, addr + data.len() as int) == data,
{
    lemma_replay_len(
        before.journal(),
        before.cursor() as int,
        before.default_byte(),
        before.space(),
    );
    lemma_splice_read_back(before.mem_bytes(), addr, data);
}

/// Provenance stamping: an accepted `add_transaction` over the window
/// `[addr, addr + len)` splices the constant id of the new record (its
/// 0-based index plus one) over that window (its contract). Every byte
/// inside the window then carries that id, and every byte outside retains
/// the id it had before.
pub proof fn lemma_provenance_stamp<M: InternalMemoryOps>(
    before: &M,
    after: &M,
    addr: int,
    len: nat,
    id: u32,
)
    requires
        mem_wf(before),
        0 <= addr,
        addr + len <= before.space(),
        after.mem_ids() == splice(before.mem_ids(), addr, repeated(id, len)),
    ensures
        forall|a: int| addr <= a < addr + len ==> after.mem_ids()[a] == id,
        forall|a: int|
            0 <= a < before.space() && !(addr <= a < addr + len) ==> after.mem_ids()[a]
                == before.mem_ids()[a],
{
    lemma_replay_len(
        before.journal(),
        before.cursor() as int,
        before.default_byte(),
        before.space(),
    );
}

/// The whole byte and provenance state of a well-formed memory is a
/// function of its journal, cursor, default byte and address space — the
/// replay of the applied records. Two consequences:
///
/// - *Undo/redo reversibility.* `next_transaction` and
///   `previous_transaction` keep the journal and move only the cursor
///   (their contracts), so any sequence of steps that returns the cursor to
///   its original value — undoing to zero and redoing back — restores the
///   byte and id images exactly (instantiate with the states before and
///   after the round trip).
/// - *Oracle equivalence.* A paged and a naive engine driven through the
///   same accepted `add_transaction` calls hold equal journals and cursors
///   (the contract of `add_transaction` pins both), hence equal byte
///   images, hence equal `read` results over every window.
pub proof fn lemma_state_determined_by_journal<M1: InternalMemoryOps, M2: InternalMemoryOps>(
    a: &M1,
    b: &M2,
)
    requires
        mem_wf(a),
        mem_wf(b),
        a.journal() == b.journal(),
        a.cursor() == b.cursor(),
        a.default_byte() == b.default_byte(),
        a.space() == b.space(),
    ensures
        a.mem_bytes() == b.mem_bytes(),
        a.mem_ids() == b.mem_ids(),
{
}

} // verus!
