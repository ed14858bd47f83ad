//! The mathematical model of the memory: byte and provenance images as
//! sequences, and the image that a prefix of the journal produces when its
//! records are replayed onto an all-default address space.

use crate::internal_memory_ops::Transaction;
use crate::TransactionId;
use vstd::prelude::*;

verus! {

/// `len` copies of `v`.
pub open spec fn repeated<T>(v: T, len: nat) -> Seq<T> {
    Seq::new(len, |i: int| v)
}

/// `s` with the window `[addr, addr + data.len())` replaced by `data`.
/// Indices outside the window keep their old values; the length is kept.
pub open spec fn splice<T>(s: Seq<T>, addr: int, data: Seq<T>) -> Seq<T> {
    Seq::new(s.len(), |i: int| if addr <= i < addr + data.len() {
        data[i - addr]
    } else {
        s[i]
    })
}

/// Whether `n` is a power of two.
pub open spec fn is_power_of_two(n: nat) -> bool
    decreases n,
{
    if n == 0 {
        false
    } else if n == 1 {
        true
    } else {
        n % 2 == 0 && is_power_of_two(n / 2)
    }
}

/// The raw integer values of a sequence of provenance tags.
pub open spec fn id_values(s: Seq<TransactionId>) -> Seq<u32> {
    s.map_values(|t: TransactionId| t.0)
}

/// Splicing a window and then splicing the window's old contents back
/// restores the original sequence.
pub proof fn lemma_splice_restore<T>(s: Seq<T>, addr: int, data: Seq<T>)
    requires
        0 <= addr,
        addr + data.len() <= s.len(),
    ensures
        splice(splice(s, addr, data), addr, s.subrange(addr, addr + data.len() as int)) == s,
{
    assert(splice(splice(s, addr, data), addr, s.subrange(addr, addr + data.len() as int)) =~= s);
}

/// Reading back a spliced window yields exactly the data written.
pub proof fn lemma_splice_read_back<T>(s: Seq<T>, addr: int, data: Seq<T>)
    requires
        0 <= addr,
        addr + data.len() <= s.len(),
    ensures
        splice(s, addr, data).subrange(addr, addr + data.len() as int) == data,
{
    assert(splice(s, addr, data).subrange(addr, addr + data.len() as int) =~= data);
}

/// The byte image of an address space of `space` bytes, all unwritten
/// (default byte `default`), after replaying the first `k` journal records
/// in order: each record splices its new bytes over its window.
pub open spec fn bytes_after(journal: Seq<Transaction>, k: int, default: u8, space: nat) -> Seq<u8>
    decreases k,
{
    if k <= 0 {
        repeated(default, space)
    } else {
        splice(
            bytes_after(journal, k - 1, default, space),
            journal[k - 1].addr as int,
            journal[k - 1].data@,
        )
    }
}

/// The provenance image after replaying the first `k` journal records:
/// record `i` (0-indexed) stamps every byte of its window with id `i + 1`;
/// id `0` marks a byte that no applied record has written.
pub open spec fn ids_after(journal: Seq<Transaction>, k: int, space: nat) -> Seq<u32>
    decreases k,
{
    if k <= 0 {
        repeated(0u32, space)
    } else {
        splice(
            ids_after(journal, k - 1, space),
            journal[k - 1].addr as int,
            repeated(k as u32, journal[k - 1].data@.len()),
        )
    }
}

/// Both replay images always cover the whole address space.
pub proof fn lemma_replay_len(journal: Seq<Transaction>, k: int, default: u8, space: nat)
    ensures
        bytes_after(journal, k, default, space).len() == space,
        ids_after(journal, k, space).len() == space,
    decreases k,
{
    if k > 0 {
        lemma_replay_len(journal, k - 1, default, space);
    }
}

/// The replay of the first `k` records reads nothing beyond them: two
/// journals that agree on their first `k` records replay to the same images.
pub proof fn lemma_replay_prefix(
    j1: Seq<Transaction>,
    j2: Seq<Transaction>,
    k: int,
    default: u8,
    space: nat,
)
    requires
        forall|i: int| 0 <= i < k ==> j1[i] == j2[i],
    ensures
        bytes_after(j1, k, default, space) == bytes_after(j2, k, default, space),
        ids_after(j1, k, space) == ids_after(j2, k, space),
    decreases k,
{
    if k > 0 {
        lemma_replay_prefix(j1, j2, k - 1, default, space);
    }
}

/// Well-formedness of the record at index `k`: a non-empty write inside the
/// address space whose stored pre-image (bytes and ids) is exactly what the
/// replay of the records before it shows over the record's window.
pub open spec fn record_wf(journal: Seq<Transaction>, k: int, default: u8, space: nat) -> bool {
    let t = journal[k];
    &&& t.data@.len() > 0
    &&& t.old_data@.len() == t.data@.len()
    &&& t.old_ids@.len() == t.data@.len()
    &&& t.addr + t.data@.len() < space
    &&& t.old_data@ == bytes_after(journal, k, default, space).subrange(
        t.addr as int,
        t.addr + t.data@.len(),
    )
    &&& id_values(t.old_ids@) == ids_after(journal, k, space).subrange(
        t.addr as int,
        t.addr + t.data@.len(),
    )
}

/// Every record of the journal is well-formed.
pub open spec fn journal_wf(journal: Seq<Transaction>, default: u8, space: nat) -> bool {
    forall|k: int| 0 <= k < journal.len() ==> #[trigger] record_wf(journal, k, default, space)
}

/// Appending a record does not disturb the well-formedness of the records
/// already present.
pub proof fn lemma_journal_wf_push(
    journal: Seq<Transaction>,
    t: Transaction,
    default: u8,
    space: nat,
)
    requires
        journal_wf(journal, default, space),
        record_wf(journal.push(t), journal.len() as int, default, space),
    ensures
        journal_wf(journal.push(t), default, space),
{
    let j2 = journal.push(t);
    assert forall|k: int| 0 <= k < j2.len() implies #[trigger] record_wf(j2, k, default, space) by {
        if k < journal.len() {
            assert(record_wf(journal, k, default, space));
            lemma_replay_prefix(journal, j2, k, default, space);
        }
    }
}

} // verus!
