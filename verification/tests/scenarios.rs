//! The concrete end-to-end scenarios on the canonical small configuration:
//! default byte 0xAB, four pages of four bytes, sixteen addresses.

use mem_access::{Memory, PagedMemory, TransactionId};

fn ids(values: &[u32]) -> Vec<TransactionId> {
    values.iter().map(|&v| TransactionId(v)).collect()
}

#[test]
fn empty_read() {
    let memory = PagedMemory::<4, 4>::new(0xab);
    assert_eq!(memory.read(2, 1), vec![0xab]);
    assert_eq!(memory.read(0, 2), vec![0xab, 0xab]);
    assert_eq!(memory.read_transaction_ids(0, 16), ids(&[0; 16]));
}

#[test]
fn write_crossing_page_boundary() {
    let mut memory = PagedMemory::<4, 4>::new(0xab);
    memory.add_transaction(2, vec![0, 1, 2], 0).unwrap();
    assert_eq!(
        memory.read(0, 8),
        vec![0xab, 0xab, 0, 1, 2, 0xab, 0xab, 0xab]
    );
    assert_eq!(
        memory.read_transaction_ids(0, 8),
        ids(&[0, 0, 1, 1, 1, 0, 0, 0])
    );
}

#[test]
fn subsequent_multi_page_write() {
    let mut memory = PagedMemory::<4, 4>::new(0xab);
    memory.add_transaction(2, vec![0, 1, 2], 0).unwrap();
    memory
        .add_transaction(3, vec![0, 1, 2, 3, 4, 5, 6, 7], 0)
        .unwrap();
    assert_eq!(
        memory.read(0, 12),
        vec![0xab, 0xab, 0, 0, 1, 2, 3, 4, 5, 6, 7, 0xab]
    );
    assert_eq!(
        memory.read_transaction_ids(0, 12),
        ids(&[0, 0, 1, 2, 2, 2, 2, 2, 2, 2, 2, 0])
    );
}

#[test]
fn apply_two_revert_one() {
    let mut memory = PagedMemory::<4, 4>::new(0xab);
    memory.add_transaction(1, vec![0, 1, 2, 3, 4], 0).unwrap();
    memory.add_transaction(3, vec![4, 3, 2, 1], 0).unwrap();
    assert!(memory.previous_transaction().is_ok());
    assert_eq!(memory.read(0, 8), vec![0xab, 0, 1, 2, 3, 4, 0xab, 0xab]);
    assert_eq!(
        memory.read_transaction_ids(0, 8),
        ids(&[0, 1, 1, 1, 1, 1, 0, 0])
    );
}

#[test]
fn revert_to_empty() {
    let mut memory = PagedMemory::<4, 4>::new(0xab);
    memory.add_transaction(1, vec![0, 1, 2, 3, 4], 0).unwrap();
    memory.add_transaction(3, vec![4, 3, 2, 1], 0).unwrap();
    assert!(memory.previous_transaction().is_ok());
    assert!(memory.previous_transaction().is_ok());
    assert_eq!(memory.read(0, 8), vec![0xab; 8]);
    assert_eq!(memory.read_transaction_ids(0, 8), ids(&[0; 8]));
}

#[test]
fn rejected_re_add() {
    let mut memory = PagedMemory::<4, 4>::new(0xab);
    memory.add_transaction(1, vec![0, 1, 2, 3, 4], 0).unwrap();
    memory.add_transaction(3, vec![4, 3, 2, 1], 0).unwrap();
    assert!(memory.previous_transaction().is_ok());

    let bytes = memory.read(0, 16);
    let tags = memory.read_transaction_ids(0, 16);
    assert!(memory.add_transaction(0, vec![1], 0).is_err());
    assert_eq!(memory.read(0, 16), bytes);
    assert_eq!(memory.read_transaction_ids(0, 16), tags);
}

#[test]
fn provenance_of_overwritten_bytes() {
    // a byte written by record 0 then record 1 and reverted past record 1
    // reports record 0's id again; untouched bytes keep id 0
    let mut memory = PagedMemory::<4, 4>::new(0xab);
    memory.add_transaction(0, vec![1, 1, 1], 0).unwrap();
    memory.add_transaction(2, vec![2, 2], 0).unwrap();
    assert_eq!(
        memory.read_transaction_ids(0, 5),
        ids(&[1, 1, 2, 2, 0])
    );
    assert!(memory.previous_transaction().is_ok());
    assert_eq!(
        memory.read_transaction_ids(0, 5),
        ids(&[1, 1, 1, 0, 0])
    );
}
