use mem_access::{Memory, NaiveMemory, PagedMemory, TransactionId};

#[test]
fn apply_transaction() {
    let mut memory = NaiveMemory::<4, 4, 16>::new(0xab);
    let data1 = vec![0, 1, 2, 3, 4];
    memory.add_transaction(0x1, data1.clone(), 0x0).unwrap();
    assert_eq!(memory.read(0x1, data1.len()), data1);

    let data2 = vec![4, 3, 2, 1];
    memory.add_transaction(0x3, data2.clone(), 0x0).unwrap();
    let result = memory.read(0x0, 8);
    let expected_result = vec![0xab, 0, 1, 4, 3, 2, 1, 0xab];
    assert_eq!(result, expected_result);
    let result_tr = memory.read_transaction_ids(0x0, 8);
    assert_eq!(result_tr.len(), 8);
    let expected_result_tr = vec![
        TransactionId(0),
        TransactionId(1),
        TransactionId(1),
        TransactionId(2),
        TransactionId(2),
        TransactionId(2),
        TransactionId(2),
        TransactionId(0),
    ];
    assert_eq!(result_tr, expected_result_tr);
}

#[test]
fn revert_transaction() {
    let mut memory = NaiveMemory::<4, 4, 16>::new(0xab);
    let data1 = vec![0, 1, 2, 3, 4];
    memory.add_transaction(0x1, data1.clone(), 0x0).unwrap();
    assert_eq!(memory.read(0x1, data1.len()), data1);

    let data2 = vec![4, 3, 2, 1];
    memory.add_transaction(0x3, data2.clone(), 0x0).unwrap();

    assert!(memory.previous_transaction().is_ok());

    let result = memory.read(0x0, 8);
    let expected_result = vec![0xab, 0, 1, 2, 3, 4, 0xab, 0xab];
    assert_eq!(result, expected_result);
    let result_tr = memory.read_transaction_ids(0x0, 8);
    assert_eq!(result_tr.len(), 8);
    let expected_result_tr = vec![
        TransactionId(0),
        TransactionId(1),
        TransactionId(1),
        TransactionId(1),
        TransactionId(1),
        TransactionId(1),
        TransactionId(0),
        TransactionId(0),
    ];
    assert_eq!(result_tr, expected_result_tr);

    assert!(memory.previous_transaction().is_ok());

    let result = memory.read(0x0, 8);
    let expected_result = vec![0xab, 0xab, 0xab, 0xab, 0xab, 0xab, 0xab, 0xab];
    assert_eq!(result, expected_result);
    let result_tr = memory.read_transaction_ids(0x0, 8);
    assert_eq!(result_tr.len(), 8);
    let expected_result_tr = vec![
        TransactionId(0),
        TransactionId(0),
        TransactionId(0),
        TransactionId(0),
        TransactionId(0),
        TransactionId(0),
        TransactionId(0),
        TransactionId(0),
    ];
    assert_eq!(result_tr, expected_result_tr);
}

#[test]
fn cursor_steps_by_one() {
    let mut memory = PagedMemory::<4, 4>::new(0xab);
    assert_eq!(memory.current_transaction_id(), 0);
    memory.add_transaction(0, vec![1, 2], 0).unwrap();
    assert_eq!(memory.current_transaction_id(), 1);
    memory.add_transaction(4, vec![3], 0).unwrap();
    assert_eq!(memory.current_transaction_id(), 2);

    assert!(memory.previous_transaction().is_ok());
    assert_eq!(memory.current_transaction_id(), 1);
    assert!(memory.next_transaction().is_ok());
    assert_eq!(memory.current_transaction_id(), 2);

    // failing steps leave the cursor unchanged
    assert!(memory.next_transaction().is_err());
    assert_eq!(memory.current_transaction_id(), 2);
    assert!(memory.previous_transaction().is_ok());
    assert!(memory.previous_transaction().is_ok());
    assert!(memory.previous_transaction().is_err());
    assert_eq!(memory.current_transaction_id(), 0);
}

#[test]
fn rejected_transactions() {
    let mut memory = PagedMemory::<4, 4>::new(0xab);
    // empty payload
    assert!(memory.add_transaction(0, vec![], 0).is_err());
    // write that reaches the end of the address space (strictly rejected)
    assert!(memory.add_transaction(12, vec![0, 1, 2, 3], 0).is_err());
    // write beyond the end
    assert!(memory.add_transaction(15, vec![0, 1], 0).is_err());
    assert_eq!(memory.current_transaction_id(), 0);
    assert_eq!(memory.read(0, 16), vec![0xab; 16]);

    // a fitting write is accepted
    assert!(memory.add_transaction(12, vec![0, 1, 2], 0).is_ok());
}

#[test]
fn rejected_while_reverted() {
    let mut memory = PagedMemory::<4, 4>::new(0xab);
    memory.add_transaction(0, vec![1], 0).unwrap();
    memory.add_transaction(1, vec![2], 0).unwrap();
    assert!(memory.previous_transaction().is_ok());

    // a redo tail exists: adding is rejected and nothing changes
    assert!(memory.add_transaction(2, vec![3], 0).is_err());
    assert_eq!(memory.current_transaction_id(), 1);
    assert_eq!(memory.read(0, 3), vec![1, 0xab, 0xab]);

    // back at the tip, adding works again
    assert!(memory.next_transaction().is_ok());
    assert!(memory.add_transaction(2, vec![3], 0).is_ok());
    assert_eq!(memory.read(0, 3), vec![1, 2, 3]);
}

#[test]
fn move_to_transaction_steps() {
    let mut memory = PagedMemory::<4, 4>::new(0xab);
    memory.add_transaction(0, vec![1], 0).unwrap();
    memory.add_transaction(1, vec![2], 0).unwrap();
    memory.add_transaction(2, vec![3], 0).unwrap();

    // out of range: the only valid targets are record indices
    assert!(memory.move_to_transaction(TransactionId(3)).is_err());
    assert_eq!(memory.current_transaction_id(), 3);

    assert!(memory.move_to_transaction(TransactionId(0)).is_ok());
    assert_eq!(memory.current_transaction_id(), 0);
    assert_eq!(memory.read(0, 3), vec![0xab, 0xab, 0xab]);

    assert!(memory.move_to_transaction(TransactionId(2)).is_ok());
    assert_eq!(memory.current_transaction_id(), 2);
    assert_eq!(memory.read(0, 3), vec![1, 2, 0xab]);

    assert!(memory.move_to_transaction(TransactionId(2)).is_ok());
    assert_eq!(memory.current_transaction_id(), 2);
}

#[test]
fn undo_redo_round_trip() {
    let mut memory = PagedMemory::<4, 8>::new(0x00);
    memory.add_transaction(3, vec![1, 2, 3, 4, 5, 6], 7).unwrap();
    memory.add_transaction(0, vec![9, 9], 8).unwrap();
    memory.add_transaction(20, vec![7, 7, 7], 9).unwrap();

    let bytes_before = memory.read(0, 32);
    let ids_before = memory.read_transaction_ids(0, 32);

    while memory.previous_transaction().is_ok() {}
    assert_eq!(memory.current_transaction_id(), 0);
    assert_eq!(memory.read(0, 32), vec![0x00; 32]);
    assert_eq!(memory.read_transaction_ids(0, 32), vec![TransactionId(0); 32]);

    while memory.next_transaction().is_ok() {}
    assert_eq!(memory.current_transaction_id(), 3);
    assert_eq!(memory.read(0, 32), bytes_before);
    assert_eq!(memory.read_transaction_ids(0, 32), ids_before);
}

#[test]
fn oracle_equivalence_trace() {
    let mut paged_memory = PagedMemory::<8, 8>::new(0xab);
    let mut naive_memory = NaiveMemory::<8, 8, 64>::new(0xab);

    let writes: Vec<(usize, Vec<u8>)> = vec![
        (0, vec![1, 2, 3]),
        (6, vec![4, 5, 6, 7, 8]),
        (30, vec![9]),
        (55, vec![10, 11, 12, 13, 14, 15, 16, 17]),
        (6, vec![20, 21]),
    ];
    for (addr, data) in writes {
        assert!(paged_memory.add_transaction(addr, data.clone(), 0).is_ok());
        assert!(naive_memory.add_transaction(addr, data, 0).is_ok());
    }

    let reads: Vec<(usize, usize)> = vec![(0, 64), (5, 10), (62, 2), (31, 1), (7, 50)];
    for (addr, size) in reads {
        assert_eq!(
            paged_memory.read(addr, size),
            naive_memory.read(addr, size)
        );
        assert_eq!(
            paged_memory.read_transaction_ids(addr, size),
            naive_memory.read_transaction_ids(addr, size)
        );
    }
}
