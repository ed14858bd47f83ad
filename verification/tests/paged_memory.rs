use mem_access::{InternalMemoryOps, Memory, PagedMemory, TransactionId};

/// Builds the fixture the page-store tests share: pages 0 and 1 hold the
/// bytes 0..2*PAGE_SIZE, the last quarter of the pages holds the following
/// bytes, the middle stays unallocated, and every written byte carries id 1.
fn setup_test_memory<const NUM_PAGES: usize, const PAGE_SIZE: usize>(
    default_value: u8,
) -> PagedMemory<NUM_PAGES, PAGE_SIZE> {
    let continuously_filled_pages = NUM_PAGES / 2;
    let mut memory = PagedMemory::<NUM_PAGES, PAGE_SIZE>::new(default_value);

    let mut counter: u8 = 0;
    let mut front = Vec::new();
    for _ in 0..continuously_filled_pages * PAGE_SIZE {
        front.push(counter);
        counter += 1;
    }
    memory.write_data(0, &front);
    memory.write_transaction_ids(0, &vec![TransactionId(1); front.len()]);

    let back_start = (continuously_filled_pages * 3 / 2) * PAGE_SIZE;
    let mut back = Vec::new();
    for _ in back_start..NUM_PAGES * PAGE_SIZE {
        back.push(counter);
        counter += 1;
    }
    memory.write_data(back_start, &back);
    memory.write_transaction_ids(back_start, &vec![TransactionId(1); back.len()]);
    memory
}

#[test]
fn empty_table_single_byte() {
    let memory = PagedMemory::<8, 4>::new(0xab);
    let data = memory.read(0x2, 1);
    assert_eq!(data, vec![0xab]);
}

#[test]
fn empty_table_page_border() {
    let memory = PagedMemory::<8, 4>::new(0xab);
    let data = memory.read(0x0, 2);
    assert_eq!(data, vec![0xab, 0xab]);

    let data = memory.read(0x2, 2);
    assert_eq!(data, vec![0xab, 0xab]);
}

#[test]
fn several_pages() {
    let memory = setup_test_memory::<4, 4>(0xab);
    let data = memory.read(0x0, 3);
    assert_eq!(data, vec![0, 1, 2]);

    let data = memory.read(0x1, 3);
    assert_eq!(data, vec![1, 2, 3]);

    let data = memory.read(0x2, 3);
    assert_eq!(data, vec![2, 3, 4]);

    let data = memory.read(0x2, 5);
    assert_eq!(data, vec![2, 3, 4, 5, 6]);

    let data = memory.read(0x4, 5);
    assert_eq!(data, vec![4, 5, 6, 7, 0xab]);

    let data = memory.read(0x7, 6);
    assert_eq!(data, vec![7, 0xab, 0xab, 0xab, 0xab, 8]);
}

#[test]
fn write_in_page() {
    let mut memory = PagedMemory::<4, 4>::new(0xab);
    let data = memory.read(0x0, 3);
    assert_eq!(data, vec![0xab, 0xab, 0xab]);
    memory.write_data(0x0, &vec![0, 1, 2]);

    let data = memory.read(0x0, 3);
    assert_eq!(data, vec![0, 1, 2]);
    let data = memory.read(0x0, 4);
    assert_eq!(data, vec![0, 1, 2, 0xab]);

    memory.write_data(0x1, &vec![0, 1, 2]);

    let data = memory.read(0x0, 4);
    assert_eq!(data, vec![0, 0, 1, 2]);
}

#[test]
fn write_several_pages() {
    let mut memory = PagedMemory::<4, 4>::new(0xab);
    let data = memory.read(0x0, 3);
    assert_eq!(data, vec![0xab, 0xab, 0xab]);
    memory.write_data(0x2, &vec![0, 1, 2]);

    let data = memory.read(0x0, 8);
    assert_eq!(data, vec![0xab, 0xab, 0, 1, 2, 0xab, 0xab, 0xab]);

    memory.write_data(0x3, &vec![0, 1, 2, 3, 4, 5, 6, 7]);

    let data = memory.read(0x0, 12);
    assert_eq!(data, vec![0xab, 0xab, 0, 0, 1, 2, 3, 4, 5, 6, 7, 0xab]);
}

#[test]
fn write_ids_in_page() {
    let mut memory = PagedMemory::<4, 4>::new(0xab);
    let transaction_ids = memory.read_transaction_ids(0x0, 3);
    assert_eq!(
        transaction_ids,
        vec![TransactionId(0), TransactionId(0), TransactionId(0)]
    );

    let expected_ids = vec![TransactionId(0), TransactionId(1), TransactionId(2)];
    memory.write_data(0x0, &vec![0, 1, 2]);
    memory.write_transaction_ids(0x0, &expected_ids);
    let transaction_ids = memory.read_transaction_ids(0x0, 3);
    assert_eq!(transaction_ids, expected_ids);

    let expected_ids = vec![
        TransactionId(0),
        TransactionId(1),
        TransactionId(2),
        TransactionId(0),
    ];
    let transaction_ids = memory.read_transaction_ids(0x0, 4);
    assert_eq!(transaction_ids, expected_ids);

    let expected_ids = vec![TransactionId(0), TransactionId(1), TransactionId(2)];
    memory.write_transaction_ids(0x1, &expected_ids);

    let expected_ids = vec![
        TransactionId(0),
        TransactionId(0),
        TransactionId(1),
        TransactionId(2),
    ];
    let transaction_ids = memory.read_transaction_ids(0x0, 4);
    assert_eq!(transaction_ids, expected_ids);
}

#[test]
fn write_ids_several_pages() {
    let mut memory = PagedMemory::<4, 4>::new(0xab);
    memory.write_data(0x2, &vec![0, 1, 2]);
    memory.write_transaction_ids(0x2, &vec![TransactionId(1); 3]);

    let data = memory.read_transaction_ids(0x0, 8);
    assert_eq!(
        data,
        vec![
            TransactionId(0),
            TransactionId(0),
            TransactionId(1),
            TransactionId(1),
            TransactionId(1),
            TransactionId(0),
            TransactionId(0),
            TransactionId(0)
        ]
    );

    memory.write_data(0x3, &vec![0, 1, 2, 3, 4, 5, 6, 7]);
    memory.write_transaction_ids(0x3, &vec![TransactionId(2); 8]);

    let data = memory.read_transaction_ids(0x0, 12);
    assert_eq!(
        data,
        vec![
            TransactionId(0),
            TransactionId(0),
            TransactionId(1),
            TransactionId(2),
            TransactionId(2),
            TransactionId(2),
            TransactionId(2),
            TransactionId(2),
            TransactionId(2),
            TransactionId(2),
            TransactionId(2),
            TransactionId(0)
        ]
    );
}
