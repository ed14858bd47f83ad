//! The sparse paged engine: a fixed number of page slots, each either empty
//! (reading as the default byte with provenance id `0`) or holding one
//! allocated page. Pages are allocated lazily, on the first write that
//! touches them, and a range operation walks the pages it covers.

use super::{repeat_byte, repeat_id, InternalMemoryOps, Transaction};
use crate::model::{id_values, is_power_of_two, repeated, splice};
use crate::{Memory, TransactionId};
use vstd::prelude::*;
use vstd::slice::{slice_index_get, slice_subrange};

verus! {

/// Page index and in-page offset of the address `a`.
proof fn lemma_addr_split(a: int, ps: int)
    requires
        0 <= a,
        0 < ps,
    ensures
        a == (a / ps) * ps + a % ps,
        0 <= a % ps < ps,
        0 <= a / ps,
{
    vstd::arithmetic::div_mod::lemma_fundamental_div_mod(a, ps);
    vstd::arithmetic::mul::lemma_mul_is_commutative(ps, a / ps);
    vstd::arithmetic::div_mod::lemma_mod_division_less_than_divisor(a, ps);
    vstd::arithmetic::div_mod::lemma_div_pos_is_pos(a, ps);
}

/// The address `page * ps + off` splits back into page `page` and offset
/// `off`.
proof fn lemma_page_offset(page: int, off: int, ps: int)
    requires
        0 <= page,
        0 <= off < ps,
    ensures
        (page * ps + off) / ps == page,
        (page * ps + off) % ps == off,
{
    vstd::arithmetic::div_mod::lemma_fundamental_div_mod_converse(
        page * ps + off,
        ps,
        page,
        off,
    );
}

/// An in-space address names a page slot that exists.
proof fn lemma_page_in_range(a: int, ps: int, np: int)
    requires
        0 <= a < np * ps,
        0 < ps,
    ensures
        0 <= a / ps < np,
{
    vstd::arithmetic::div_mod::lemma_div_pos_is_pos(a, ps);
    vstd::arithmetic::mul::lemma_mul_is_commutative(np, ps);
    vstd::arithmetic::div_mod::lemma_multiply_divide_lt(a, ps, np);
}

/// One allocated page: `SIZE` bytes and a parallel array of provenance tags.
#[derive(Debug, Clone, Eq, PartialEq, Ord, PartialOrd)]
pub struct Page<const SIZE: usize> {
    data: Vec<u8>,
    transaction_ids: Vec<TransactionId>,
}

impl<const SIZE: usize> Page<SIZE> {
    /// Both arrays cover the page exactly.
    pub closed spec fn wf(&self) -> bool {
        &&& self.data@.len() == SIZE
        &&& self.transaction_ids@.len() == SIZE
    }

    /// The bytes of the page.
    pub closed spec fn bytes(&self) -> Seq<u8> {
        self.data@
    }

    /// The provenance tags of the page.
    pub closed spec fn tags(&self) -> Seq<TransactionId> {
        self.transaction_ids@
    }

    /// A fresh page: every byte is the default byte, every tag is id `0`.
    pub fn new(default_value: u8) -> (p: Self)
        ensures
            p.wf(),
            p.bytes() == repeated(default_value, SIZE as nat),
            p.tags() == repeated(TransactionId(0), SIZE as nat),
    {
        Self { data: repeat_byte(default_value, SIZE), transaction_ids: repeat_id(
            TransactionId(0),
            SIZE,
        ) }
    }
}

/// The paged store plus its journal: `NUM_PAGES` lazily allocated pages of
/// `PAGE_SIZE` bytes each, the journal records, and the cursor.
#[derive(Debug, Clone, Eq, PartialEq, Ord, PartialOrd)]
pub struct PagedMemory<const NUM_PAGES: usize, const PAGE_SIZE: usize> {
    default_value: u8,
    memory: Vec<Option<Page<PAGE_SIZE>>>,
    transactions: Vec<Transaction>,
    transaction_idx: usize,
}

impl<const NUM_PAGES: usize, const PAGE_SIZE: usize> PagedMemory<NUM_PAGES, PAGE_SIZE> {
    /// One slot per page, and every allocated page is well-formed.
    pub closed spec fn pages_wf(&self) -> bool {
        &&& self.memory@.len() == NUM_PAGES
        &&& forall|p: int|
            0 <= p < NUM_PAGES ==> match #[trigger] self.memory@[p] {
                Some(page) => page.wf(),
                None => true,
            }
    }

    /// Whether the page slot `p` holds an allocated page.
    pub closed spec fn page_some(&self, p: int) -> bool {
        self.memory@[p] is Some
    }

    /// The byte stored at address `a`: the byte of the covering page, or the
    /// default byte where the covering slot is empty.
    pub closed spec fn byte_at(&self, a: int) -> u8 {
        match self.memory@[a / (PAGE_SIZE as int)] {
            Some(page) => page.data@[a % (PAGE_SIZE as int)],
            None => self.default_value,
        }
    }

    /// The provenance id stored at address `a`; `0` where the covering slot
    /// is empty.
    pub closed spec fn id_at(&self, a: int) -> u32 {
        match self.memory@[a / (PAGE_SIZE as int)] {
            Some(page) => page.transaction_ids@[a % (PAGE_SIZE as int)].0,
            None => 0u32,
        }
    }

    /// A fresh memory: all slots empty, no records, cursor at zero.
    pub fn new(default_value: u8) -> (r: Self)
        requires
            is_power_of_two(NUM_PAGES as nat),
            is_power_of_two(PAGE_SIZE as nat),
            NUM_PAGES * PAGE_SIZE <= usize::MAX,
        ensures
            crate::mem_wf(&r),
            r.journal() == Seq::<Transaction>::empty(),
            r.cursor() == 0,
            r.space() == NUM_PAGES * PAGE_SIZE,
            r.default_byte() == default_value,
            r.mem_bytes() == repeated(default_value, (NUM_PAGES * PAGE_SIZE) as nat),
            r.mem_ids() == repeated(0u32, (NUM_PAGES * PAGE_SIZE) as nat),
    {
        let mut memory: Vec<Option<Page<PAGE_SIZE>>> = Vec::new();
        let mut i: usize = 0;
        while i < NUM_PAGES
            invariant
                i <= NUM_PAGES,
                memory@.len() == i,
                forall|p: int| 0 <= p < i ==> (#[trigger] memory@[p]) is None,
            decreases NUM_PAGES - i,
        {
            memory.push(None);
            i = i + 1;
        }
        let r = PagedMemory { default_value, memory, transactions: Vec::new(), transaction_idx: 0 };
        proof {
            assert forall|a: int| 0 <= a < (NUM_PAGES * PAGE_SIZE) as int implies r.byte_at(a)
                == default_value && r.id_at(a) == 0u32 by {
                lemma_page_in_range(a, PAGE_SIZE as int, NUM_PAGES as int);
            }
            assert(r.mem_bytes() =~= repeated(default_value, (NUM_PAGES * PAGE_SIZE) as nat));
            assert(r.mem_ids() =~= repeated(0u32, (NUM_PAGES * PAGE_SIZE) as nat));
        }
        r
    }

    /// The bytes `[in_page_start_addr, in_page_end_addr]` of page `idx`;
    /// default bytes where the slot is empty.
    fn read_page_data(&self, idx: usize, in_page_start_addr: usize, in_page_end_addr: usize) -> (r:
        Vec<u8>)
        requires
            self.pages_wf(),
            idx < NUM_PAGES,
            in_page_start_addr <= in_page_end_addr < PAGE_SIZE,
        ensures
            r@.len() == in_page_end_addr - in_page_start_addr + 1,
            forall|j: int|
                0 <= j < r@.len() ==> r@[j] == self.byte_at(
                    idx * PAGE_SIZE + in_page_start_addr + j,
                ),
    {
        let len = in_page_end_addr - in_page_start_addr + 1;
        let r = match &self.memory[idx] {
            Some(page) => {
                let mut r: Vec<u8> = Vec::new();
                let mut j: usize = 0;
                while j < len
                    invariant
                        self.pages_wf(),
                        idx < NUM_PAGES,
                        self.memory@[idx as int] == Some(*page),
                        page.wf(),
                        in_page_start_addr + len <= PAGE_SIZE,
                        j <= len,
                        r@.len() == j,
                        forall|i: int|
                            0 <= i < j ==> r@[i] == page.data@[in_page_start_addr + i],
                    decreases len - j,
                {
                    r.push(page.data[in_page_start_addr + j]);
                    j = j + 1;
                }
                r
            },
            None => repeat_byte(self.default_value, len),
        };
        proof {
            assert forall|j: int| 0 <= j < r@.len() implies r@[j] == self.byte_at(
                idx * PAGE_SIZE + in_page_start_addr + j,
            ) by {
                lemma_page_offset(idx as int, in_page_start_addr + j, PAGE_SIZE as int);
            }
        }
        r
    }

    /// The provenance tags `[in_page_start_addr, in_page_end_addr]` of page
    /// `idx`; id `0` where the slot is empty.
    fn read_page_transaction_ids(
        &self,
        idx: usize,
        in_page_start_addr: usize,
        in_page_end_addr: usize,
    ) -> (r: Vec<TransactionId>)
        requires
            self.pages_wf(),
            idx < NUM_PAGES,
            in_page_start_addr <= in_page_end_addr < PAGE_SIZE,
        ensures
            r@.len() == in_page_end_addr - in_page_start_addr + 1,
            forall|j: int|
                0 <= j < r@.len() ==> r@[j].0 == self.id_at(
                    idx * PAGE_SIZE + in_page_start_addr + j,
                ),
    {
        let len = in_page_end_addr - in_page_start_addr + 1;
        let r = match &self.memory[idx] {
            Some(page) => {
                let mut r: Vec<TransactionId> = Vec::new();
                let mut j: usize = 0;
                while j < len
                    invariant
                        self.pages_wf(),
                        idx < NUM_PAGES,
                        self.memory@[idx as int] == Some(*page),
                        page.wf(),
                        in_page_start_addr + len <= PAGE_SIZE,
                        j <= len,
                        r@.len() == j,
                        forall|i: int|
                            0 <= i < j ==> r@[i] == page.transaction_ids@[in_page_start_addr + i],
                    decreases len - j,
                {
                    r.push(page.transaction_ids[in_page_start_addr + j]);
                    j = j + 1;
                }
                r
            },
            None => repeat_id(TransactionId(0), len),
        };
        proof {
            assert forall|j: int| 0 <= j < r@.len() implies r@[j].0 == self.id_at(
                idx * PAGE_SIZE + in_page_start_addr + j,
            ) by {
                lemma_page_offset(idx as int, in_page_start_addr + j, PAGE_SIZE as int);
            }
        }
        r
    }

    /// Write `data` into page `idx` starting at `in_page_start_addr`,
    /// allocating the page if its slot is empty. Bytes outside the window,
    /// all provenance tags, and all other pages are untouched.
    #[verifier::rlimit(50)]
    fn write_page_data(&mut self, idx: usize, in_page_start_addr: usize, data: &[u8])
        requires
            old(self).pages_wf(),
            0 < PAGE_SIZE,
            idx < NUM_PAGES,
            in_page_start_addr + data@.len() <= PAGE_SIZE,
        ensures
            final(self).pages_wf(),
            final(self).default_value == old(self).default_value,
            final(self).transactions == old(self).transactions,
            final(self).transaction_idx == old(self).transaction_idx,
            final(self).page_some(idx as int),
            forall|p: int|
                0 <= p < NUM_PAGES && p != idx ==> final(self).page_some(p) == old(self).page_some(
                    p,
                ),
            forall|j: int|
                0 <= j < data@.len() ==> final(self).byte_at(
                    idx * PAGE_SIZE + in_page_start_addr + j,
                ) == data@[j],
            forall|a: int|
                0 <= a < NUM_PAGES * PAGE_SIZE && !(idx * PAGE_SIZE + in_page_start_addr <= a
                    < idx * PAGE_SIZE + in_page_start_addr + data@.len())
                    ==> final(self).byte_at(a) == old(self).byte_at(a),
            forall|a: int|
                0 <= a < NUM_PAGES * PAGE_SIZE ==> final(self).id_at(a) == old(self).id_at(a),
    {
        let ghost m0 = *old(self);
        let mut slot: Option<Page<PAGE_SIZE>> = None;
        self.memory.set_and_swap(idx, &mut slot);
        let ghost orig_bytes = match &slot {
            Some(page) => page.data@,
            None => repeated(m0.default_value, PAGE_SIZE as nat),
        };
        let ghost orig_tags = match &slot {
            Some(page) => page.transaction_ids@,
            None => repeated(TransactionId(0), PAGE_SIZE as nat),
        };
        let mut page: Page<PAGE_SIZE> = match slot {
            Some(page) => page,
            None => Page::new(self.default_value),
        };
        let mut j: usize = 0;
        while j < data.len()
            invariant
                j <= data@.len(),
                in_page_start_addr + data@.len() <= PAGE_SIZE,
                page.wf(),
                page.data@.len() == PAGE_SIZE,
                page.transaction_ids@ == orig_tags,
                forall|o: int|
                    0 <= o < PAGE_SIZE && !(in_page_start_addr <= o < in_page_start_addr + j)
                        ==> page.data@[o] == orig_bytes[o],
                forall|i: int|
                    0 <= i < j ==> page.data@[in_page_start_addr + i] == data@[i],
            decreases data@.len() - j,
        {
            page.data.set(in_page_start_addr + j, *slice_index_get(data, j));
            j = j + 1;
        }
        self.memory.set(idx, Some(page));
        proof {
            assert forall|a: int|
                0 <= a < NUM_PAGES * PAGE_SIZE && !(idx * PAGE_SIZE + in_page_start_addr <= a
                    < idx * PAGE_SIZE + in_page_start_addr + data@.len()) implies self.byte_at(a)
                == m0.byte_at(a) by {
                lemma_addr_split(a, PAGE_SIZE as int);
                lemma_page_in_range(a, PAGE_SIZE as int, NUM_PAGES as int);
                let p = a / (PAGE_SIZE as int);
                let o = a % (PAGE_SIZE as int);
                if p == idx {
                    lemma_page_offset(idx as int, o, PAGE_SIZE as int);
                    assert(a == idx * PAGE_SIZE + o);
                    assert(!(in_page_start_addr <= o < in_page_start_addr + data@.len()));
                    assert(self.byte_at(a) == orig_bytes[o]);
                    assert(m0.byte_at(a) == orig_bytes[o]);
                } else {
                    assert(self.memory@[p] == m0.memory@[p]);
                }
            }
            assert forall|a: int| 0 <= a < NUM_PAGES * PAGE_SIZE implies self.id_at(a) == m0.id_at(
                a,
            ) by {
                lemma_addr_split(a, PAGE_SIZE as int);
                lemma_page_in_range(a, PAGE_SIZE as int, NUM_PAGES as int);
                if a / (PAGE_SIZE as int) == idx {
                    lemma_page_offset(idx as int, a % (PAGE_SIZE as int), PAGE_SIZE as int);
                }
            }
            assert forall|j2: int| 0 <= j2 < data@.len() implies self.byte_at(
                idx * PAGE_SIZE + in_page_start_addr + j2,
            ) == data@[j2] by {
                lemma_page_offset(idx as int, in_page_start_addr + j2, PAGE_SIZE as int);
            }
        }
    }

    /// Write provenance tags into page `idx` starting at
    /// `in_page_start_addr`. The page must already be allocated — the write
    /// path always writes bytes first. Tags outside the window, all bytes,
    /// and all other pages are untouched.
    #[verifier::rlimit(50)]
    fn write_page_transaction_ids(
        &mut self,
        idx: usize,
        in_page_start_addr: usize,
        transaction_ids: &[TransactionId],
    )
        requires
            old(self).pages_wf(),
            0 < PAGE_SIZE,
            idx < NUM_PAGES,
            in_page_start_addr + transaction_ids@.len() <= PAGE_SIZE,
            old(self).page_some(idx as int),
        ensures
            final(self).pages_wf(),
            final(self).default_value == old(self).default_value,
            final(self).transactions == old(self).transactions,
            final(self).transaction_idx == old(self).transaction_idx,
            forall|p: int|
                0 <= p < NUM_PAGES ==> final(self).page_some(p) == old(self).page_some(p),
            forall|j: int|
                0 <= j < transaction_ids@.len() ==> final(self).id_at(
                    idx * PAGE_SIZE + in_page_start_addr + j,
                ) == transaction_ids@[j].0,
            forall|a: int|
                0 <= a < NUM_PAGES * PAGE_SIZE && !(idx * PAGE_SIZE + in_page_start_addr <= a
                    < idx * PAGE_SIZE + in_page_start_addr + transaction_ids@.len())
                    ==> final(self).id_at(a) == old(self).id_at(a),
            forall|a: int|
                0 <= a < NUM_PAGES * PAGE_SIZE ==> final(self).byte_at(a) == old(self).byte_at(a),
    {
        let ghost m0 = *old(self);
        let mut slot: Option<Page<PAGE_SIZE>> = None;
        self.memory.set_and_swap(idx, &mut slot);
        let ghost orig_bytes = match &slot {
            Some(page) => page.data@,
            None => Seq::<u8>::empty(),
        };
        let ghost orig_tags = match &slot {
            Some(page) => page.transaction_ids@,
            None => Seq::<TransactionId>::empty(),
        };
        let mut page: Page<PAGE_SIZE> = match slot {
            Some(page) => page,
            None => {
                proof {
                    assert(false);
                }
                Page::new(self.default_value)
            },
        };
        let mut j: usize = 0;
        while j < transaction_ids.len()
            invariant
                j <= transaction_ids@.len(),
                in_page_start_addr + transaction_ids@.len() <= PAGE_SIZE,
                page.wf(),
                page.data@ == orig_bytes,
                forall|o: int|
                    0 <= o < PAGE_SIZE && !(in_page_start_addr <= o < in_page_start_addr + j)
                        ==> page.transaction_ids@[o] == orig_tags[o],
                forall|i: int|
                    0 <= i < j ==> page.transaction_ids@[in_page_start_addr + i]
                        == transaction_ids@[i],
            decreases transaction_ids@.len() - j,
        {
            page.transaction_ids.set(in_page_start_addr + j, *slice_index_get(transaction_ids, j));
            j = j + 1;
        }
        self.memory.set(idx, Some(page));
        proof {
            assert forall|a: int|
                0 <= a < NUM_PAGES * PAGE_SIZE && !(idx * PAGE_SIZE + in_page_start_addr <= a
                    < idx * PAGE_SIZE + in_page_start_addr + transaction_ids@.len()) implies self
                .id_at(a) == m0.id_at(a) by {
                lemma_addr_split(a, PAGE_SIZE as int);
                lemma_page_in_range(a, PAGE_SIZE as int, NUM_PAGES as int);
                let p = a / (PAGE_SIZE as int);
                let o = a % (PAGE_SIZE as int);
                if p == idx {
                    lemma_page_offset(idx as int, o, PAGE_SIZE as int);
                    assert(a == idx * PAGE_SIZE + o);
                    assert(!(in_page_start_addr <= o < in_page_start_addr + transaction_ids@.len()));
                    assert(self.id_at(a) == orig_tags[o].0);
                    assert(m0.id_at(a) == orig_tags[o].0);
                } else {
                    assert(self.memory@[p] == m0.memory@[p]);
                }
            }
            assert forall|a: int|
                0 <= a < NUM_PAGES * PAGE_SIZE implies self.byte_at(a) == m0.byte_at(a) by {
                lemma_addr_split(a, PAGE_SIZE as int);
                lemma_page_in_range(a, PAGE_SIZE as int, NUM_PAGES as int);
                if a / (PAGE_SIZE as int) == idx {
                    lemma_page_offset(idx as int, a % (PAGE_SIZE as int), PAGE_SIZE as int);
                }
            }
            assert forall|j2: int| 0 <= j2 < transaction_ids@.len() implies self.id_at(
                idx * PAGE_SIZE + in_page_start_addr + j2,
            ) == transaction_ids@[j2].0 by {
                lemma_page_offset(idx as int, in_page_start_addr + j2, PAGE_SIZE as int);
            }
        }
    }
}

impl<const NUM_PAGES: usize, const PAGE_SIZE: usize> InternalMemoryOps for PagedMemory<
    NUM_PAGES,
    PAGE_SIZE,
> {
    closed spec fn inv(&self) -> bool {
        &&& is_power_of_two(NUM_PAGES as nat)
        &&& is_power_of_two(PAGE_SIZE as nat)
        &&& NUM_PAGES * PAGE_SIZE <= usize::MAX
        &&& self.pages_wf()
    }

    closed spec fn space(&self) -> nat {
        (NUM_PAGES * PAGE_SIZE) as nat
    }

    closed spec fn default_byte(&self) -> u8 {
        self.default_value
    }

    closed spec fn mem_bytes(&self) -> Seq<u8> {
        Seq::new((NUM_PAGES * PAGE_SIZE) as nat, |a: int| self.byte_at(a))
    }

    closed spec fn mem_ids(&self) -> Seq<u32> {
        Seq::new((NUM_PAGES * PAGE_SIZE) as nat, |a: int| self.id_at(a))
    }

    closed spec fn journal(&self) -> Seq<Transaction> {
        self.transactions@
    }

    closed spec fn cursor(&self) -> nat {
        self.transaction_idx as nat
    }

    closed spec fn ids_writable(&self, addr: int, len: int) -> bool {
        forall|p: int|
            addr / (PAGE_SIZE as int) <= p <= (addr + len - 1) / (PAGE_SIZE as int)
                ==> #[trigger] self.page_some(p)
    }

    fn transaction_vec_len(&self) -> usize {
        self.transactions.len()
    }

    fn transaction_vec_push(&mut self, transaction: Transaction) {
        self.transactions.push(transaction);
        proof {
            assert(self.mem_bytes() =~= old(self).mem_bytes());
            assert(self.mem_ids() =~= old(self).mem_ids());
        }
    }

    fn get_transaction(&self, idx: usize) -> &Transaction {
        &self.transactions[idx]
    }

    fn set_transaction_idx(&mut self, idx: usize) {
        self.transaction_idx = idx;
        proof {
            assert(self.mem_bytes() =~= old(self).mem_bytes());
            assert(self.mem_ids() =~= old(self).mem_ids());
        }
    }

    #[verifier::loop_isolation(false)]
    #[verifier::rlimit(50)]
    fn write_data(&mut self, addr: usize, data: &[u8]) {
        let ghost m0 = *old(self);
        let size = data.len();
        let end_addr = addr + size - 1;
        let start_page_addr = addr / PAGE_SIZE;
        let end_page_addr = end_addr / PAGE_SIZE;
        let in_page_start_addr = addr % PAGE_SIZE;
        proof {
            assert(PAGE_SIZE as int >= 1);
            lemma_addr_split(addr as int, PAGE_SIZE as int);
            lemma_addr_split(end_addr as int, PAGE_SIZE as int);
            lemma_page_in_range(end_addr as int, PAGE_SIZE as int, NUM_PAGES as int);
            vstd::arithmetic::div_mod::lemma_div_is_ordered(
                addr as int,
                end_addr as int,
                PAGE_SIZE as int,
            );
        }
        if start_page_addr == end_page_addr {
            self.write_page_data(start_page_addr, in_page_start_addr, data);
            proof {
                assert forall|a: int| addr <= a < addr + size implies #[trigger] self.byte_at(a)
                    == data@[a - addr] by {
                    assert(self.byte_at(
                        start_page_addr * PAGE_SIZE + in_page_start_addr + (a - addr),
                    ) == data@[a - addr]);
                }
            }
        } else {
            let head_len = PAGE_SIZE - in_page_start_addr;
            proof {
                vstd::arithmetic::mul::lemma_mul_is_distributive_add_other_way(
                    PAGE_SIZE as int,
                    start_page_addr as int,
                    1,
                );
                vstd::arithmetic::mul::lemma_mul_inequality(
                    start_page_addr as int + 1,
                    end_page_addr as int,
                    PAGE_SIZE as int,
                );
                assert(end_addr >= end_page_addr * (PAGE_SIZE as int)) by {
                    lemma_addr_split(end_addr as int, PAGE_SIZE as int);
                }
                assert((start_page_addr as int + 1) * (PAGE_SIZE as int) == start_page_addr
                    * (PAGE_SIZE as int) + PAGE_SIZE);
                assert(size > PAGE_SIZE - in_page_start_addr);
            }
            let head = slice_subrange(data, 0, head_len);
            self.write_page_data(start_page_addr, in_page_start_addr, head);
            proof {
                assert forall|a: int| addr <= a < addr + head_len implies #[trigger] self.byte_at(
                    a,
                ) == data@[a - addr] by {
                    assert(head@[a - addr] == data@[a - addr]);
                    assert(self.byte_at(
                        start_page_addr * PAGE_SIZE + in_page_start_addr + (a - addr),
                    ) == head@[a - addr]);
                }
            }
            let mut offset: usize = head_len;
            let mut page_idx: usize = start_page_addr + 1;
            while page_idx < end_page_addr
                invariant
                    self.pages_wf(),
                    self.default_value == m0.default_value,
                    self.transactions == m0.transactions,
                    self.transaction_idx == m0.transaction_idx,
                    start_page_addr < page_idx <= end_page_addr,
                    addr + offset == page_idx * PAGE_SIZE,
                    offset <= size,
                    forall|p: int|
                        start_page_addr <= p < page_idx ==> #[trigger] self.page_some(p),
                    forall|a: int|
                        addr <= a < addr + offset ==> #[trigger] self.byte_at(a) == data@[a - addr],
                    forall|a: int|
                        0 <= a < NUM_PAGES * PAGE_SIZE && !(addr <= a < addr + offset)
                            ==> #[trigger] self.byte_at(a) == m0.byte_at(a),
                    forall|a: int|
                        0 <= a < NUM_PAGES * PAGE_SIZE ==> #[trigger] self.id_at(a) == m0.id_at(a),
                decreases end_page_addr - page_idx,
            {
                proof {
                    vstd::arithmetic::mul::lemma_mul_is_distributive_add_other_way(
                        PAGE_SIZE as int,
                        page_idx as int,
                        1,
                    );
                    vstd::arithmetic::mul::lemma_mul_inequality(
                        page_idx as int + 1,
                        end_page_addr as int,
                        PAGE_SIZE as int,
                    );
                }
                let part = slice_subrange(data, offset, offset + PAGE_SIZE);
                self.write_page_data(page_idx, 0, part);
                proof {
                    assert forall|a: int|
                        addr + offset <= a < addr + offset + PAGE_SIZE implies self.byte_at(a)
                        == data@[a - addr] by {
                        assert(part@[a - addr - offset] == data@[a - addr]);
                        assert(self.byte_at(page_idx * PAGE_SIZE + 0 + (a - addr - offset))
                            == part@[a - addr - offset]);
                    }
                }
                offset = offset + PAGE_SIZE;
                page_idx = page_idx + 1;
            }
            let tail = slice_subrange(data, offset, size);
            self.write_page_data(end_page_addr, 0, tail);
            proof {
                assert forall|a: int| addr + offset <= a < addr + size implies self.byte_at(a)
                    == data@[a - addr] by {
                    assert(tail@[a - addr - offset] == data@[a - addr]);
                    assert(self.byte_at(end_page_addr * PAGE_SIZE + 0 + (a - addr - offset))
                        == tail@[a - addr - offset]);
                }
            }
        }
        proof {
            assert forall|p: int|
                start_page_addr <= p <= end_page_addr implies #[trigger] self.page_some(p) by {}
            assert(self.mem_bytes() =~= splice(m0.mem_bytes(), addr as int, data@));
            assert(self.mem_ids() =~= m0.mem_ids());
        }
    }

    #[verifier::loop_isolation(false)]
    #[verifier::rlimit(50)]
    fn write_transaction_ids(&mut self, addr: usize, transaction_ids: &[TransactionId]) {
        let ghost m0 = *old(self);
        let size = transaction_ids.len();
        let end_addr = addr + size - 1;
        let start_page_addr = addr / PAGE_SIZE;
        let end_page_addr = end_addr / PAGE_SIZE;
        let in_page_start_addr = addr % PAGE_SIZE;
        proof {
            assert(PAGE_SIZE as int >= 1);
            lemma_addr_split(addr as int, PAGE_SIZE as int);
            lemma_addr_split(end_addr as int, PAGE_SIZE as int);
            lemma_page_in_range(end_addr as int, PAGE_SIZE as int, NUM_PAGES as int);
            vstd::arithmetic::div_mod::lemma_div_is_ordered(
                addr as int,
                end_addr as int,
                PAGE_SIZE as int,
            );
        }
        if start_page_addr == end_page_addr {
            self.write_page_transaction_ids(start_page_addr, in_page_start_addr, transaction_ids);
            proof {
                assert forall|a: int| addr <= a < addr + size implies #[trigger] self.id_at(a)
                    == transaction_ids@[a - addr].0 by {
                    assert(self.id_at(
                        start_page_addr * PAGE_SIZE + in_page_start_addr + (a - addr),
                    ) == transaction_ids@[a - addr].0);
                }
            }
        } else {
            let head_len = PAGE_SIZE - in_page_start_addr;
            proof {
                vstd::arithmetic::mul::lemma_mul_is_distributive_add_other_way(
                    PAGE_SIZE as int,
                    start_page_addr as int,
                    1,
                );
                vstd::arithmetic::mul::lemma_mul_inequality(
                    start_page_addr as int + 1,
                    end_page_addr as int,
                    PAGE_SIZE as int,
                );
                assert(end_addr >= end_page_addr * (PAGE_SIZE as int)) by {
                    lemma_addr_split(end_addr as int, PAGE_SIZE as int);
                }
                assert((start_page_addr as int + 1) * (PAGE_SIZE as int) == start_page_addr
                    * (PAGE_SIZE as int) + PAGE_SIZE);
                assert(size > PAGE_SIZE - in_page_start_addr);
            }
            let head = slice_subrange(transaction_ids, 0, head_len);
            self.write_page_transaction_ids(start_page_addr, in_page_start_addr, head);
            proof {
                assert forall|a: int| addr <= a < addr + head_len implies #[trigger] self.id_at(a)
                    == transaction_ids@[a - addr].0 by {
                    assert(head@[a - addr] == transaction_ids@[a - addr]);
                    assert(self.id_at(
                        start_page_addr * PAGE_SIZE + in_page_start_addr + (a - addr),
                    ) == head@[a - addr].0);
                }
            }
            let mut offset: usize = head_len;
            let mut page_idx: usize = start_page_addr + 1;
            while page_idx < end_page_addr
                invariant
                    self.pages_wf(),
                    self.default_value == m0.default_value,
                    self.transactions == m0.transactions,
                    self.transaction_idx == m0.transaction_idx,
                    start_page_addr < page_idx <= end_page_addr,
                    addr + offset == page_idx * PAGE_SIZE,
                    offset <= size,
                    forall|p: int|
                        0 <= p < NUM_PAGES ==> #[trigger] self.page_some(p) == m0.page_some(p),
                    forall|a: int|
                        addr <= a < addr + offset ==> #[trigger] self.id_at(a)
                            == transaction_ids@[a - addr].0,
                    forall|a: int|
                        0 <= a < NUM_PAGES * PAGE_SIZE && !(addr <= a < addr + offset)
                            ==> #[trigger] self.id_at(a) == m0.id_at(a),
                    forall|a: int|
                        0 <= a < NUM_PAGES * PAGE_SIZE ==> #[trigger] self.byte_at(a) == m0.byte_at(
                            a,
                        ),
                decreases end_page_addr - page_idx,
            {
                proof {
                    vstd::arithmetic::mul::lemma_mul_is_distributive_add_other_way(
                        PAGE_SIZE as int,
                        page_idx as int,
                        1,
                    );
                    vstd::arithmetic::mul::lemma_mul_inequality(
                        page_idx as int + 1,
                        end_page_addr as int,
                        PAGE_SIZE as int,
                    );
                    lemma_page_offset(page_idx as int, 0, PAGE_SIZE as int);
                }
                let part = slice_subrange(transaction_ids, offset, offset + PAGE_SIZE);
                self.write_page_transaction_ids(page_idx, 0, part);
                proof {
                    assert forall|a: int|
                        addr + offset <= a < addr + offset + PAGE_SIZE implies self.id_at(a)
                        == transaction_ids@[a - addr].0 by {
                        assert(part@[a - addr - offset] == transaction_ids@[a - addr]);
                        assert(self.id_at(page_idx * PAGE_SIZE + 0 + (a - addr - offset))
                            == part@[a - addr - offset].0);
                    }
                }
                offset = offset + PAGE_SIZE;
                page_idx = page_idx + 1;
            }
            proof {
                lemma_page_offset(end_page_addr as int, 0, PAGE_SIZE as int);
            }
            let tail = slice_subrange(transaction_ids, offset, size);
            self.write_page_transaction_ids(end_page_addr, 0, tail);
            proof {
                assert forall|a: int| addr + offset <= a < addr + size implies self.id_at(a)
                    == transaction_ids@[a - addr].0 by {
                    assert(tail@[a - addr - offset] == transaction_ids@[a - addr]);
                    assert(self.id_at(end_page_addr * PAGE_SIZE + 0 + (a - addr - offset))
                        == tail@[a - addr - offset].0);
                }
            }
        }
        proof {
            assert(self.mem_ids() =~= splice(
                m0.mem_ids(),
                addr as int,
                id_values(transaction_ids@),
            ));
            assert(self.mem_bytes() =~= m0.mem_bytes());
        }
    }

    fn address_space_size(&self) -> usize {
        NUM_PAGES * PAGE_SIZE
    }
}

impl<const NUM_PAGES: usize, const PAGE_SIZE: usize> Memory for PagedMemory<
    NUM_PAGES,
    PAGE_SIZE,
> {
    #[verifier::loop_isolation(false)]
    #[verifier::rlimit(50)]
    fn read(&self, addr: usize, size: usize) -> Vec<u8> {
        let end_addr = addr + size - 1;
        let start_page_addr = addr / PAGE_SIZE;
        let end_page_addr = end_addr / PAGE_SIZE;
        let in_page_start_addr = addr % PAGE_SIZE;
        let in_page_end_addr = end_addr % PAGE_SIZE;
        proof {
            assert(PAGE_SIZE as int >= 1);
            lemma_addr_split(addr as int, PAGE_SIZE as int);
            lemma_addr_split(end_addr as int, PAGE_SIZE as int);
            lemma_page_in_range(end_addr as int, PAGE_SIZE as int, NUM_PAGES as int);
            vstd::arithmetic::div_mod::lemma_div_is_ordered(
                addr as int,
                end_addr as int,
                PAGE_SIZE as int,
            );
        }
        let mut data: Vec<u8>;
        if start_page_addr == end_page_addr {
            data = self.read_page_data(start_page_addr, in_page_start_addr, in_page_end_addr);
        } else {
            proof {
                vstd::arithmetic::mul::lemma_mul_is_distributive_add_other_way(
                    PAGE_SIZE as int,
                    start_page_addr as int,
                    1,
                );
                vstd::arithmetic::mul::lemma_mul_inequality(
                    start_page_addr as int + 1,
                    end_page_addr as int,
                    PAGE_SIZE as int,
                );
                assert(end_addr >= end_page_addr * (PAGE_SIZE as int)) by {
                    lemma_addr_split(end_addr as int, PAGE_SIZE as int);
                }
                assert((start_page_addr as int + 1) * (PAGE_SIZE as int) == start_page_addr
                    * (PAGE_SIZE as int) + PAGE_SIZE);
                assert(size > PAGE_SIZE - in_page_start_addr);
            }
            data = self.read_page_data(start_page_addr, in_page_start_addr, PAGE_SIZE - 1);
            let mut page_idx: usize = start_page_addr + 1;
            while page_idx < end_page_addr
                invariant
                    start_page_addr < page_idx <= end_page_addr,
                    data@.len() == page_idx * PAGE_SIZE - addr,
                    forall|j: int|
                        0 <= j < data@.len() ==> #[trigger] data@[j] == self.byte_at(addr + j),
                decreases end_page_addr - page_idx,
            {
                proof {
                    vstd::arithmetic::mul::lemma_mul_is_distributive_add_other_way(
                        PAGE_SIZE as int,
                        page_idx as int,
                        1,
                    );
                    vstd::arithmetic::mul::lemma_mul_inequality(
                        page_idx as int + 1,
                        end_page_addr as int,
                        PAGE_SIZE as int,
                    );
                }
                let mut part = self.read_page_data(page_idx, 0, PAGE_SIZE - 1);
                data.append(&mut part);
                page_idx = page_idx + 1;
            }
            let mut tail = self.read_page_data(end_page_addr, 0, in_page_end_addr);
            data.append(&mut tail);
        }
        proof {
            assert(data@.len() == size);
            assert forall|j: int| 0 <= j < size implies data@[j] == self.byte_at(addr + j) by {}
            assert(data@ =~= self.mem_bytes().subrange(addr as int, addr + size));
        }
        data
    }

    #[verifier::loop_isolation(false)]
    #[verifier::rlimit(50)]
    fn read_transaction_ids(&self, addr: usize, size: usize) -> Vec<TransactionId> {
        let end_addr = addr + size - 1;
        let start_page_addr = addr / PAGE_SIZE;
        let end_page_addr = end_addr / PAGE_SIZE;
        let in_page_start_addr = addr % PAGE_SIZE;
        let in_page_end_addr = end_addr % PAGE_SIZE;
        proof {
            assert(PAGE_SIZE as int >= 1);
            lemma_addr_split(addr as int, PAGE_SIZE as int);
            lemma_addr_split(end_addr as int, PAGE_SIZE as int);
            lemma_page_in_range(end_addr as int, PAGE_SIZE as int, NUM_PAGES as int);
            vstd::arithmetic::div_mod::lemma_div_is_ordered(
                addr as int,
                end_addr as int,
                PAGE_SIZE as int,
            );
        }
        let mut transaction_ids: Vec<TransactionId>;
        if start_page_addr == end_page_addr {
            transaction_ids = self.read_page_transaction_ids(
                start_page_addr,
                in_page_start_addr,
                in_page_end_addr,
            );
        } else {
            proof {
                vstd::arithmetic::mul::lemma_mul_is_distributive_add_other_way(
                    PAGE_SIZE as int,
                    start_page_addr as int,
                    1,
                );
                vstd::arithmetic::mul::lemma_mul_inequality(
                    start_page_addr as int + 1,
                    end_page_addr as int,
                    PAGE_SIZE as int,
                );
                assert(end_addr >= end_page_addr * (PAGE_SIZE as int)) by {
                    lemma_addr_split(end_addr as int, PAGE_SIZE as int);
                }
                assert((start_page_addr as int + 1) * (PAGE_SIZE as int) == start_page_addr
                    * (PAGE_SIZE as int) + PAGE_SIZE);
                assert(size > PAGE_SIZE - in_page_start_addr);
            }
            transaction_ids = self.read_page_transaction_ids(
                start_page_addr,
                in_page_start_addr,
                PAGE_SIZE - 1,
            );
            let mut page_idx: usize = start_page_addr + 1;
            while page_idx < end_page_addr
                invariant
                    start_page_addr < page_idx <= end_page_addr,
                    transaction_ids@.len() == page_idx * PAGE_SIZE - addr,
                    forall|j: int|
                        0 <= j < transaction_ids@.len() ==> (#[trigger] transaction_ids@[j]).0
                            == self.id_at(addr + j),
                decreases end_page_addr - page_idx,
            {
                proof {
                    vstd::arithmetic::mul::lemma_mul_is_distributive_add_other_way(
                        PAGE_SIZE as int,
                        page_idx as int,
                        1,
                    );
                    vstd::arithmetic::mul::lemma_mul_inequality(
                        page_idx as int + 1,
                        end_page_addr as int,
                        PAGE_SIZE as int,
                    );
                }
                let mut part = self.read_page_transaction_ids(page_idx, 0, PAGE_SIZE - 1);
                transaction_ids.append(&mut part);
                page_idx = page_idx + 1;
            }
            let mut tail = self.read_page_transaction_ids(end_page_addr, 0, in_page_end_addr);
            transaction_ids.append(&mut tail);
        }
        proof {
            assert(transaction_ids@.len() == size);
            assert forall|j: int| 0 <= j < size implies transaction_ids@[j].0 == self.id_at(
                addr + j,
            ) by {}
            assert(id_values(transaction_ids@) =~= self.mem_ids().subrange(
                addr as int,
                addr + size,
            ));
        }
        transaction_ids
    }

    fn current_transaction_id(&self) -> usize {
        self.transaction_idx
    }
}
} // verus!
