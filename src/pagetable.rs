use crate::config::{bits_of, is_pow2_u64, log2, SimulatorConfig};
use vstd::arithmetic::div_mod::{lemma_fundamental_div_mod, lemma_mod_pos_bound};
use vstd::prelude::*;

verus! {

/// A mapping of one virtual page to one physical frame.
#[derive(Clone, Copy, Debug, PartialEq, Eq, Structural)]
pub struct PageTableEntry {
    /// The address of the first byte of the physical frame.
    pub physical_address: u64,
    /// The virtual address whose page the entry maps.
    pub virtual_address: u64,
    /// The time of the last access through the entry.
    pub last_access_time: u64,
    /// The size of a page in bytes.
    pub page_size: u64,
}

impl PageTableEntry {
    /// The physical page number of the entry.
    pub open spec fn ppn(self) -> nat {
        self.physical_address as nat / self.page_size as nat
    }

    pub fn new(
        physical_address: u64,
        virtual_address: u64,
        page_size: u64,
        current_access_time: u64,
    ) -> (r: Self)
        ensures
            r == (PageTableEntry {
                physical_address,
                virtual_address,
                last_access_time: current_access_time,
                page_size,
            }),
    {
        PageTableEntry {
            physical_address,
            virtual_address,
            last_access_time: current_access_time,
            page_size,
        }
    }

    /// The address of the first byte of the physical frame.
    pub fn get_physical_address(&self) -> (r: u64)
        requires
            self.page_size >= 1,
        ensures
            r == self.ppn() * self.page_size,
    {
        proof {
            lemma_fundamental_div_mod(self.physical_address as int, self.page_size as int);
            lemma_mod_pos_bound(self.physical_address as int, self.page_size as int);
            assert(self.ppn() * self.page_size == self.page_size * (self.physical_address as int
                / self.page_size as int)) by (nonlinear_arith);
        }
        self.physical_address - self.physical_address % self.page_size
    }

    pub fn get_virtual_address(&self) -> (r: u64)
        ensures
            r == self.virtual_address,
    {
        self.virtual_address
    }

    pub fn get_virtual_page_number(&self) -> (r: u64)
        requires
            self.page_size >= 1,
        ensures
            r == self.virtual_address / self.page_size,
    {
        self.virtual_address / self.page_size
    }

    pub fn get_physical_page_number(&self) -> (r: u64)
        requires
            self.page_size >= 1,
        ensures
            r == self.ppn(),
    {
        self.physical_address / self.page_size
    }

    /// The number of bits of the offset within a page.
    pub fn get_offset_bits(&self) -> (r: u64)
        ensures
            r <= 64,
            is_pow2_u64(self.page_size) ==> r == log2(self.page_size),
    {
        bits_of(self.page_size)
    }
}

/// The number of present entries.
pub open spec fn some_count(s: Seq<Option<PageTableEntry>>) -> nat
    decreases s.len(),
{
    if s.len() == 0 {
        0
    } else {
        some_count(s.drop_last()) + if s.last() is Some {
            1nat
        } else {
            0nat
        }
    }
}

/// The number of frames in use (with a nonzero access time).
pub open spec fn used_count(s: Seq<u64>) -> nat
    decreases s.len(),
{
    if s.len() == 0 {
        0
    } else {
        used_count(s.drop_last()) + if s.last() != 0 {
            1nat
        } else {
            0nat
        }
    }
}

/// `e` unless it maps frame `p`.
pub open spec fn unmap_one(e: Option<PageTableEntry>, p: nat) -> Option<PageTableEntry> {
    match e {
        Some(x) => if x.ppn() == p {
            None
        } else {
            e
        },
        None => None,
    }
}

/// The entries with every mapping of frame `p` removed.
pub open spec fn unmap_frame(s: Seq<Option<PageTableEntry>>, p: nat) -> Seq<
    Option<PageTableEntry>,
> {
    Seq::new(s.len(), |i: int| unmap_one(s[i], p))
}

/// Frame `p` is the first free frame.
pub open spec fn is_first_free(bk: Seq<u64>, p: int) -> bool {
    &&& 0 <= p < bk.len()
    &&& bk[p] == 0
    &&& forall|q: int| 0 <= q < p ==> bk[q] != 0
}

/// Frame `p` is the first of the least recently used frames.
pub open spec fn is_lru_frame(bk: Seq<u64>, p: int) -> bool {
    &&& 0 <= p < bk.len()
    &&& forall|q: int| 0 <= q < bk.len() ==> bk[p] <= #[trigger] bk[q]
    &&& forall|q: int| 0 <= q < p ==> bk[p] < #[trigger] bk[q]
}

/// Some frame is free.
pub open spec fn has_free(bk: Seq<u64>) -> bool {
    exists|q: int| 0 <= q < bk.len() && bk[q] == 0
}

/// The frame a page fault takes: the first free one, or the least
/// recently used one when none is free.
pub open spec fn is_fault_frame(bk: Seq<u64>, p: int) -> bool {
    if has_free(bk) {
        is_first_free(bk, p)
    } else {
        is_lru_frame(bk, p)
    }
}

/// The access time a frame is stamped with: `time`, or 1 for time 0 so
/// that a used frame is never taken for free.
pub open spec fn stamp(time: u64) -> u64 {
    if time == 0 {
        1
    } else {
        time
    }
}

proof fn lemma_some_count_update(s: Seq<Option<PageTableEntry>>, i: int, x: Option<PageTableEntry>)
    requires
        0 <= i < s.len(),
    ensures
        some_count(s.update(i, x)) + (if s[i] is Some {
            1nat
        } else {
            0nat
        }) == some_count(s) + (if x is Some {
            1nat
        } else {
            0nat
        }),
    decreases s.len(),
{
    let t = s.update(i, x);
    if i == s.len() - 1 {
        assert(t.drop_last() == s.drop_last());
    } else {
        assert(t.drop_last() == s.drop_last().update(i, x));
        lemma_some_count_update(s.drop_last(), i, x);
    }
}

proof fn lemma_used_count_update(s: Seq<u64>, i: int, x: u64)
    requires
        0 <= i < s.len(),
    ensures
        used_count(s.update(i, x)) + (if s[i] != 0 {
            1nat
        } else {
            0nat
        }) == used_count(s) + (if x != 0 {
            1nat
        } else {
            0nat
        }),
    decreases s.len(),
{
    let t = s.update(i, x);
    if i == s.len() - 1 {
        assert(t.drop_last() == s.drop_last());
    } else {
        assert(t.drop_last() == s.drop_last().update(i, x));
        lemma_used_count_update(s.drop_last(), i, x);
    }
}

proof fn lemma_used_count_bound(s: Seq<u64>)
    ensures
        used_count(s) <= s.len(),
        !has_free(s) ==> used_count(s) == s.len(),
    decreases s.len(),
{
    if s.len() > 0 {
        lemma_used_count_bound(s.drop_last());
        if !has_free(s) {
            assert(!has_free(s.drop_last())) by {
                if has_free(s.drop_last()) {
                    let q = choose|q: int| 0 <= q < s.drop_last().len() && s.drop_last()[q] == 0;
                    assert(s[q] == 0);
                }
            }
            assert(s.last() != 0) by {
                assert(s[s.len() - 1] == s.last());
            }
        }
    }
}


proof fn lemma_used_count_free(s: Seq<u64>)
    ensures
        has_free(s) ==> used_count(s) < s.len(),
    decreases s.len(),
{
    if s.len() > 0 && has_free(s) {
        lemma_used_count_bound(s.drop_last());
        let q = choose|q: int| 0 <= q < s.len() && s[q] == 0;
        if q < s.len() - 1 {
            assert(s.drop_last()[q] == 0);
            lemma_used_count_free(s.drop_last());
        } else {
            assert(s.last() == 0);
        }
    }
}

/// The entry a page fault installs for `virtual_address` in frame `p`.
pub open spec fn fault_entry(p: nat, virtual_address: u64, time: u64, page_size: u64) -> PageTableEntry {
    PageTableEntry {
        physical_address: (p * page_size) as u64,
        virtual_address,
        last_access_time: time,
        page_size,
    }
}

/// A virtual-to-physical page map that reclaims the least recently used
/// frame when all are taken.
#[derive(Clone, Debug)]
pub struct PageTable {
    pub virtual_pages: u64,
    pub physical_pages: u64,
    /// The size of a page in bytes.
    pub page_size: u64,
    /// One optional entry per virtual page number.
    pub entries: Vec<Option<PageTableEntry>>,
    /// The number of frames in use.
    pub allocated_physical_pages: u64,
    /// The last access time of each frame; 0 marks a free frame.
    pub physical_page_bookkeeping: Vec<u64>,
}

impl PageTable {
    /// The virtual page number of `address`.
    pub open spec fn vpn(&self, address: u64) -> nat {
        address as nat / self.page_size as nat
    }

    /// Entries and frames agree: each present entry of page `i` maps a
    /// distinct frame in use, page-aligned, with the table's page size; each
    /// frame in use has an entry; the counter counts both.
    pub open spec fn wf(&self) -> bool {
        let e = self.entries@;
        let bk = self.physical_page_bookkeeping@;
        &&& self.page_size >= 1
        &&& self.physical_pages >= 1
        &&& e.len() == self.virtual_pages
        &&& bk.len() == self.physical_pages
        &&& self.physical_pages * self.page_size <= u64::MAX
        &&& self.physical_pages <= usize::MAX
        &&& self.virtual_pages <= usize::MAX
        &&& forall|i: int|
            0 <= i < e.len() && e[i] is Some ==> {
                let x = (#[trigger] e[i])->Some_0;
                &&& x.page_size == self.page_size
                &&& x.physical_address % self.page_size == 0
                &&& x.ppn() < self.physical_pages
                &&& bk[x.ppn() as int] > 0
                &&& x.virtual_address / self.page_size == i
            }
        &&& forall|i: int, j: int|
            0 <= i < e.len() && 0 <= j < e.len() && i != j && e[i] is Some && e[j] is Some
                ==> (#[trigger] e[i])->Some_0.ppn() != (#[trigger] e[j])->Some_0.ppn()
        &&& forall|p: int|
            0 <= p < bk.len() && #[trigger] bk[p] > 0 ==> exists|i: int|
                0 <= i < e.len() && (#[trigger] e[i]) is Some && e[i]->Some_0.ppn() == p
        &&& self.allocated_physical_pages == used_count(bk)
        &&& self.allocated_physical_pages == some_count(e)
    }

    /// An empty table: no page mapped, every frame free.
    pub fn new(virtual_pages: u64, physical_pages: u64, page_size: u64) -> (r: Self)
        requires
            page_size >= 1,
            physical_pages >= 1,
            virtual_pages <= usize::MAX,
            physical_pages <= usize::MAX,
            physical_pages * page_size <= u64::MAX,
        ensures
            r.wf(),
            r.virtual_pages == virtual_pages,
            r.physical_pages == physical_pages,
            r.page_size == page_size,
            forall|i: int| 0 <= i < virtual_pages ==> r.entries@[i] is None,
            forall|p: int| 0 <= p < physical_pages ==> r.physical_page_bookkeeping@[p] == 0,
    {
        let mut entries: Vec<Option<PageTableEntry>> = Vec::new();
        while entries.len() < virtual_pages as usize
            invariant
                entries@.len() <= virtual_pages,
                virtual_pages <= usize::MAX,
                forall|i: int| 0 <= i < entries@.len() ==> entries@[i] is None,
                some_count(entries@) == 0,
            decreases virtual_pages - entries@.len(),
        {
            proof {
                assert(entries@.push(None).drop_last() == entries@);
            }
            entries.push(None);
        }
        let mut bookkeeping: Vec<u64> = Vec::new();
        while bookkeeping.len() < physical_pages as usize
            invariant
                bookkeeping@.len() <= physical_pages,
                physical_pages <= usize::MAX,
                forall|p: int| 0 <= p < bookkeeping@.len() ==> bookkeeping@[p] == 0,
                used_count(bookkeeping@) == 0,
            decreases physical_pages - bookkeeping@.len(),
        {
            proof {
                assert(bookkeeping@.push(0).drop_last() == bookkeeping@);
            }
            bookkeeping.push(0);
        }
        PageTable {
            virtual_pages,
            physical_pages,
            page_size,
            entries,
            allocated_physical_pages: 0,
            physical_page_bookkeeping: bookkeeping,
        }
    }

    /// The table that the configuration describes.
    pub fn new_from_config(config: &SimulatorConfig) -> (r: Self)
        requires
            config.wf(),
            config.page_table.number_of_physical_pages * config.page_table.page_size <= u64::MAX,
        ensures
            r.wf(),
            r.virtual_pages == config.page_table.number_of_virtual_pages,
            r.physical_pages == config.page_table.number_of_physical_pages,
            r.page_size == config.page_table.page_size,
            forall|i: int| 0 <= i < r.virtual_pages ==> r.entries@[i] is None,
            forall|p: int| 0 <= p < r.physical_pages ==> r.physical_page_bookkeeping@[p] == 0,
    {
        proof {
            vstd::arithmetic::power2::lemma_pow2_pos(log2(config.page_table.page_size));
            vstd::arithmetic::power2::lemma_pow2_pos(
                log2(config.page_table.number_of_physical_pages),
            );
        }
        Self::new(
            config.page_table.number_of_virtual_pages,
            config.page_table.number_of_physical_pages,
            config.page_table.page_size,
        )
    }

    /// The number of bits of the offset within a page.
    pub fn get_offset_bits(&self) -> (r: u64)
        ensures
            r <= 64,
            is_pow2_u64(self.page_size) ==> r == log2(self.page_size),
    {
        bits_of(self.page_size)
    }

    /// The number of bits of a virtual page number.
    pub fn get_index_bits(&self) -> (r: u64)
        ensures
            r <= 64,
            is_pow2_u64(self.virtual_pages) ==> r == log2(self.virtual_pages),
    {
        bits_of(self.virtual_pages)
    }

    /// The index of the entry for `virtual_address`: its virtual page number.
    pub fn get_index_from_virtual_address(&self, virtual_address: u64) -> (r: usize)
        requires
            self.page_size >= 1,
        ensures
            r == (self.vpn(virtual_address) as usize),
    {
        (virtual_address / self.page_size) as usize
    }

    /// The offset of `address` within its page.
    pub fn get_offset(&self, address: u64) -> (r: u64)
        requires
            self.page_size >= 1,
        ensures
            r == address % self.page_size,
    {
        address % self.page_size
    }

    pub fn get_physical_page_number(&self, physical_address: u64) -> (r: u64)
        requires
            self.page_size >= 1,
        ensures
            r == physical_address / self.page_size,
    {
        physical_address / self.page_size
    }

    pub fn get_virtual_page_number(&self, virtual_address: u64) -> (r: u64)
        requires
            self.page_size >= 1,
        ensures
            r == self.vpn(virtual_address),
    {
        virtual_address / self.page_size
    }

    /// Read-only view of the entries, by virtual page number.
    pub fn get_entries(&self) -> (r: &Vec<Option<PageTableEntry>>)
        ensures
            r@ == self.entries@,
    {
        &self.entries
    }

    /// Stamps the frame that `physical_address` lies in with
    /// `current_access_time` (1 for time 0).
    pub fn mark_physical_access(&mut self, physical_address: u64, current_access_time: u64)
        requires
            old(self).wf(),
            physical_address / old(self).page_size < old(self).physical_pages,
            old(self).physical_page_bookkeeping@[(physical_address / old(self).page_size) as int] > 0,
        ensures
            final(self).wf(),
            final(self).physical_page_bookkeeping@ == old(self).physical_page_bookkeeping@.update(
                (physical_address / old(self).page_size) as int,
                stamp(current_access_time),
            ),
            final(self).entries@ == old(self).entries@,
            final(self).page_size == old(self).page_size,
            final(self).virtual_pages == old(self).virtual_pages,
            final(self).physical_pages == old(self).physical_pages,
            final(self).allocated_physical_pages == old(self).allocated_physical_pages,
    {
        let p = (physical_address / self.page_size) as usize;
        let value = if current_access_time == 0 {
            1
        } else {
            current_access_time
        };
        self.physical_page_bookkeeping.set(p, value);
        proof {
            lemma_used_count_update(old(self).physical_page_bookkeeping@, p as int, value);
            let e = self.entries@;
            let bk = self.physical_page_bookkeeping@;
            assert forall|q: int| 0 <= q < bk.len() && #[trigger] bk[q] > 0 implies exists|i: int|
                0 <= i < e.len() && (#[trigger] e[i]) is Some && e[i]->Some_0.ppn() == q by {
                assert(old(self).physical_page_bookkeeping@[q] > 0);
            }
        }
    }

    /// Stamps the entry for `virtual_address` and its frame with
    /// `current_access_time`; an unmapped address changes nothing.
    pub fn mark_virtual_access(&mut self, virtual_address: u64, current_access_time: u64)
        requires
            old(self).wf(),
        ensures
            final(self).wf(),
            final(self).page_size == old(self).page_size,
            final(self).virtual_pages == old(self).virtual_pages,
            final(self).physical_pages == old(self).physical_pages,
            old(self).vpn(virtual_address) < old(self).virtual_pages && old(self).entries@[old(
                self,
            ).vpn(virtual_address) as int] is Some ==> {
                let i = old(self).vpn(virtual_address) as int;
                let x = old(self).entries@[i]->Some_0;
                &&& final(self).entries@ == old(self).entries@.update(
                    i,
                    Some(PageTableEntry { last_access_time: current_access_time, ..x }),
                )
                &&& final(self).physical_page_bookkeeping@
                    == old(self).physical_page_bookkeeping@.update(
                    x.ppn() as int,
                    stamp(current_access_time),
                )
            },
            !(old(self).vpn(virtual_address) < old(self).virtual_pages && old(self).entries@[old(
                self,
            ).vpn(virtual_address) as int] is Some) ==> *final(self) == *old(self),
    {
        let index = virtual_address / self.page_size;
        if index >= self.entries.len() as u64 {
            return;
        }
        let i = index as usize;
        match self.entries[i] {
            Some(x) => {
                let mut e = x;
                e.last_access_time = current_access_time;
                self.entries.set(i, Some(e));
                proof {
                    lemma_some_count_update(old(self).entries@, i as int, Some(e));
                    let es = self.entries@;
                    let bk = self.physical_page_bookkeeping@;
                    assert forall|p: int| 0 <= p < bk.len() && #[trigger] bk[p] > 0 implies exists|
                        j: int,
                    | 0 <= j < es.len() && (#[trigger] es[j]) is Some && es[j]->Some_0.ppn() == p by {
                        let j = choose|j: int|
                            0 <= j < old(self).entries@.len() && (#[trigger] old(self).entries@[j]) is Some
                                && old(self).entries@[j]->Some_0.ppn() == p;
                        assert(es[j] is Some && es[j]->Some_0.ppn() == p);
                    }
                }
                proof {
                    lemma_fundamental_div_mod(e.physical_address as int, self.page_size as int);
                }
                let physical_address = e.get_physical_address();
                assert(physical_address / self.page_size == e.ppn()) by {
                    assert(e.ppn() * self.page_size == self.page_size * e.ppn()) by (nonlinear_arith);
                    vstd::arithmetic::div_mod::lemma_div_multiples_vanish(
                        e.ppn() as int,
                        self.page_size as int,
                    );
                }
                self.mark_physical_access(physical_address, current_access_time);
            },
            None => {},
        }
    }

    /// Removes every entry that maps frame `physical_page_number`.
    fn invalidate_page_number(&mut self, physical_page_number: u64)
        requires
            old(self).wf(),
        ensures
            final(self).entries@ == unmap_frame(old(self).entries@, physical_page_number as nat),
            final(self).physical_page_bookkeeping@ == old(self).physical_page_bookkeeping@,
            final(self).page_size == old(self).page_size,
            final(self).virtual_pages == old(self).virtual_pages,
            final(self).physical_pages == old(self).physical_pages,
            final(self).allocated_physical_pages == old(self).allocated_physical_pages,
    {
        let mut i: usize = 0;
        while i < self.entries.len()
            invariant
                old(self).wf(),
                self.entries@.len() == old(self).entries@.len(),
                self.page_size == old(self).page_size,
                self.virtual_pages == old(self).virtual_pages,
                self.physical_pages == old(self).physical_pages,
                self.allocated_physical_pages == old(self).allocated_physical_pages,
                self.physical_page_bookkeeping@ == old(self).physical_page_bookkeeping@,
                i <= self.entries@.len(),
                forall|j: int| 0 <= j < i ==> self.entries@[j] == unmap_one(old(self).entries@[j], physical_page_number as nat),
                forall|j: int| i <= j < self.entries@.len() ==> self.entries@[j] == old(self).entries@[j],
            decreases self.entries@.len() - i,
        {
            if let Some(x) = self.entries[i] {
                if x.get_physical_page_number() == physical_page_number {
                    self.entries.set(i, None);
                }
            }
            i += 1;
        }
        assert(self.entries@ =~= unmap_frame(old(self).entries@, physical_page_number as nat));
    }

    /// Frees the first free frame if there is one, else the least recently
    /// used frame, dropping the entry that maps it; returns the frame.
    fn evict(&mut self) -> (r: usize)
        requires
            old(self).wf(),
        ensures
            final(self).wf(),
            is_fault_frame(old(self).physical_page_bookkeeping@, r as int),
            final(self).physical_page_bookkeeping@ == old(self).physical_page_bookkeeping@.update(r as int, 0),
            final(self).entries@ == unmap_frame(old(self).entries@, r as nat),
            final(self).page_size == old(self).page_size,
            final(self).virtual_pages == old(self).virtual_pages,
            final(self).physical_pages == old(self).physical_pages,
    {
        let ghost bk0 = self.physical_page_bookkeeping@;
        let ghost e0 = self.entries@;
        let n = self.physical_page_bookkeeping.len();
        let mut chosen: usize = 0;
        let mut found = false;
        let mut i: usize = 0;
        while i < n && !found
            invariant
                n == bk0.len(),
                bk0 == self.physical_page_bookkeeping@,
                i <= n,
                !found ==> forall|q: int| 0 <= q < i ==> bk0[q] != 0,
                !found ==> chosen == 0,
                found ==> is_first_free(bk0, chosen as int),
            decreases n - i + (if found { 0int } else { 1int }),
        {
            if self.physical_page_bookkeeping[i] == 0 {
                chosen = i;
                found = true;
            } else {
                i += 1;
            }
        }
        if !found {
            assert(!has_free(bk0));
            let mut i: usize = 1;
            while i < n
                invariant
                    n == bk0.len(),
                    n >= 1,
                    bk0 == self.physical_page_bookkeeping@,
                    1 <= i <= n,
                    chosen < i,
                    forall|q: int| 0 <= q < i ==> bk0[chosen as int] <= #[trigger] bk0[q],
                    forall|q: int| 0 <= q < chosen ==> bk0[chosen as int] < #[trigger] bk0[q],
                decreases n - i,
            {
                if self.physical_page_bookkeeping[i] < self.physical_page_bookkeeping[chosen] {
                    chosen = i;
                }
                i += 1;
            }
        } else {
            assert(has_free(bk0));
        }
        let was_used = self.physical_page_bookkeeping[chosen] != 0;
        self.invalidate_page_number(chosen as u64);
        self.physical_page_bookkeeping.set(chosen, 0);
        proof {
            let p = chosen as int;
            let e1 = self.entries@;
            let bk1 = self.physical_page_bookkeeping@;
            lemma_used_count_update(bk0, p, 0);
            if was_used {
                let o = choose|o: int| 0 <= o < e0.len() && (#[trigger] e0[o]) is Some && e0[o]->Some_0.ppn() == p;
                assert(e1 =~= e0.update(o, None)) by {
                    assert forall|j: int| 0 <= j < e0.len() implies #[trigger] e1[j] == e0.update(o, None)[j] by {
                        if j != o && e0[j] is Some {
                            assert(e0[j]->Some_0.ppn() != e0[o]->Some_0.ppn());
                        }
                    }
                }
                lemma_some_count_update(e0, o, None);
            } else {
                assert(e1 =~= e0) by {
                    assert forall|j: int| 0 <= j < e0.len() implies #[trigger] e1[j] == e0[j] by {
                        if e0[j] is Some {
                            assert(bk0[e0[j]->Some_0.ppn() as int] > 0);
                        }
                    }
                }
            }
            assert forall|q: int| 0 <= q < bk1.len() && #[trigger] bk1[q] > 0 implies exists|i: int|
                0 <= i < e1.len() && (#[trigger] e1[i]) is Some && e1[i]->Some_0.ppn() == q by {
                assert(bk0[q] > 0);
                let o = choose|o: int| 0 <= o < e0.len() && (#[trigger] e0[o]) is Some && e0[o]->Some_0.ppn() == q;
                assert(e1[o] == unmap_one(e0[o], p as nat));
            }
            assert forall|i: int| 0 <= i < e1.len() && e1[i] is Some implies {
                let x = (#[trigger] e1[i])->Some_0;
                &&& x.page_size == self.page_size
                &&& x.physical_address % self.page_size == 0
                &&& x.ppn() < self.physical_pages
                &&& bk1[x.ppn() as int] > 0
                &&& x.virtual_address / self.page_size == i
            } by {
                assert(e1[i] == unmap_one(e0[i], p as nat));
            }
            assert forall|i: int, j: int|
                0 <= i < e1.len() && 0 <= j < e1.len() && i != j && e1[i] is Some && e1[j] is Some
                    implies (#[trigger] e1[i])->Some_0.ppn() != (#[trigger] e1[j])->Some_0.ppn() by {
                assert(e1[i] == unmap_one(e0[i], p as nat));
                assert(e1[j] == unmap_one(e0[j], p as nat));
            }
        }
        if was_used {
            self.allocated_physical_pages = self.allocated_physical_pages - 1;
        }
        chosen
    }

    /// Maps the page of `virtual_address`, which is unmapped, to the frame
    /// a page fault takes, evicting first when every frame is in use.
    fn allocate_physical_page(&mut self, virtual_address: u64, current_access_time: u64) -> (r: usize)
        requires
            old(self).wf(),
            old(self).vpn(virtual_address) < old(self).virtual_pages,
            old(self).entries@[old(self).vpn(virtual_address) as int] is None,
        ensures
            final(self).wf(),
            is_fault_frame(old(self).physical_page_bookkeeping@, r as int),
            final(self).physical_page_bookkeeping@ == old(self).physical_page_bookkeeping@.update(
                r as int,
                stamp(current_access_time),
            ),
            final(self).entries@ == unmap_frame(old(self).entries@, r as nat).update(
                old(self).vpn(virtual_address) as int,
                Some(fault_entry(r as nat, virtual_address, current_access_time, old(self).page_size)),
            ),
            final(self).page_size == old(self).page_size,
            final(self).virtual_pages == old(self).virtual_pages,
            final(self).physical_pages == old(self).physical_pages,
    {
        let ghost bk0 = self.physical_page_bookkeeping@;
        let ghost e0 = self.entries@;
        let index = (virtual_address / self.page_size) as usize;
        proof {
            lemma_used_count_bound(bk0);
            lemma_used_count_free(bk0);
        }
        let ghost mut evicted: int = 0;
        if self.allocated_physical_pages >= self.physical_pages {
            let r = self.evict();
            proof {
                evicted = r as int;
            }
        }
        let ghost bk1 = self.physical_page_bookkeeping@;
        let ghost e1 = self.entries@;
        let n = self.physical_page_bookkeeping.len();
        let mut p: usize = 0;
        while p < n && self.physical_page_bookkeeping[p] != 0
            invariant
                n == bk1.len(),
                bk1 == self.physical_page_bookkeeping@,
                p <= n,
                forall|q: int| 0 <= q < p ==> bk1[q] != 0,
            decreases n - p,
        {
            p += 1;
        }
        proof {
            if old(self).allocated_physical_pages >= old(self).physical_pages {
                assert(!has_free(bk0));
                assert(bk1[evicted] == 0);
                assert(p == evicted) by {
                    if p < evicted {
                        assert(bk0[p as int] != 0);
                    }
                }
            } else {
                assert(has_free(bk0));
                let q = choose|q: int| 0 <= q < bk0.len() && bk0[q] == 0;
                assert(bk1[q] == 0);
                assert(e1 =~= unmap_frame(e0, p as nat)) by {
                    assert forall|j: int| 0 <= j < e0.len() implies #[trigger] e1[j] == unmap_frame(e0, p as nat)[j] by {
                        if e0[j] is Some {
                            assert(bk0[e0[j]->Some_0.ppn() as int] > 0);
                        }
                    }
                }
            }
            assert(p < n);
            assert(is_fault_frame(bk0, p as int));
            lemma_used_count_free(bk1);
            assert((p as int) * (self.page_size as int) < (self.physical_pages as int) * (self.page_size as int)) by (nonlinear_arith)
                requires
                    p < self.physical_pages,
                    self.page_size >= 1,
            ;
        }
        let entry = PageTableEntry::new(p as u64 * self.page_size, virtual_address, self.page_size, current_access_time);
        let value = if current_access_time == 0 {
            1
        } else {
            current_access_time
        };
        self.entries.set(index, Some(entry));
        self.physical_page_bookkeeping.set(p, value);
        proof {
            let e2 = self.entries@;
            let bk2 = self.physical_page_bookkeeping@;
            let v = index as int;
            assert(e1[v] is None);
            lemma_some_count_update(e1, v, Some(entry));
            lemma_used_count_update(bk1, p as int, value);
            assert(entry.ppn() == p) by {
                assert((p as int * self.page_size as int) / self.page_size as int == p as int) by {
                    assert(p as int * self.page_size as int == self.page_size as int * p as int) by (nonlinear_arith);
                    vstd::arithmetic::div_mod::lemma_div_multiples_vanish(p as int, self.page_size as int);
                }
            }
            assert(entry.physical_address % self.page_size == 0) by {
                vstd::arithmetic::div_mod::lemma_mod_multiples_basic(p as int, self.page_size as int);
            }
            assert forall|j: int| 0 <= j < e1.len() && e1[j] is Some implies (#[trigger] e1[j])->Some_0.ppn() != p by {
                assert(bk1[e1[j]->Some_0.ppn() as int] > 0);
            }
            assert forall|q: int| 0 <= q < bk2.len() && #[trigger] bk2[q] > 0 implies exists|i: int|
                0 <= i < e2.len() && (#[trigger] e2[i]) is Some && e2[i]->Some_0.ppn() == q by {
                if q == p {
                    assert(e2[v] is Some && e2[v]->Some_0.ppn() == q);
                } else {
                    assert(bk1[q] > 0);
                    let o = choose|o: int| 0 <= o < e1.len() && (#[trigger] e1[o]) is Some && e1[o]->Some_0.ppn() == q;
                    assert(o != v);
                    assert(e2[o] == e1[o]);
                }
            }
            assert forall|i: int, j: int|
                0 <= i < e2.len() && 0 <= j < e2.len() && i != j && e2[i] is Some && e2[j] is Some
                    implies (#[trigger] e2[i])->Some_0.ppn() != (#[trigger] e2[j])->Some_0.ppn() by {
                if i != v && j != v {
                    assert(e2[i] == e1[i] && e2[j] == e1[j]);
                } else if i == v {
                    assert(e2[j] == e1[j]);
                } else {
                    assert(e2[i] == e1[i]);
                }
            }
            assert forall|i: int| 0 <= i < e2.len() && e2[i] is Some implies {
                let x = (#[trigger] e2[i])->Some_0;
                &&& x.page_size == self.page_size
                &&& x.physical_address % self.page_size == 0
                &&& x.ppn() < self.physical_pages
                &&& bk2[x.ppn() as int] > 0
                &&& x.virtual_address / self.page_size == i
            } by {
                if i != v {
                    assert(e2[i] == e1[i]);
                    assert(e1[i]->Some_0.ppn() != p);
                }
            }
            assert(bk2 == bk0.update(p as int, value));
        }
        self.allocated_physical_pages = self.allocated_physical_pages + 1;
        p
    }

    /// `new` is `old` after translating `virtual_address`, whose page number
    /// is in range, at `time` to `pa`: `hit` says whether the page was
    /// mapped; on a fault the page takes the frame a fault takes, whose
    /// previous mapping is dropped. The entry and its frame are stamped.
    pub open spec fn translated(old: PageTable, new: PageTable, virtual_address: u64, time: u64, pa: u64, hit: bool) -> bool {
        &&& new.page_size == old.page_size
        &&& new.virtual_pages == old.virtual_pages
        &&& new.physical_pages == old.physical_pages
        &&& {
            let v = old.vpn(virtual_address) as int;
            let off = virtual_address % old.page_size;
            &&& hit == old.entries@[v] is Some
            &&& hit ==> {
                let x = old.entries@[v]->Some_0;
                &&& pa == x.ppn() * old.page_size + off
                &&& new.entries@ == old.entries@.update(v, Some(PageTableEntry { last_access_time: time, ..x }))
                &&& new.physical_page_bookkeeping@ == old.physical_page_bookkeeping@.update(x.ppn() as int, stamp(time))
            }
            &&& !hit ==> exists|p: int| {
                &&& #[trigger] is_fault_frame(old.physical_page_bookkeeping@, p)
                &&& pa == p * old.page_size + off
                &&& new.entries@ == unmap_frame(old.entries@, p as nat).update(v, Some(fault_entry(p as nat, virtual_address, time, old.page_size)))
                &&& new.physical_page_bookkeeping@ == old.physical_page_bookkeeping@.update(p, stamp(time))
            }
        }
    }

    /// Translates `virtual_address` at time `current_access_time`: on a
    /// fault the page is first mapped to the frame a fault takes. Returns
    /// the physical address and whether the page was mapped already, or
    /// `None` for a page number beyond the table.
    pub fn translate(&mut self, virtual_address: u64, current_access_time: u64) -> (r: Option<(u64, bool)>)
        requires
            old(self).wf(),
        ensures
            final(self).wf(),
            final(self).page_size == old(self).page_size,
            final(self).virtual_pages == old(self).virtual_pages,
            final(self).physical_pages == old(self).physical_pages,
            old(self).vpn(virtual_address) >= old(self).virtual_pages ==> r is None && *final(self) == *old(self),
            old(self).vpn(virtual_address) < old(self).virtual_pages ==> r is Some && PageTable::translated(
                *old(self),
                *final(self),
                virtual_address,
                current_access_time,
                r->Some_0.0,
                r->Some_0.1,
            ),
    {
        let index = virtual_address / self.page_size;
        if index >= self.entries.len() as u64 {
            return None;
        }
        let i = index as usize;
        let hit = self.entries[i].is_some();
        if !hit {
            self.allocate_physical_page(virtual_address, current_access_time);
        }
        let ghost e1 = self.entries@;
        let ghost bk1 = self.physical_page_bookkeeping@;
        let mut e = self.entries[i].unwrap();
        e.last_access_time = current_access_time;
        self.entries.set(i, Some(e));
        proof {
            lemma_some_count_update(e1, i as int, Some(e));
            let es = self.entries@;
            let bk = self.physical_page_bookkeeping@;
            assert forall|p: int| 0 <= p < bk.len() && #[trigger] bk[p] > 0 implies exists|j: int|
                0 <= j < es.len() && (#[trigger] es[j]) is Some && es[j]->Some_0.ppn() == p by {
                let j = choose|j: int| 0 <= j < e1.len() && (#[trigger] e1[j]) is Some && e1[j]->Some_0.ppn() == p;
                assert(es[j] is Some && es[j]->Some_0.ppn() == p);
            }
            lemma_fundamental_div_mod(e.physical_address as int, self.page_size as int);
            lemma_mod_pos_bound(virtual_address as int, self.page_size as int);
            assert(e.ppn() * self.page_size + virtual_address % self.page_size < self.physical_pages * self.page_size) by (nonlinear_arith)
                requires
                    e.ppn() < self.physical_pages,
                    virtual_address % self.page_size < self.page_size,
            ;
        }
        let physical_address = e.get_physical_address() + virtual_address % self.page_size;
        proof {
            let q = e.ppn() as int;
            let ps = self.page_size as int;
            let off = (virtual_address % self.page_size) as int;
            assert(physical_address as int == q * ps + off);
            assert(physical_address / self.page_size == e.ppn()) by {
                vstd::arithmetic::div_mod::lemma_fundamental_div_mod_converse(physical_address as int, ps, q, off);
            }
        }
        self.mark_physical_access(physical_address, current_access_time);
        proof {
            if !hit {
                let p = choose|p: int| is_fault_frame(old(self).physical_page_bookkeeping@, p) && e1 == unmap_frame(old(self).entries@, p as nat).update(i as int, Some(fault_entry(p as nat, virtual_address, current_access_time, old(self).page_size))) && bk1 == old(self).physical_page_bookkeeping@.update(p, stamp(current_access_time));
                assert(e.ppn() == p) by {
                    assert(p * self.page_size < self.physical_pages * self.page_size) by (nonlinear_arith)
                        requires
                            0 <= p < self.physical_pages,
                            self.page_size >= 1,
                    ;
                    assert((p * self.page_size) / self.page_size as int == p) by {
                        assert(p * self.page_size == self.page_size * p) by (nonlinear_arith);
                        vstd::arithmetic::div_mod::lemma_div_multiples_vanish(p, self.page_size as int);
                    }
                }
                assert(self.entries@ =~= e1);
                assert(self.physical_page_bookkeeping@ =~= bk1);
            }
        }
        Some((physical_address, hit))
    }
}

} // verus!

verus! {

/// A well-formed page table maps at most as many pages as there are frames,
/// and every mapped page names a frame in use that no other page maps.
/// `translate` and `mark_virtual_access` keep the table well formed.
pub proof fn lemma_mapped_pages_within_frames(pt: PageTable)
    requires
        pt.wf(),
    ensures
        some_count(pt.entries@) <= pt.physical_pages,
        forall|i: int|
            0 <= i < pt.entries@.len() && (#[trigger] pt.entries@[i]) is Some ==> {
                let p = pt.entries@[i]->Some_0.ppn();
                &&& p < pt.physical_pages
                &&& pt.physical_page_bookkeeping@[p as int] > 0
            },
        forall|i: int, j: int|
            0 <= i < pt.entries@.len() && 0 <= j < pt.entries@.len() && i != j
                && pt.entries@[i] is Some && pt.entries@[j] is Some
                ==> (#[trigger] pt.entries@[i])->Some_0.ppn() != (#[trigger] pt.entries@[j])->Some_0.ppn(),
{
    lemma_used_count_bound(pt.physical_page_bookkeeping@);
}

} // verus!
