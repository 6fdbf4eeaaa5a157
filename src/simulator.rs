use crate::cache::{accessed, invalidated, lemma_accessed_adds_only, Block, Slots, holds_tag, lemma_access_again, lemma_touched_by_later, EvictionPolicy};
use crate::config::{lemma_pow2_log2, log2, SimulatorConfig};
use crate::dc::{holds_address, lemma_address_in_page_block, page_base, page_block_addresses, DataCache};
use crate::l2::L2Cache;
use crate::output::{recorded, AccessOutput, SimulatorOutput};
use crate::pagetable::{is_fault_frame, PageTable};
use crate::tlb::{frame_keys, lemma_frame_keys_complete, looked_up, maps_frame, tlb_key, TLBCache};
use crate::trace::{decode, lemma_decode_index_bound, BlockAddress, Operation, Trace};
use vstd::arithmetic::div_mod::{
    lemma_fundamental_div_mod, lemma_fundamental_div_mod_converse, lemma_mod_pos_bound,
};
use vstd::prelude::*;

verus! {

/// The address a trace operation names is in range for the configuration:
/// with virtual addresses, its page number indexes the page table.
pub open spec fn in_range(config: SimulatorConfig, access: Operation) -> bool {
    config.virtual_addresses_enabled ==> access.spec_address() / config.page_table.page_size
        < config.page_table.number_of_virtual_pages
}

/// Is the address of `access` in range for the configuration?
pub fn is_in_range(config: &SimulatorConfig, access: Operation) -> (r: bool)
    requires
        config.wf(),
    ensures
        r == in_range(*config, access),
{
    proof {
        lemma_pow2_log2(config.page_table.page_size);
    }
    !config.is_virtual_addresses_enabled() || access.address() / config.get_page_size()
        < config.page_table.number_of_virtual_pages
}

/// Runs a trace through the TLB, the page table, the data cache and the
/// second-level cache, one access per tick of its clock.
pub struct Simulator {
    pub l2: Option<L2Cache>,
    pub dc: DataCache,
    pub tlb: Option<TLBCache>,
    pub page_table: Option<PageTable>,
    pub config: SimulatorConfig,
    /// The clock: the time of the next access.
    pub time: u64,
    pub output: SimulatorOutput,
}

impl Simulator {
    /// Each component exists exactly when the configuration enables it, is
    /// well formed, and has the configured geometry.
    pub open spec fn structure_wf(&self) -> bool {
        let c = self.config;
        &&& c.wf()
        &&& c.page_table.number_of_physical_pages * c.page_table.page_size <= u64::MAX
        &&& (self.page_table is Some) == c.virtual_addresses_enabled
        &&& (self.tlb is Some) == c.tlb_enabled
        &&& (self.l2 is Some) == c.l2_cache_enabled
        &&& self.dc.wf()
        &&& self.dc@.len() == c.data_cache.number_of_sets
        &&& self.dc.cache.block_size() == c.data_cache.line_size
        &&& self.dc.is_write_allocate == !c.data_cache.write_through
        &&& self.dc.cache.evict_policy == EvictionPolicy::LRU
        &&& (self.tlb matches Some(t) ==> {
            &&& t.cache.wf()
            &&& t@.len() == c.tlb.number_of_sets
            &&& t.cache.evict_policy == EvictionPolicy::LRU
            &&& t.cache.block_size() == c.page_table.page_size
        })
        &&& (self.l2 matches Some(l) ==> {
            &&& l.wf()
            &&& l@.len() == c.l2_cache.number_of_sets
            &&& l.inner.cache.block_size() == c.l2_cache.line_size
            &&& l.inner.is_write_allocate == !c.l2_cache.write_through
            &&& l.inner.cache.evict_policy == EvictionPolicy::LRU
        })
        &&& (self.page_table matches Some(pt) ==> {
            &&& pt.wf()
            &&& pt.page_size == c.page_table.page_size
            &&& pt.virtual_pages == c.page_table.number_of_virtual_pages
            &&& pt.physical_pages == c.page_table.number_of_physical_pages
        })
    }

    /// No cache block was touched after `time`.
    pub open spec fn touched_by(&self, time: u64) -> bool {
        &&& self.dc.cache.touched_by(time)
        &&& (self.tlb matches Some(t) ==> t.cache.touched_by(time))
        &&& (self.l2 matches Some(l) ==> l.inner.cache.touched_by(time))
    }

    /// The structure is well formed, every block is older than the clock,
    /// and the counters stay within what the clock allows.
    pub open spec fn wf(&self) -> bool {
        &&& self.structure_wf()
        &&& self.time >= 1
        &&& self.touched_by((self.time - 1) as u64)
        &&& self.dc.total_reads + self.dc.total_writes <= 2 * (self.time - 1)
        &&& (self.l2 matches Some(l) ==> l.inner.total_reads + l.inner.total_writes <= self.time - 1)
        &&& self.output.wf()
        &&& self.output.config == self.config
        &&& self.output.count() <= self.time - 1
    }

    /// A simulator with empty caches and page table, its clock at 1.
    pub fn new(config: SimulatorConfig) -> (r: Self)
        requires
            config.wf(),
            config.page_table.number_of_physical_pages * config.page_table.page_size <= u64::MAX,
        ensures
            r.wf(),
            r.config == config,
            r.time == 1,
            r.output.count() == 0,
            r.output.is_fresh(config),
            forall|time: u64| r.touched_by(time),
            forall|i: int| 0 <= i < r.dc@.len() ==> #[trigger] r.dc@[i] == Seq::new(config.data_cache.set_size as nat, |j: int| None::<Block>),
            r.dc.total_reads == 0 && r.dc.total_writes == 0,
            r.dc.total_read_misses == 0 && r.dc.total_write_misses == 0,
            r.tlb matches Some(t) ==> forall|i: int| 0 <= i < t@.len() ==> #[trigger] t@[i] == Seq::new(config.tlb.set_size as nat, |j: int| None::<Block>),
            r.l2 matches Some(l) ==> forall|i: int| 0 <= i < l@.len() ==> #[trigger] l@[i] == Seq::new(config.l2_cache.set_size as nat, |j: int| None::<Block>),
            r.page_table matches Some(pt) ==> {
                &&& forall|i: int| 0 <= i < pt.entries@.len() ==> #[trigger] pt.entries@[i] is None
                &&& forall|p: int| 0 <= p < pt.physical_page_bookkeeping@.len() ==> #[trigger] pt.physical_page_bookkeeping@[p] == 0
            },
    {
        let l2 = if config.is_l2_cache_enabled() {
            Some(L2Cache::new_from_config(&config))
        } else {
            None
        };
        let tlb = if config.is_tlb_enabled() {
            Some(TLBCache::new_from_config(&config))
        } else {
            None
        };
        let page_table = if config.is_virtual_addresses_enabled() {
            Some(PageTable::new_from_config(&config))
        } else {
            None
        };
        Simulator {
            output: SimulatorOutput::empty(config),
            l2,
            dc: DataCache::new_from_config(&config),
            tlb,
            page_table,
            config,
            time: 1,
        }
    }

    pub fn get_l2(&self) -> (r: Option<&L2Cache>)
        ensures
            r is Some == self.l2 is Some,
            r is Some ==> *r->Some_0 == self.l2->Some_0,
    {
        self.l2.as_ref()
    }

    pub fn get_dc(&self) -> (r: &DataCache)
        ensures
            *r == self.dc,
    {
        &self.dc
    }

    pub fn get_tlb(&self) -> (r: Option<&TLBCache>)
        ensures
            r is Some == self.tlb is Some,
            r is Some ==> *r->Some_0 == self.tlb->Some_0,
    {
        self.tlb.as_ref()
    }

    pub fn get_page_table(&self) -> (r: Option<&PageTable>)
        ensures
            r is Some == self.page_table is Some,
            r is Some ==> *r->Some_0 == self.page_table->Some_0,
    {
        self.page_table.as_ref()
    }

    pub fn get_config(&self) -> (r: &SimulatorConfig)
        ensures
            *r == self.config,
    {
        &self.config
    }

    pub fn get_dc_mut(&mut self) -> (r: &mut DataCache)
        ensures
            *r == old(self).dc,
            *final(self) == (Simulator { dc: *final(r), ..*old(self) }),
    {
        &mut self.dc
    }

    pub fn get_l2_mut(&mut self) -> (r: Option<&mut L2Cache>)
        ensures
            r is Some == old(self).l2 is Some,
            r is Some ==> *r->Some_0 == old(self).l2->Some_0 && *final(self) == (Simulator {
                l2: Some(*final(r->Some_0)),
                ..*old(self)
            }),
            r is None ==> *final(self) == *old(self),
    {
        self.l2.as_mut()
    }

    pub fn get_tlb_mut(&mut self) -> (r: Option<&mut TLBCache>)
        ensures
            r is Some == old(self).tlb is Some,
            r is Some ==> *r->Some_0 == old(self).tlb->Some_0 && *final(self) == (Simulator {
                tlb: Some(*final(r->Some_0)),
                ..*old(self)
            }),
            r is None ==> *final(self) == *old(self),
    {
        self.tlb.as_mut()
    }

    pub fn get_page_table_mut(&mut self) -> (r: Option<&mut PageTable>)
        ensures
            r is Some == old(self).page_table is Some,
            r is Some ==> *r->Some_0 == old(self).page_table->Some_0 && *final(self) == (Simulator {
                page_table: Some(*final(r->Some_0)),
                ..*old(self)
            }),
            r is None ==> *final(self) == *old(self),
    {
        self.page_table.as_mut()
    }

    pub fn get_time(&self) -> (r: u64)
        ensures
            r == self.time,
    {
        self.time
    }

    /// Advances the clock by one.
    fn age(&mut self)
        requires
            old(self).time < u64::MAX,
        ensures
            *final(self) == (Simulator { time: (old(self).time + 1) as u64, ..*old(self) }),
    {
        self.time = self.time + 1;
    }

    /// Removes from the TLB, the data cache and the second-level cache
    /// everything that belongs to the frame `physical_address` lies in: the
    /// TLB lines of the pages the page table maps to it, and the cache
    /// blocks of its bytes.
    pub fn propagate_page_fault(&mut self, physical_address: u64)
        requires
            old(self).structure_wf(),
            old(self).config.virtual_addresses_enabled,
            physical_address / old(self).config.page_table.page_size
                < old(self).config.page_table.number_of_physical_pages,
        ensures
            final(self).structure_wf(),
            forall|t: u64| #[trigger] old(self).touched_by(t) ==> final(self).touched_by(t),
            final(self).config == old(self).config,
            final(self).time == old(self).time,
            final(self).output == old(self).output,
            final(self).page_table == old(self).page_table,
            old(self).tlb is None ==> final(self).tlb == old(self).tlb,
            old(self).tlb is Some ==> exists|removed: Seq<Block>| #[trigger] invalidated(
                old(self).tlb->Some_0@,
                final(self).tlb->Some_0@,
                frame_keys(
                    old(self).page_table->Some_0.entries@,
                    old(self).page_table->Some_0.entries@.len() as int,
                    physical_address as nat / old(self).config.page_table.page_size as nat,
                    old(self).config,
                ),
                removed,
            ),
            final(self).dc.total_reads == old(self).dc.total_reads,
            final(self).dc.total_writes == old(self).dc.total_writes,
            final(self).l2 is Some ==> final(self).l2->Some_0.inner.total_reads == old(self).l2->Some_0.inner.total_reads
                && final(self).l2->Some_0.inner.total_writes == old(self).l2->Some_0.inner.total_writes,
            ({
                let c = final(self).config;
                let base = page_base(physical_address, c.page_table.page_size);
                let dc_blocks = page_block_addresses(
                    base,
                    (c.page_table.page_size / c.data_cache.line_size) as nat,
                    c.data_cache.line_size as nat,
                    log2(c.data_cache.number_of_sets) as u64,
                    log2(c.data_cache.line_size) as u64,
                );
                forall|k: int| 0 <= k < dc_blocks.len() ==> !holds_tag(
                    final(self).dc@[(#[trigger] dc_blocks[k]).index as int],
                    dc_blocks[k].tag,
                )
            }),
            final(self).l2 matches Some(l) ==> ({
                let c = final(self).config;
                let base = page_base(physical_address, c.page_table.page_size);
                let l2_blocks = page_block_addresses(
                    base,
                    (c.page_table.page_size / c.l2_cache.line_size) as nat,
                    c.l2_cache.line_size as nat,
                    log2(c.l2_cache.number_of_sets) as u64,
                    log2(c.l2_cache.line_size) as u64,
                );
                forall|k: int| 0 <= k < l2_blocks.len() ==> !holds_tag(
                    l@[(#[trigger] l2_blocks[k]).index as int],
                    l2_blocks[k].tag,
                )
            }),
            ({
                let c = final(self).config;
                let base = page_base(physical_address, c.page_table.page_size);
                forall|a: u64|
                    base <= a < base + c.page_table.page_size ==> !#[trigger] holds_address(
                        final(self).dc@,
                        a,
                        log2(c.data_cache.number_of_sets) as u64,
                        log2(c.data_cache.line_size) as u64,
                    )
            }),
            final(self).l2 matches Some(l) ==> ({
                let c = final(self).config;
                let base = page_base(physical_address, c.page_table.page_size);
                forall|a: u64|
                    base <= a < base + c.page_table.page_size ==> !#[trigger] holds_address(
                        l@,
                        a,
                        log2(c.l2_cache.number_of_sets) as u64,
                        log2(c.l2_cache.line_size) as u64,
                    )
            }),
            (final(self).tlb is Some && final(self).page_table is Some) ==> ({
                let t = final(self).tlb->Some_0;
                let pt = final(self).page_table->Some_0;
                let p = physical_address as nat / final(self).config.page_table.page_size as nat;
                forall|i: int| #[trigger] maps_frame(pt.entries@, i, p) ==> !holds_tag(
                    t@[tlb_key(pt.entries@[i]->Some_0.virtual_address, final(self).config).index as int],
                    tlb_key(pt.entries@[i]->Some_0.virtual_address, final(self).config).tag,
                )
            }),
    {
        proof {
            lemma_pow2_log2(self.config.page_table.page_size);
            let ps = self.config.page_table.page_size as int;
            let q = physical_address as int / ps;
            assert(q * ps + ps <= self.config.page_table.number_of_physical_pages as int * ps) by (nonlinear_arith)
                requires
                    q < self.config.page_table.number_of_physical_pages,
                    ps >= 1,
            ;
        }
        let ghost frame = physical_address as nat / self.config.page_table.page_size as nat;
        match &mut self.tlb {
            Some(tlb) => match &mut self.page_table {
                Some(pt) => {
                    let ghost entries = pt.entries@;
                    let ghost before = tlb@;
                    let removed = tlb.invalidate_page(physical_address, pt, &self.config);
                    proof {
                        let keys = crate::tlb::frame_keys(entries, entries.len() as int, frame, self.config);
                        assert forall|i: int| #[trigger] maps_frame(entries, i, frame) implies !holds_tag(
                            tlb@[tlb_key(entries[i]->Some_0.virtual_address, self.config).index as int],
                            tlb_key(entries[i]->Some_0.virtual_address, self.config).tag,
                        ) by {
                            lemma_frame_keys_complete(entries, entries.len() as int, frame, self.config, i);
                            let m = choose|m: int| 0 <= m < keys.len() && keys[m] == tlb_key(entries[i]->Some_0.virtual_address, self.config);
                            assert(!holds_tag(tlb@[keys[m].index as int], keys[m].tag));
                        }
                    }
                },
                None => {},
            },
            None => {},
        }
        self.dc.invalidate_page(physical_address, &self.config);
        match &mut self.l2 {
            Some(l2) => {
                l2.invalidate_page(physical_address, &self.config);
            },
            None => {},
        }
        proof {
            let c = self.config;
            let ps = c.page_table.page_size;
            let base = page_base(physical_address, ps);
            lemma_pow2_log2(c.data_cache.line_size);
            lemma_pow2_log2(c.l2_cache.line_size);
            vstd::arithmetic::div_mod::lemma_mod_multiples_basic(physical_address as int / ps as int, ps as int);
            assert forall|a: u64| base <= a < base + ps implies !#[trigger] holds_address(
                self.dc@,
                a,
                log2(c.data_cache.number_of_sets) as u64,
                log2(c.data_cache.line_size) as u64,
            ) by {
                lemma_address_in_page_block(
                    a,
                    base,
                    ps,
                    c.data_cache.line_size,
                    log2(c.data_cache.number_of_sets) as u64,
                    log2(c.data_cache.line_size) as u64,
                );
            }
            if self.l2 is Some {
                let l = self.l2->Some_0;
                assert forall|a: u64| base <= a < base + ps implies !#[trigger] holds_address(
                    l@,
                    a,
                    log2(c.l2_cache.number_of_sets) as u64,
                    log2(c.l2_cache.line_size) as u64,
                ) by {
                    lemma_address_in_page_block(
                        a,
                        base,
                        ps,
                        c.l2_cache.line_size,
                        log2(c.l2_cache.number_of_sets) as u64,
                        log2(c.l2_cache.line_size) as u64,
                    );
                }
            }
        }
    }
    /// Translates `virtual_address` at the current time: through the TLB
    /// and the page table with virtual addresses, unchanged otherwise.
    /// Returns the physical address, whether the TLB hit (only when the
    /// page was mapped too), whether the page was mapped, and the TLB key.
    fn translate_access(&mut self, virtual_address: u64) -> (r: (u64, bool, bool, Option<BlockAddress>))
        requires
            old(self).structure_wf(),
            old(self).touched_by(old(self).time),
            in_range(old(self).config, Operation::Read(virtual_address)),
        ensures
            final(self).structure_wf(),
            final(self).touched_by(old(self).time),
            final(self).dc == old(self).dc,
            final(self).l2 == old(self).l2,
            final(self).output == old(self).output,
            final(self).time == old(self).time,
            final(self).config == old(self).config,
            !old(self).config.virtual_addresses_enabled ==> final(self).page_table == old(self).page_table
                && final(self).tlb == old(self).tlb,
            old(self).config.virtual_addresses_enabled ==> PageTable::translated(
                old(self).page_table->Some_0,
                final(self).page_table->Some_0,
                virtual_address,
                old(self).time,
                r.0,
                r.2,
            ),
            old(self).config.virtual_addresses_enabled && !old(self).config.tlb_enabled ==> final(self).tlb
                == old(self).tlb,
            old(self).config.virtual_addresses_enabled && old(self).config.tlb_enabled ==> looked_up(
                old(self).tlb->Some_0@,
                final(self).tlb->Some_0@,
                tlb_key(virtual_address, old(self).config),
                old(self).config.page_table.page_size,
                old(self).time,
            ),
            ({
                let c = old(self).config;
                let ps = c.page_table.page_size;
                let (pa, tlb_hit, pt_hit, tlb_address) = r;
                let key = tlb_key(virtual_address, c);
                &&& !c.virtual_addresses_enabled ==> pa == virtual_address && !pt_hit && !tlb_hit && tlb_address is None
                &&& c.virtual_addresses_enabled ==> {
                    let pt = old(self).page_table->Some_0;
                    let v = virtual_address / ps;
                    &&& pt_hit == pt.entries@[v as int] is Some
                    &&& pt_hit ==> pa == pt.entries@[v as int]->Some_0.ppn() * ps + virtual_address % ps
                    &&& !pt_hit ==> exists|p: int| #[trigger] is_fault_frame(pt.physical_page_bookkeeping@, p)
                        && pa == p * ps + virtual_address % ps
                    &&& pa / ps < c.page_table.number_of_physical_pages
                    &&& tlb_address == if c.tlb_enabled { Some(key) } else { None }
                    &&& tlb_hit == (c.tlb_enabled && holds_tag(old(self).tlb->Some_0@[key.index as int], key.tag) && pt_hit)
                }
            }),
    {
        let time = self.time;
        let page_size = self.config.get_page_size();
        proof {
            lemma_pow2_log2(page_size);
            lemma_pow2_log2(self.config.tlb.number_of_sets);
        }
        let mut is_tlb_hit = false;
        let mut tlb_address: Option<BlockAddress> = None;
        let mut is_page_table_hit = false;
        let mut physical_address = virtual_address;
        if self.config.is_virtual_addresses_enabled() {
            if self.config.is_tlb_enabled() {
                let addr = BlockAddress::new_tlb_address(virtual_address, &self.config);
                tlb_address = Some(addr);
                proof {
                    lemma_decode_index_bound((virtual_address / page_size) as u64, log2(self.config.tlb.number_of_sets) as u64, 0);
                }
                match &mut self.tlb {
                    Some(tlb) => {
                        is_tlb_hit = tlb.translate(addr, time);
                    },
                    None => {},
                }
            }
            match &mut self.page_table {
                Some(pt) => {
                    match pt.translate(virtual_address, time) {
                        Some((pa, hit)) => {
                            physical_address = pa;
                            is_page_table_hit = hit;
                        },
                        None => {},
                    }
                },
                None => {},
            }
            is_tlb_hit = is_tlb_hit && is_page_table_hit;
            proof {
                let pt0 = old(self).page_table->Some_0;
                let v = virtual_address / page_size;
                let off = (virtual_address % page_size) as int;
                lemma_mod_pos_bound(virtual_address as int, page_size as int);
                let q: int = if is_page_table_hit {
                    pt0.entries@[v as int]->Some_0.ppn() as int
                } else {
                    choose|p: int| #[trigger] is_fault_frame(pt0.physical_page_bookkeeping@, p)
                        && physical_address == p * page_size + off
                };
                assert(0 <= q < pt0.physical_pages);
                lemma_fundamental_div_mod_converse(physical_address as int, page_size as int, q, off);
            }
        }
        (physical_address, is_tlb_hit, is_page_table_hit, tlb_address)
    }

    /// Accesses the data cache, then the second-level cache when the data
    /// cache missed or the access is a write. With both caches write-back,
    /// the data cache is accessed once more after the second level. Returns
    /// both decodings and both results.
    fn access_caches(&mut self, is_read: bool, physical_address: u64) -> (r: (BlockAddress, bool, Option<BlockAddress>, Option<bool>))
        requires
            old(self).structure_wf(),
            old(self).touched_by(old(self).time),
            old(self).dc.total_reads + old(self).dc.total_writes + 2 < u64::MAX,
            old(self).l2 matches Some(l) ==> l.inner.total_reads + l.inner.total_writes + 1 < u64::MAX,
        ensures
            final(self).structure_wf(),
            final(self).touched_by(old(self).time),
            final(self).tlb == old(self).tlb,
            final(self).page_table == old(self).page_table,
            final(self).output == old(self).output,
            final(self).time == old(self).time,
            final(self).config == old(self).config,
            final(self).dc.total_reads + final(self).dc.total_writes <= old(self).dc.total_reads + old(self).dc.total_writes + 2,
            final(self).l2 matches Some(l) ==> l.inner.total_reads + l.inner.total_writes <= old(self).l2->Some_0.inner.total_reads + old(self).l2->Some_0.inner.total_writes + 1,
            ({
                let c = old(self).config;
                let (dc_address, dc_hit, l2_address, l2_hit) = r;
                &&& dc_address == decode(physical_address, log2(c.data_cache.number_of_sets) as u64, log2(c.data_cache.line_size) as u64)
                &&& dc_hit == holds_tag(old(self).dc@[dc_address.index as int], dc_address.tag)
                &&& l2_address == if c.l2_cache_enabled {
                    Some(decode(physical_address, log2(c.l2_cache.number_of_sets) as u64, log2(c.l2_cache.line_size) as u64))
                } else {
                    None
                }
                &&& (l2_hit is Some) == (c.l2_cache_enabled && (!dc_hit || !is_read))
                &&& l2_hit matches Some(h) ==> h == holds_tag(old(self).l2->Some_0@[l2_address->Some_0.index as int], l2_address->Some_0.tag)
                &&& final(self).dc@ == old(self).dc@.update(dc_address.index as int, final(self).dc@[dc_address.index as int])
                &&& accessed(
                    old(self).dc@[dc_address.index as int],
                    final(self).dc@[dc_address.index as int],
                    EvictionPolicy::LRU,
                    dc_address,
                    c.data_cache.line_size,
                    old(self).time,
                    !is_read,
                    is_read || !c.data_cache.write_through,
                )
                &&& l2_hit is None ==> final(self).l2 == old(self).l2
                &&& l2_hit is Some ==> {
                    let before = old(self).l2->Some_0@;
                    let after = final(self).l2->Some_0@;
                    let a = l2_address->Some_0;
                    &&& after == before.update(a.index as int, after[a.index as int])
                    &&& accessed(
                        before[a.index as int],
                        after[a.index as int],
                        EvictionPolicy::LRU,
                        a,
                        c.l2_cache.line_size,
                        old(self).time,
                        !is_read,
                        is_read || !c.l2_cache.write_through,
                    )
                }
            }),
    {
        let time = self.time;
        proof {
            lemma_pow2_log2(self.config.data_cache.number_of_sets);
            lemma_pow2_log2(self.config.l2_cache.number_of_sets);
        }
        let dc_address = BlockAddress::new_data_cache_address(physical_address, &self.config);
        proof {
            lemma_decode_index_bound(physical_address, log2(self.config.data_cache.number_of_sets) as u64, log2(self.config.data_cache.line_size) as u64);
        }
        let refresh = self.config.data_cache.is_write_back() && self.config.l2_cache.is_write_back();
        let dc_hit = self.dc.access(is_read, dc_address, time);
        proof {
            if refresh {
                let i = dc_address.index as int;
                assert(i < old(self).dc@.len());
                assert(self.dc@.len() == old(self).dc@.len());
                assert(self.dc@.len() == self.dc.cache.sets@.len());
                assert(self.dc.cache.wf());
                assert(self.dc.cache.sets@[i].wf(i as u64));
                assert(self.dc@[i] == self.dc.cache.sets@[i].blocks@);
                lemma_access_again(
                    old(self).dc@[i],
                    self.dc@[i],
                    EvictionPolicy::LRU,
                    dc_address,
                    self.config.data_cache.line_size,
                    time,
                    !is_read,
                    true,
                );
            }
        }
        let mut l2_address: Option<BlockAddress> = None;
        let mut l2_hit: Option<bool> = None;
        match &mut self.l2 {
            Some(l2) => {
                let addr = BlockAddress::new_l2_cache_address(physical_address, &self.config);
                proof {
                    lemma_decode_index_bound(physical_address, log2(self.config.l2_cache.number_of_sets) as u64, log2(self.config.l2_cache.line_size) as u64);
                }
                l2_address = Some(addr);
                if !dc_hit || !is_read {
                    let result = l2.access(is_read, addr, time);
                    l2_hit = Some(result);
                    if refresh {
                        let ghost first = self.dc@;
                        self.dc.access(is_read, dc_address, time);
                        proof {
                            let i = dc_address.index as int;
                            assert(self.dc@ =~= first);
                        }
                    }
                }
            },
            None => {},
        }
        (dc_address, dc_hit, l2_address, l2_hit)
    }

    /// `new` is `old` after performing `access`, which produced record `r`:
    /// the clock advanced by one, the record was counted, and each level
    /// answered and changed as its own contract says.
    pub open spec fn stepped(old: Simulator, new: Simulator, access: Operation, r: AccessOutput) -> bool {
        &&& new.time == old.time + 1
        &&& new.config == old.config
        &&& recorded(old.output, new.output, r)
        &&& {
            let c = old.config;
            let va = access.spec_address();
            let ps = c.page_table.page_size;
            let vm = c.virtual_addresses_enabled;
            let pa = r.physical_address;
            let pt_hit = r.page_table_hit == Some(true);
            let key = tlb_key(va, c);
            let fault = vm && !pt_hit;
            &&& r.access == access
            &&& r.virtual_address == if vm { Some(va) } else { None }
            &&& r.virtual_page_number == if vm { Some((va / ps) as u64) } else { None }
            &&& !vm ==> pa == va && r.page_table_hit is None
            &&& vm ==> {
                let pt = old.page_table->Some_0;
                let v = va / ps;
                &&& r.page_table_hit == Some(pt.entries@[v as int] is Some)
                &&& pt_hit ==> pa == pt.entries@[v as int]->Some_0.ppn() * ps + va % ps
                &&& !pt_hit ==> exists|p: int| #[trigger] is_fault_frame(pt.physical_page_bookkeeping@, p)
                    && pa == p * ps + va % ps
            }
            &&& r.tlb_address == if vm && c.tlb_enabled { Some(key) } else { None }
            &&& r.tlb_hit == if vm && c.tlb_enabled {
                Some(holds_tag(old.tlb->Some_0@[key.index as int], key.tag) && pt_hit)
            } else {
                None
            }
            &&& r.physical_page_number == pa / ps
            &&& r.page_offset == pa % ps
            &&& r.dc_address == decode(pa, log2(c.data_cache.number_of_sets) as u64, log2(c.data_cache.line_size) as u64)
            &&& !fault ==> r.dc_hit == holds_tag(old.dc@[r.dc_address.index as int], r.dc_address.tag)
            &&& fault ==> !r.dc_hit && r.l2_hit != Some(true)
            &&& !fault && r.l2_hit is Some ==> r.l2_hit == Some(
                holds_tag(old.l2->Some_0@[r.l2_address->Some_0.index as int], r.l2_address->Some_0.tag),
            )
            &&& !fault ==> new.dc@ == old.dc@.update(
                r.dc_address.index as int,
                new.dc@[r.dc_address.index as int],
            ) && accessed(
                old.dc@[r.dc_address.index as int],
                new.dc@[r.dc_address.index as int],
                EvictionPolicy::LRU,
                r.dc_address,
                c.data_cache.line_size,
                old.time,
                !access.spec_is_read(),
                access.spec_is_read() || !c.data_cache.write_through,
            )
            &&& !fault && r.l2_hit is None ==> new.l2 == old.l2
            &&& !fault && r.l2_hit is Some ==> {
                let before = old.l2->Some_0@;
                let after = new.l2->Some_0@;
                let a = r.l2_address->Some_0;
                &&& after == before.update(a.index as int, after[a.index as int])
                &&& accessed(
                    before[a.index as int],
                    after[a.index as int],
                    EvictionPolicy::LRU,
                    a,
                    c.l2_cache.line_size,
                    old.time,
                    !access.spec_is_read(),
                    access.spec_is_read() || !c.l2_cache.write_through,
                )
            }
            &&& r.l2_address == if c.l2_cache_enabled {
                Some(decode(pa, log2(c.l2_cache.number_of_sets) as u64, log2(c.l2_cache.line_size) as u64))
            } else {
                None
            }
            &&& (r.l2_hit is Some) == (c.l2_cache_enabled && (!r.dc_hit || !access.spec_is_read()))
            &&& !vm ==> new.page_table == old.page_table && new.tlb == old.tlb
            &&& vm ==> PageTable::translated(
                old.page_table->Some_0,
                new.page_table->Some_0,
                va,
                old.time,
                pa,
                pt_hit,
            )
            &&& vm && !c.tlb_enabled ==> new.tlb == old.tlb
            &&& vm && c.tlb_enabled ==> exists|mid: Seq<Slots>| {
                &&& #[trigger] looked_up(old.tlb->Some_0@, mid, key, ps, old.time)
                &&& !fault ==> new.tlb->Some_0@ == mid
                &&& fault ==> exists|removed: Seq<Block>| #[trigger] invalidated(
                    mid,
                    new.tlb->Some_0@,
                    frame_keys(
                        new.page_table->Some_0.entries@,
                        new.page_table->Some_0.entries@.len() as int,
                        pa as nat / ps as nat,
                        c,
                    ),
                    removed,
                )
            }
            &&& fault ==> {
                let base = page_base(pa, ps);
                let dib = log2(c.data_cache.number_of_sets) as u64;
                let dob = log2(c.data_cache.line_size) as u64;
                let lib = log2(c.l2_cache.number_of_sets) as u64;
                let lob = log2(c.l2_cache.line_size) as u64;
                &&& forall|a: u64|
                    base <= a < base + ps && #[trigger] holds_address(new.dc@, a, dib, dob) ==> decode(a, dib, dob).tag
                        == r.dc_address.tag && decode(a, dib, dob).index == r.dc_address.index
                &&& new.l2 is Some ==> forall|a: u64|
                    base <= a < base + ps && #[trigger] holds_address(new.l2->Some_0@, a, lib, lob) ==> r.l2_address is Some
                        && decode(a, lib, lob).tag == r.l2_address->Some_0.tag
                        && decode(a, lib, lob).index == r.l2_address->Some_0.index
                &&& new.tlb is Some ==> forall|i: int|
                    #[trigger] maps_frame(new.page_table->Some_0.entries@, i, pa as nat / ps as nat) ==> !holds_tag(
                        new.tlb->Some_0@[tlb_key(new.page_table->Some_0.entries@[i]->Some_0.virtual_address, c).index as int],
                        tlb_key(new.page_table->Some_0.entries@[i]->Some_0.virtual_address, c).tag,
                    )
            }
                }
    }

    /// Performs one access: translation (TLB, then page table), fault
    /// propagation, the data cache, then the second-level cache when the
    /// data cache missed or the access is a write. Records and returns what
    /// happened; the clock advances by one.
    #[verifier::rlimit(100)]
    pub fn simulate_access(&mut self, access: Operation) -> (r: AccessOutput)
        requires
            old(self).wf(),
            old(self).time < u64::MAX / 2,
            in_range(old(self).config, access),
        ensures
            final(self).wf(),
            final(self).time == old(self).time + 1,
            final(self).config == old(self).config,
            Simulator::stepped(*old(self), *final(self), access, r),
    {
        let virtual_address = access.address();
        let is_read = access.is_read();
        let time = self.time;
        let vm = self.config.is_virtual_addresses_enabled();
        let tlb_on = self.config.is_tlb_enabled();
        let page_size = self.config.get_page_size();
        proof {
            lemma_pow2_log2(page_size);
            lemma_touched_by_later(self.dc.cache, (time - 1) as u64, time);
            if self.tlb is Some {
                lemma_touched_by_later(self.tlb->Some_0.cache, (time - 1) as u64, time);
            }
            if self.l2 is Some {
                lemma_touched_by_later(self.l2->Some_0.inner.cache, (time - 1) as u64, time);
            }
        }
        let (physical_address, is_tlb_hit, is_page_table_hit, tlb_address) = self.translate_access(virtual_address);
        let ghost translated_state = *self;
        let is_page_fault = vm && !is_tlb_hit && !is_page_table_hit;
        if is_page_fault {
            self.propagate_page_fault(physical_address);
            assert(self.touched_by(time));
            proof {
                let c = self.config;
                let base = page_base(physical_address, page_size);
                lemma_fundamental_div_mod(physical_address as int, page_size as int);
                lemma_mod_pos_bound(physical_address as int, page_size as int);
                let pa = physical_address as int;
                let ps = page_size as int;
                assert(base <= pa < base + ps) by (nonlinear_arith)
                    requires
                        base == (pa / ps) * ps,
                        pa == ps * (pa / ps) + (pa % ps),
                        0 <= (pa % ps) < ps,
                ;
                assert(!holds_address(self.dc@, physical_address, log2(c.data_cache.number_of_sets) as u64, log2(c.data_cache.line_size) as u64));
                if self.l2 is Some {
                    assert(!holds_address(self.l2->Some_0@, physical_address, log2(c.l2_cache.number_of_sets) as u64, log2(c.l2_cache.line_size) as u64));
                }
            }
        }
        let ghost invalidated_state = *self;
        let (dc_address, dc_hit, l2_address, l2_hit) = self.access_caches(is_read, physical_address);
        proof {
            let c = self.config;
            let ps = page_size;
            let base = page_base(physical_address, ps);
            let dib = log2(c.data_cache.number_of_sets) as u64;
            let dob = log2(c.data_cache.line_size) as u64;
            let lib = log2(c.l2_cache.number_of_sets) as u64;
            let lob = log2(c.l2_cache.line_size) as u64;
            if vm && tlb_on {
                let mid = translated_state.tlb->Some_0@;
                assert(looked_up(old(self).tlb->Some_0@, mid, tlb_key(virtual_address, c), ps, time));
                if is_page_fault {
                    let removed = choose|removed: Seq<Block>| #[trigger] invalidated(
                        mid,
                        invalidated_state.tlb->Some_0@,
                        frame_keys(
                            translated_state.page_table->Some_0.entries@,
                            translated_state.page_table->Some_0.entries@.len() as int,
                            physical_address as nat / ps as nat,
                            c,
                        ),
                        removed,
                    );
                    assert(invalidated(
                        mid,
                        self.tlb->Some_0@,
                        frame_keys(
                            self.page_table->Some_0.entries@,
                            self.page_table->Some_0.entries@.len() as int,
                            physical_address as nat / ps as nat,
                            c,
                        ),
                        removed,
                    ));
                }
            }
            if is_page_fault {
                let before = invalidated_state.dc@;
                let i = dc_address.index as int;
                assert forall|a: u64|
                    base <= a < base + ps && #[trigger] holds_address(self.dc@, a, dib, dob) implies decode(a, dib, dob).tag
                        == dc_address.tag && decode(a, dib, dob).index == dc_address.index by {
                    let d = decode(a, dib, dob);
                    assert(!holds_address(before, a, dib, dob));
                    if d.index != dc_address.index {
                        assert(self.dc@[d.index as int] == before[d.index as int]);
                    } else if d.tag != dc_address.tag {
                        lemma_accessed_adds_only(
                            before[i],
                            self.dc@[i],
                            EvictionPolicy::LRU,
                            dc_address,
                            c.data_cache.line_size,
                            time,
                            !is_read,
                            is_read || !c.data_cache.write_through,
                            d.tag,
                        );
                    }
                }
                if self.l2 is Some {
                    let lbefore = invalidated_state.l2->Some_0@;
                    assert forall|a: u64|
                        base <= a < base + ps && #[trigger] holds_address(self.l2->Some_0@, a, lib, lob) implies l2_address is Some
                            && decode(a, lib, lob).tag == l2_address->Some_0.tag
                            && decode(a, lib, lob).index == l2_address->Some_0.index by {
                        let d = decode(a, lib, lob);
                        assert(!holds_address(lbefore, a, lib, lob));
                        if l2_hit is None {
                            assert(self.l2 == invalidated_state.l2);
                        } else {
                            let la = l2_address->Some_0;
                            let j = la.index as int;
                            if d.index != la.index {
                                assert(self.l2->Some_0@[d.index as int] == lbefore[d.index as int]);
                            } else if d.tag != la.tag {
                                lemma_accessed_adds_only(
                                    lbefore[j],
                                    self.l2->Some_0@[j],
                                    EvictionPolicy::LRU,
                                    la,
                                    c.l2_cache.line_size,
                                    time,
                                    !is_read,
                                    is_read || !c.l2_cache.write_through,
                                    d.tag,
                                );
                            }
                        }
                    }
                }
            }
        }
        let virtual_page_number = if vm {
            Some(virtual_address / page_size)
        } else {
            None
        };
        let result = AccessOutput {
            access,
            virtual_address: if vm {
                Some(virtual_address)
            } else {
                None
            },
            physical_address,
            virtual_page_number,
            page_offset: physical_address % page_size,
            tlb_address,
            tlb_hit: if vm && tlb_on {
                Some(is_tlb_hit)
            } else {
                None
            },
            page_table_hit: if vm {
                Some(is_page_table_hit)
            } else {
                None
            },
            physical_page_number: physical_address / page_size,
            dc_address,
            dc_hit,
            l2_address,
            l2_hit,
        };
        self.age();
        self.output.record(result);
        result
    }

    /// Runs every operation of `trace` in order on a fresh output, and
    /// returns that output.
    pub fn simulate(&mut self, trace: Trace) -> (r: SimulatorOutput)
        requires
            old(self).wf(),
            old(self).time + trace.operations@.len() < u64::MAX / 2,
            forall|i: int| 0 <= i < trace.operations@.len() ==> in_range(old(self).config, #[trigger] trace.operations@[i]),
        ensures
            final(self).wf(),
            final(self).time == old(self).time + trace.operations@.len(),
            r.same(final(self).output),
            r.count() == trace.operations@.len(),
            forall|i: int| 0 <= i < trace.operations@.len() ==> (#[trigger] r.accesses@[i]).access == trace.operations@[i],
            r.total_reads + r.total_writes == trace.operations@.len(),
            r.page_table_refs == r.pt_hits + r.pt_faults,
            r.disk_refs == r.pt_faults,
            r.tallied(),
            exists|states: Seq<Simulator>| {
                &&& states.len() == trace.operations@.len() + 1
                &&& states[0] == (Simulator { output: states[0].output, ..*old(self) })
                &&& states[0].output.is_fresh(old(self).config)
                &&& states.last() == *final(self)
                &&& forall|k: int| 0 <= k < trace.operations@.len() ==> #[trigger] Simulator::stepped(
                    states[k],
                    states[k + 1],
                    trace.operations@[k],
                    r.accesses@[k],
                )
            },
    {
        self.output = SimulatorOutput::empty(self.config);
        let ghost mut states: Seq<Simulator> = seq![*self];
        proof {
            crate::output::lemma_fresh_tallied(self.output, self.config);
        }
        let mut i: usize = 0;
        while i < trace.operations.len()
            invariant
                self.wf(),
                self.config == old(self).config,
                self.time == old(self).time + i,
                old(self).time + trace.operations@.len() < u64::MAX / 2,
                forall|i: int| 0 <= i < trace.operations@.len() ==> in_range(old(self).config, #[trigger] trace.operations@[i]),
                i <= trace.operations@.len(),
                self.output.count() == i,
                self.output.tallied(),
                forall|j: int| 0 <= j < i ==> (#[trigger] self.output.accesses@[j]).access == trace.operations@[j],
                states.len() == i + 1,
                states[0] == (Simulator { output: states[0].output, ..*old(self) }),
                states[0].output.is_fresh(old(self).config),
                states.last() == *self,
                forall|k: int| 0 <= k < i ==> #[trigger] Simulator::stepped(
                    states[k],
                    states[k + 1],
                    trace.operations@[k],
                    self.output.accesses@[k],
                ),
            decreases trace.operations@.len() - i,
        {
            let operation = trace.operations[i];
            let ghost before = self.output.accesses@;
            let ghost before_output = self.output;
            let ghost previous = states;
            let record = self.simulate_access(operation);
            proof {
                crate::output::lemma_recorded_tallied(before_output, self.output, record);
                states = states.push(*self);
                assert forall|j: int| 0 <= j < i + 1 implies (#[trigger] self.output.accesses@[j]).access == trace.operations@[j] by {
                    if j < i {
                        assert(self.output.accesses@[j] == before[j]);
                    }
                }
                assert forall|k: int| 0 <= k < i + 1 implies #[trigger] Simulator::stepped(
                    states[k],
                    states[k + 1],
                    trace.operations@[k],
                    self.output.accesses@[k],
                ) by {
                    assert(states[k] == previous[k]);
                    if k < i {
                        assert(states[k + 1] == previous[k + 1]);
                        assert(self.output.accesses@[k] == before[k]);
                    } else {
                        assert(self.output.accesses@[k] == record);
                    }
                }
            }
            i += 1;
        }
        self.output.snapshot()
    }
}

} // verus!
