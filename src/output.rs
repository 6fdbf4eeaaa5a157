use crate::config::SimulatorConfig;
use crate::trace::{BlockAddress, Operation};
use vstd::prelude::*;

verus! {

/// The record of one access: what each level of the hierarchy was asked and
/// answered. Fields of levels that are disabled, or were not consulted, are
/// `None`.
#[derive(Clone, Copy, Debug, PartialEq, Eq, Structural)]
pub struct AccessOutput {
    pub access: Operation,
    /// The virtual address, when addresses are virtual.
    pub virtual_address: Option<u64>,
    /// The physical address the access went to.
    pub physical_address: u64,
    /// The virtual page number, when addresses are virtual.
    pub virtual_page_number: Option<u64>,
    /// The offset of the address within its page.
    pub page_offset: u64,
    /// The TLB key, when addresses are virtual and the TLB is enabled.
    pub tlb_address: Option<BlockAddress>,
    /// Whether the TLB hit, when addresses are virtual and the TLB is enabled.
    pub tlb_hit: Option<bool>,
    /// Whether the page was mapped, when addresses are virtual.
    pub page_table_hit: Option<bool>,
    /// The physical page number of the address.
    pub physical_page_number: u64,
    /// The data cache's decoding of the physical address.
    pub dc_address: BlockAddress,
    /// Whether the data cache hit.
    pub dc_hit: bool,
    /// The second-level cache's decoding, when it is enabled.
    pub l2_address: Option<BlockAddress>,
    /// Whether the second-level cache hit, when it was consulted.
    pub l2_hit: Option<bool>,
}

/// The main-memory references an access costs: a read served by either
/// cache costs nothing and a full miss costs one; a write costs one unless
/// every level it reaches is write-back, and a write hit in the
/// second-level cache costs one when that cache is write-through.
pub open spec fn memory_cost(a: AccessOutput, config: SimulatorConfig) -> u64 {
    if a.access.spec_is_read() {
        if a.dc_hit || a.l2_hit == Some(true) {
            0
        } else {
            1
        }
    } else if a.dc_hit {
        if !config.data_cache.write_through && (!config.l2_cache_enabled
            || !config.l2_cache.write_through) {
            0
        } else {
            1
        }
    } else if a.l2_hit == Some(true) {
        if config.l2_cache.write_through {
            1
        } else {
            0
        }
    } else {
        1
    }
}

/// One if `b` holds, else zero.
pub open spec fn one_if(b: bool) -> int {
    if b {
        1
    } else {
        0
    }
}

/// `new` is `old` after recording access `a`: the record is appended and
/// each counter of a level that took part in the access grows by one.
pub open spec fn recorded(old: SimulatorOutput, new: SimulatorOutput, a: AccessOutput) -> bool {
    let c = old.config;
    let tlb_counted = c.virtual_addresses_enabled && c.tlb_enabled;
    let pt_counted = c.virtual_addresses_enabled && a.tlb_hit != Some(true);
    &&& new.config == c
    &&& new.accesses@ == old.accesses@.push(a)
    &&& new.tlb_hits == old.tlb_hits + one_if(tlb_counted && a.tlb_hit == Some(true))
    &&& new.tlb_misses == old.tlb_misses + one_if(tlb_counted && a.tlb_hit != Some(true))
    &&& new.pt_hits == old.pt_hits + one_if(pt_counted && a.page_table_hit == Some(true))
    &&& new.pt_faults == old.pt_faults + one_if(pt_counted && a.page_table_hit != Some(true))
    &&& new.page_table_refs == old.page_table_refs + one_if(pt_counted)
    &&& new.disk_refs == old.disk_refs + one_if(pt_counted && a.page_table_hit != Some(true))
    &&& new.dc_hits == old.dc_hits + one_if(a.dc_hit)
    &&& new.dc_misses == old.dc_misses + one_if(!a.dc_hit)
    &&& new.l2_hits == old.l2_hits + one_if(c.l2_cache_enabled && a.l2_hit == Some(true))
    &&& new.l2_misses == old.l2_misses + one_if(c.l2_cache_enabled && a.l2_hit == Some(false))
    &&& new.total_reads == old.total_reads + one_if(a.access.spec_is_read())
    &&& new.total_writes == old.total_writes + one_if(!a.access.spec_is_read())
    &&& new.main_memory_refs == old.main_memory_refs + memory_cost(a, c)
}

/// The sum of `f` over the records `s`.
pub open spec fn tally(s: Seq<AccessOutput>, f: spec_fn(AccessOutput) -> int) -> int
    decreases s.len(),
{
    if s.len() == 0 {
        0
    } else {
        tally(s.drop_last(), f) + f(s.last())
    }
}

proof fn lemma_tally_push(s: Seq<AccessOutput>, a: AccessOutput, f: spec_fn(AccessOutput) -> int)
    ensures
        tally(s.push(a), f) == tally(s, f) + f(a),
{
    assert(s.push(a).drop_last() == s);
}

impl SimulatorOutput {
    /// Every counter is the sum, over the records, of what `recorded` adds
    /// for one record.
    pub open spec fn tallied(&self) -> bool {
        let c = self.config;
        let s = self.accesses@;
        let tlb_counted = c.virtual_addresses_enabled && c.tlb_enabled;
        &&& self.tlb_hits == tally(s, |a: AccessOutput| one_if(tlb_counted && a.tlb_hit == Some(true)))
        &&& self.tlb_misses == tally(s, |a: AccessOutput| one_if(tlb_counted && a.tlb_hit != Some(true)))
        &&& self.pt_hits == tally(s, |a: AccessOutput| one_if(c.virtual_addresses_enabled && a.tlb_hit != Some(true) && a.page_table_hit == Some(true)))
        &&& self.pt_faults == tally(s, |a: AccessOutput| one_if(c.virtual_addresses_enabled && a.tlb_hit != Some(true) && a.page_table_hit != Some(true)))
        &&& self.page_table_refs == tally(s, |a: AccessOutput| one_if(c.virtual_addresses_enabled && a.tlb_hit != Some(true)))
        &&& self.disk_refs == tally(s, |a: AccessOutput| one_if(c.virtual_addresses_enabled && a.tlb_hit != Some(true) && a.page_table_hit != Some(true)))
        &&& self.dc_hits == tally(s, |a: AccessOutput| one_if(a.dc_hit))
        &&& self.dc_misses == tally(s, |a: AccessOutput| one_if(!a.dc_hit))
        &&& self.l2_hits == tally(s, |a: AccessOutput| one_if(c.l2_cache_enabled && a.l2_hit == Some(true)))
        &&& self.l2_misses == tally(s, |a: AccessOutput| one_if(c.l2_cache_enabled && a.l2_hit == Some(false)))
        &&& self.total_reads == tally(s, |a: AccessOutput| one_if(a.access.spec_is_read()))
        &&& self.total_writes == tally(s, |a: AccessOutput| one_if(!a.access.spec_is_read()))
        &&& self.main_memory_refs == tally(s, |a: AccessOutput| memory_cost(a, c) as int)
    }
}

/// Recording an access keeps every counter the sum over the records.
pub proof fn lemma_recorded_tallied(old: SimulatorOutput, new: SimulatorOutput, a: AccessOutput)
    requires
        old.tallied(),
        recorded(old, new, a),
    ensures
        new.tallied(),
{
    let c = old.config;
    let s = old.accesses@;
    let tlb_counted = c.virtual_addresses_enabled && c.tlb_enabled;
    lemma_tally_push(s, a, |a: AccessOutput| one_if(tlb_counted && a.tlb_hit == Some(true)));
    lemma_tally_push(s, a, |a: AccessOutput| one_if(tlb_counted && a.tlb_hit != Some(true)));
    lemma_tally_push(s, a, |a: AccessOutput| one_if(c.virtual_addresses_enabled && a.tlb_hit != Some(true) && a.page_table_hit == Some(true)));
    lemma_tally_push(s, a, |a: AccessOutput| one_if(c.virtual_addresses_enabled && a.tlb_hit != Some(true) && a.page_table_hit != Some(true)));
    lemma_tally_push(s, a, |a: AccessOutput| one_if(c.virtual_addresses_enabled && a.tlb_hit != Some(true)));
    lemma_tally_push(s, a, |a: AccessOutput| one_if(a.dc_hit));
    lemma_tally_push(s, a, |a: AccessOutput| one_if(!a.dc_hit));
    lemma_tally_push(s, a, |a: AccessOutput| one_if(c.l2_cache_enabled && a.l2_hit == Some(true)));
    lemma_tally_push(s, a, |a: AccessOutput| one_if(c.l2_cache_enabled && a.l2_hit == Some(false)));
    lemma_tally_push(s, a, |a: AccessOutput| one_if(a.access.spec_is_read()));
    lemma_tally_push(s, a, |a: AccessOutput| one_if(!a.access.spec_is_read()));
    lemma_tally_push(s, a, |a: AccessOutput| memory_cost(a, c) as int);
}

/// A fresh output is tallied: no records, every counter zero.
pub proof fn lemma_fresh_tallied(o: SimulatorOutput, config: SimulatorConfig)
    requires
        o.is_fresh(config),
    ensures
        o.tallied(),
{
}

/// In a well-formed output the page-table references are the page-table
/// hits and faults, the disk references are the faults, and the reads and
/// writes together are the accesses recorded. `record` keeps the output
/// well formed, and `Simulator::simulate` records one access per operation.
pub proof fn lemma_output_bookkeeping(o: SimulatorOutput)
    requires
        o.wf(),
    ensures
        o.page_table_refs == o.pt_hits + o.pt_faults,
        o.disk_refs == o.pt_faults,
        o.total_reads + o.total_writes == o.accesses@.len(),
{
}

impl AccessOutput {
    /// The main-memory references the access costs.
    pub fn get_main_memory_accesses(&self, config: &SimulatorConfig) -> (r: u64)
        ensures
            r == memory_cost(*self, *config),
    {
        if self.access.is_read() {
            if self.dc_hit {
                0
            } else if self.l2_hit == Some(true) {
                0
            } else {
                1
            }
        } else if self.dc_hit {
            if config.data_cache.is_write_back() && (!config.is_l2_cache_enabled()
                || config.l2_cache.is_write_back()) {
                0
            } else {
                1
            }
        } else if self.l2_hit == Some(true) {
            if config.l2_cache.is_write_through() {
                1
            } else {
                0
            }
        } else {
            1
        }
    }

    pub fn get_virtual_address(&self) -> (r: Option<u64>)
        ensures
            r == self.virtual_address,
    {
        self.virtual_address
    }

    pub fn get_page_offset(&self) -> (r: u64)
        ensures
            r == self.page_offset,
    {
        self.page_offset
    }

    pub fn get_tlb_tag(&self) -> (r: Option<u64>)
        ensures
            r == (match self.tlb_address {
                Some(a) => Some(a.tag),
                None => None,
            }),
    {
        match self.tlb_address {
            Some(a) => Some(a.tag),
            None => None,
        }
    }

    pub fn get_tlb_index(&self) -> (r: Option<u64>)
        ensures
            r == (match self.tlb_address {
                Some(a) => Some(a.index),
                None => None,
            }),
    {
        match self.tlb_address {
            Some(a) => Some(a.index),
            None => None,
        }
    }

    pub fn get_tlb_hit(&self) -> (r: Option<bool>)
        ensures
            r == self.tlb_hit,
    {
        self.tlb_hit
    }

    pub fn get_page_table_hit(&self) -> (r: Option<bool>)
        ensures
            r == self.page_table_hit,
    {
        self.page_table_hit
    }

    pub fn get_physical_page_number(&self) -> (r: u64)
        ensures
            r == self.physical_page_number,
    {
        self.physical_page_number
    }

    pub fn get_dc_tag(&self) -> (r: u64)
        ensures
            r == self.dc_address.tag,
    {
        self.dc_address.tag
    }

    pub fn get_dc_index(&self) -> (r: u64)
        ensures
            r == self.dc_address.index,
    {
        self.dc_address.index
    }

    pub fn get_dc_hit(&self) -> (r: bool)
        ensures
            r == self.dc_hit,
    {
        self.dc_hit
    }

    pub fn get_l2_tag(&self) -> (r: Option<u64>)
        ensures
            r == (match self.l2_address {
                Some(a) => Some(a.tag),
                None => None,
            }),
    {
        match self.l2_address {
            Some(a) => Some(a.tag),
            None => None,
        }
    }

    pub fn get_l2_index(&self) -> (r: Option<u64>)
        ensures
            r == (match self.l2_address {
                Some(a) => Some(a.index),
                None => None,
            }),
    {
        match self.l2_address {
            Some(a) => Some(a.index),
            None => None,
        }
    }

    pub fn get_l2_hit(&self) -> (r: Option<bool>)
        ensures
            r == self.l2_hit,
    {
        self.l2_hit
    }
}

/// The per-access records of a run and the counters over them.
#[derive(Clone, Debug)]
pub struct SimulatorOutput {
    pub config: SimulatorConfig,
    pub accesses: Vec<AccessOutput>,
    pub tlb_hits: u64,
    pub tlb_misses: u64,
    pub pt_hits: u64,
    pub pt_faults: u64,
    pub dc_hits: u64,
    pub dc_misses: u64,
    pub l2_hits: u64,
    pub l2_misses: u64,
    pub total_reads: u64,
    pub total_writes: u64,
    /// The number of main-memory references.
    pub main_memory_refs: u64,
    /// The number of page-table references: page-table hits and faults.
    pub page_table_refs: u64,
    /// The number of disk references: the page faults.
    pub disk_refs: u64,
}

impl SimulatorOutput {
    /// The number of accesses recorded.
    pub open spec fn count(&self) -> nat {
        self.accesses@.len()
    }

    /// The counters agree with each other and none exceeds the number of
    /// accesses recorded.
    pub open spec fn wf(&self) -> bool {
        &&& self.total_reads + self.total_writes == self.count()
        &&& self.page_table_refs == self.pt_hits + self.pt_faults
        &&& self.disk_refs == self.pt_faults
        &&& self.tlb_hits + self.tlb_misses <= self.count()
        &&& self.pt_hits + self.pt_faults <= self.count()
        &&& self.dc_hits + self.dc_misses <= self.count()
        &&& self.l2_hits + self.l2_misses <= self.count()
        &&& self.main_memory_refs <= self.count()
    }

    /// No access is recorded, every counter is zero and the configuration
    /// is `config`.
    pub open spec fn is_fresh(&self, config: SimulatorConfig) -> bool {
        &&& self.config == config
        &&& self.accesses@.len() == 0
        &&& self.tlb_hits == 0 && self.tlb_misses == 0 && self.pt_hits == 0 && self.pt_faults == 0
        &&& self.dc_hits == 0 && self.dc_misses == 0 && self.l2_hits == 0 && self.l2_misses == 0
        &&& self.total_reads == 0 && self.total_writes == 0 && self.main_memory_refs == 0
        &&& self.page_table_refs == 0 && self.disk_refs == 0
    }

    /// An output with no access recorded.
    pub fn empty(config: SimulatorConfig) -> (r: Self)
        ensures
            r.wf(),
            r.config == config,
            r.count() == 0,
            r.tlb_hits == 0 && r.tlb_misses == 0 && r.pt_hits == 0 && r.pt_faults == 0,
            r.dc_hits == 0 && r.dc_misses == 0 && r.l2_hits == 0 && r.l2_misses == 0,
            r.total_reads == 0 && r.total_writes == 0 && r.main_memory_refs == 0,
            r.page_table_refs == 0 && r.disk_refs == 0,
            r.is_fresh(config),
    {
        SimulatorOutput {
            config,
            accesses: Vec::new(),
            tlb_hits: 0,
            tlb_misses: 0,
            pt_hits: 0,
            pt_faults: 0,
            dc_hits: 0,
            dc_misses: 0,
            l2_hits: 0,
            l2_misses: 0,
            total_reads: 0,
            total_writes: 0,
            main_memory_refs: 0,
            page_table_refs: 0,
            disk_refs: 0,
        }
    }

    /// `self` and `other` hold the same records and counters.
    pub open spec fn same(&self, other: SimulatorOutput) -> bool {
        &&& self.accesses@ == other.accesses@
        &&& self == (SimulatorOutput { accesses: self.accesses, ..other })
    }

    /// A field-by-field copy.
    pub fn snapshot(&self) -> (r: Self)
        ensures
            r.same(*self),
    {
        let mut accesses: Vec<AccessOutput> = Vec::new();
        let mut i: usize = 0;
        while i < self.accesses.len()
            invariant
                i <= self.accesses@.len(),
                accesses@ == self.accesses@.subrange(0, i as int),
            decreases self.accesses@.len() - i,
        {
            accesses.push(self.accesses[i]);
            i += 1;
            assert(accesses@ =~= self.accesses@.subrange(0, i as int));
        }
        assert(accesses@ =~= self.accesses@);
        SimulatorOutput {
            config: self.config,
            accesses,
            tlb_hits: self.tlb_hits,
            tlb_misses: self.tlb_misses,
            pt_hits: self.pt_hits,
            pt_faults: self.pt_faults,
            dc_hits: self.dc_hits,
            dc_misses: self.dc_misses,
            l2_hits: self.l2_hits,
            l2_misses: self.l2_misses,
            total_reads: self.total_reads,
            total_writes: self.total_writes,
            main_memory_refs: self.main_memory_refs,
            page_table_refs: self.page_table_refs,
            disk_refs: self.disk_refs,
        }
    }

    /// Appends the record of an access, counts it as a read or a write and
    /// adds its main-memory references.
    pub fn add_access(&mut self, access: AccessOutput)
        requires
            old(self).total_reads + old(self).total_writes < u64::MAX,
            old(self).main_memory_refs < u64::MAX,
        ensures
            final(self).accesses@ == old(self).accesses@.push(access),
            final(self).total_reads == old(self).total_reads + if access.access.spec_is_read() {
                1int
            } else {
                0int
            },
            final(self).total_writes == old(self).total_writes + if access.access.spec_is_read() {
                0int
            } else {
                1int
            },
            final(self).main_memory_refs == old(self).main_memory_refs + memory_cost(
                access,
                old(self).config,
            ),
            final(self).config == old(self).config,
            final(self).tlb_hits == old(self).tlb_hits && final(self).tlb_misses == old(self).tlb_misses,
            final(self).pt_hits == old(self).pt_hits && final(self).pt_faults == old(self).pt_faults,
            final(self).dc_hits == old(self).dc_hits && final(self).dc_misses == old(self).dc_misses,
            final(self).l2_hits == old(self).l2_hits && final(self).l2_misses == old(self).l2_misses,
            final(self).page_table_refs == old(self).page_table_refs,
            final(self).disk_refs == old(self).disk_refs,
    {
        if access.access.is_read() {
            self.total_reads += 1;
        } else {
            self.total_writes += 1;
        }
        let cost = access.get_main_memory_accesses(&self.config);
        self.main_memory_refs += cost;
        self.accesses.push(access);
    }

    /// Records access `a` with every counter it touches.
    pub fn record(&mut self, a: AccessOutput)
        requires
            old(self).wf(),
            old(self).count() < u64::MAX,
        ensures
            final(self).wf(),
            recorded(*old(self), *final(self), a),
    {
        if self.config.is_virtual_addresses_enabled() && self.config.is_tlb_enabled() {
            match a.tlb_hit {
                Some(hit) => self.add_tlb_access(hit),
                None => self.add_tlb_access(false),
            }
        }
        if self.config.is_virtual_addresses_enabled() && a.tlb_hit != Some(true) {
            self.add_page_table_access(a.page_table_hit == Some(true));
        }
        self.add_dc_access(a.dc_hit);
        match a.l2_hit {
            Some(hit) => self.add_l2_access(hit),
            None => {},
        }
        self.add_access(a);
    }

    /// Counts one main-memory reference.
    pub fn add_main_memory_access(&mut self)
        requires
            old(self).main_memory_refs < u64::MAX,
        ensures
            *final(self) == (SimulatorOutput {
                main_memory_refs: (old(self).main_memory_refs + 1) as u64,
                ..*old(self)
            }),
    {
        self.main_memory_refs += 1;
    }

    /// Counts `count` main-memory references.
    pub fn add_main_memory_accesses(&mut self, count: u64)
        requires
            old(self).main_memory_refs + count <= u64::MAX,
        ensures
            *final(self) == (SimulatorOutput {
                main_memory_refs: (old(self).main_memory_refs + count) as u64,
                ..*old(self)
            }),
    {
        self.main_memory_refs += count;
    }

    /// Counts a TLB hit or miss, when the TLB is enabled.
    pub fn add_tlb_access(&mut self, hit: bool)
        requires
            old(self).tlb_hits + old(self).tlb_misses < u64::MAX,
        ensures
            *final(self) == (if !old(self).config.tlb_enabled {
                *old(self)
            } else if hit {
                SimulatorOutput { tlb_hits: (old(self).tlb_hits + 1) as u64, ..*old(self) }
            } else {
                SimulatorOutput { tlb_misses: (old(self).tlb_misses + 1) as u64, ..*old(self) }
            }),
    {
        if !self.config.is_tlb_enabled() {
            return;
        }
        if hit {
            self.tlb_hits += 1;
        } else {
            self.tlb_misses += 1;
        }
    }

    /// Counts a page-table hit or fault, when addresses are virtual. Each
    /// is a page-table reference; each fault is a disk reference.
    pub fn add_page_table_access(&mut self, hit: bool)
        requires
            old(self).pt_hits + old(self).pt_faults < u64::MAX,
            old(self).page_table_refs < u64::MAX,
            old(self).disk_refs < u64::MAX,
        ensures
            *final(self) == (if !old(self).config.virtual_addresses_enabled {
                *old(self)
            } else if hit {
                SimulatorOutput {
                    pt_hits: (old(self).pt_hits + 1) as u64,
                    page_table_refs: (old(self).page_table_refs + 1) as u64,
                    ..*old(self)
                }
            } else {
                SimulatorOutput {
                    pt_faults: (old(self).pt_faults + 1) as u64,
                    page_table_refs: (old(self).page_table_refs + 1) as u64,
                    disk_refs: (old(self).disk_refs + 1) as u64,
                    ..*old(self)
                }
            }),
    {
        if !self.config.is_virtual_addresses_enabled() {
            return;
        }
        if hit {
            self.pt_hits += 1;
        } else {
            self.pt_faults += 1;
            self.disk_refs += 1;
        }
        self.page_table_refs += 1;
    }

    /// Counts a data-cache hit or miss.
    pub fn add_dc_access(&mut self, hit: bool)
        requires
            old(self).dc_hits + old(self).dc_misses < u64::MAX,
        ensures
            *final(self) == (if hit {
                SimulatorOutput { dc_hits: (old(self).dc_hits + 1) as u64, ..*old(self) }
            } else {
                SimulatorOutput { dc_misses: (old(self).dc_misses + 1) as u64, ..*old(self) }
            }),
    {
        if hit {
            self.dc_hits += 1;
        } else {
            self.dc_misses += 1;
        }
    }

    /// Counts a second-level hit or miss, when that cache is enabled.
    pub fn add_l2_access(&mut self, hit: bool)
        requires
            old(self).l2_hits + old(self).l2_misses < u64::MAX,
        ensures
            *final(self) == (if !old(self).config.l2_cache_enabled {
                *old(self)
            } else if hit {
                SimulatorOutput { l2_hits: (old(self).l2_hits + 1) as u64, ..*old(self) }
            } else {
                SimulatorOutput { l2_misses: (old(self).l2_misses + 1) as u64, ..*old(self) }
            }),
    {
        if !self.config.is_l2_cache_enabled() {
            return;
        }
        if hit {
            self.l2_hits += 1;
        } else {
            self.l2_misses += 1;
        }
    }

    /// Counts `count` second-level hits, when that cache is enabled.
    pub fn add_l2_accesses(&mut self, count: u64)
        requires
            old(self).l2_hits + count <= u64::MAX,
        ensures
            *final(self) == (if !old(self).config.l2_cache_enabled {
                *old(self)
            } else {
                SimulatorOutput { l2_hits: (old(self).l2_hits + count) as u64, ..*old(self) }
            }),
    {
        if !self.config.is_l2_cache_enabled() {
            return;
        }
        self.l2_hits += count;
    }
}

} // verus!
