use memory_hierarchy::{
    DataCacheConfig, L2CacheConfig, Operation, PageTableConfig, Simulator, SimulatorConfig,
    TLBConfig, Trace,
};

struct Geometry {
    tlb: (u64, u64),
    pages: (u64, u64, u64),
    dc: (u64, u64, u64, bool),
    l2: (u64, u64, u64, bool),
    flags: (bool, bool, bool),
}

fn config(g: Geometry) -> SimulatorConfig {
    SimulatorConfig {
        virtual_addresses_enabled: g.flags.0,
        tlb_enabled: g.flags.1,
        l2_cache_enabled: g.flags.2,
        tlb: TLBConfig::new(g.tlb.0, g.tlb.1),
        page_table: PageTableConfig::new(g.pages.0, g.pages.1, g.pages.2),
        data_cache: DataCacheConfig::new(g.dc.0, g.dc.1, g.dc.2, g.dc.3),
        l2_cache: L2CacheConfig::new(g.l2.0, g.l2.1, g.l2.2, g.l2.3),
    }
}

fn trace(ops: &[Operation]) -> Trace {
    let mut t = Trace::new();
    for op in ops {
        t.push(*op);
    }
    t
}

#[test]
fn direct_mapped_cold_l1() {
    let c = config(Geometry {
        tlb: (1, 1),
        pages: (4, 4, 256),
        dc: (4, 1, 16, false),
        l2: (1, 1, 16, false),
        flags: (false, false, false),
    });
    assert!(c.is_valid());
    let mut sim = Simulator::new(c);
    let out = sim.simulate(trace(&[
        Operation::Read(0x00),
        Operation::Read(0x40),
        Operation::Read(0x00),
    ]));
    // 0x00 and 0x40 both fall in set 0 with different tags, so each access
    // evicts the other's block.
    assert_eq!(out.accesses[0].dc_address.index, 0);
    assert_eq!(out.accesses[1].dc_address.index, 0);
    assert_ne!(out.accesses[0].dc_address.tag, out.accesses[1].dc_address.tag);
    assert!(!out.accesses[2].dc_hit);
    assert_eq!(out.dc_hits, 0);
    assert_eq!(out.dc_misses, 3);
    assert_eq!(out.main_memory_refs, 3);
    assert_eq!(out.total_reads, 3);
}

#[test]
fn lru_two_way() {
    let c = config(Geometry {
        tlb: (1, 1),
        pages: (4, 4, 256),
        dc: (1, 2, 16, false),
        l2: (1, 1, 16, false),
        flags: (false, false, false),
    });
    let mut sim = Simulator::new(c);
    let out = sim.simulate(trace(&[
        Operation::Read(0x00),
        Operation::Read(0x10),
        Operation::Read(0x00),
        Operation::Read(0x20),
    ]));
    assert_eq!(out.dc_hits, 1);
    assert_eq!(out.dc_misses, 3);
    assert!(out.accesses[2].dc_hit);
    // Tag 1 was least recently used and left; tags 0 and 2 remain.
    let dc = sim.get_dc();
    assert!(dc.cache.is_hit(out.accesses[0].dc_address));
    assert!(!dc.cache.is_hit(out.accesses[1].dc_address));
    assert!(dc.cache.is_hit(out.accesses[3].dc_address));
}

#[test]
fn write_through_no_allocate() {
    let c = config(Geometry {
        tlb: (1, 1),
        pages: (4, 4, 256),
        dc: (1, 1, 16, true),
        l2: (1, 1, 16, false),
        flags: (false, false, false),
    });
    let mut sim = Simulator::new(c);
    let out = sim.simulate(trace(&[Operation::Write(0x00), Operation::Read(0x00)]));
    assert_eq!(out.dc_hits, 0);
    assert_eq!(out.dc_misses, 2);
    assert_eq!(out.total_writes, 1);
    assert_eq!(out.total_reads, 1);
    assert!(sim.get_dc().cache.is_hit(out.accesses[1].dc_address));
}

#[test]
fn page_fault_with_propagation() {
    let c = config(Geometry {
        tlb: (1, 1),
        pages: (2, 1, 16),
        dc: (1, 1, 16, false),
        l2: (1, 1, 16, false),
        flags: (true, false, false),
    });
    let mut sim = Simulator::new(c);
    let out = sim.simulate(trace(&[Operation::Read(0x0000), Operation::Read(0x0010)]));
    assert_eq!(out.pt_faults, 2);
    assert_eq!(out.pt_hits, 0);
    assert_eq!(out.dc_misses, 2);
    assert_eq!(out.disk_refs, 2);
    assert_eq!(out.page_table_refs, 2);
    // Both pages were given frame 0 in turn.
    assert_eq!(out.accesses[0].physical_address, 0);
    assert_eq!(out.accesses[1].physical_address, 0);
    assert_eq!(out.accesses[1].virtual_page_number, Some(1));
}

#[test]
fn write_back_l1_write_through_l2_read_miss() {
    let c = config(Geometry {
        tlb: (1, 1),
        pages: (4, 4, 256),
        dc: (1, 1, 16, false),
        l2: (2, 1, 16, true),
        flags: (false, false, true),
    });
    let mut sim = Simulator::new(c);
    let out = sim.simulate(trace(&[Operation::Read(0x00), Operation::Read(0x00)]));
    assert_eq!(out.accesses[0].l2_hit, Some(false));
    assert!(out.accesses[1].dc_hit);
    assert_eq!(out.accesses[1].l2_hit, None);
    assert_eq!(out.l2_misses, 1);
    assert_eq!(out.l2_hits, 0);
    assert_eq!(out.main_memory_refs, 1);
}

#[test]
fn tlb_stale_entry_reported_as_miss() {
    let c = config(Geometry {
        tlb: (1, 2),
        pages: (2, 1, 16),
        dc: (1, 1, 16, false),
        l2: (1, 1, 16, false),
        flags: (true, true, false),
    });
    let mut sim = Simulator::new(c);
    let out = sim.simulate(trace(&[
        Operation::Read(0x00),
        Operation::Read(0x00),
        Operation::Read(0x10),
    ]));
    // The second access finds the page mapped and loads its TLB line.
    assert_eq!(out.accesses[1].page_table_hit, Some(true));
    // The third maps page 1 to the only frame, evicting page 0.
    assert_eq!(out.accesses[2].page_table_hit, Some(false));
    // Page 0's line is still in the TLB, but the page is no longer mapped.
    let key = out.accesses[1].tlb_address.unwrap();
    assert!(sim.get_tlb().unwrap().cache.is_hit(key));
    let last = sim.simulate_access(Operation::Read(0x00));
    assert_eq!(last.tlb_address, Some(key));
    assert_eq!(last.page_table_hit, Some(false));
    assert_eq!(last.tlb_hit, Some(false));
    let out = &sim.output;
    assert_eq!(out.tlb_hits, 0);
    assert_eq!(out.tlb_misses, 4);
}

#[test]
fn empty_trace_records_nothing() {
    let c = config(Geometry {
        tlb: (1, 1),
        pages: (2, 1, 16),
        dc: (1, 1, 16, false),
        l2: (1, 1, 16, false),
        flags: (true, true, true),
    });
    let mut sim = Simulator::new(c);
    let out = sim.simulate(Trace::new());
    assert!(out.accesses.is_empty());
    assert_eq!(out.total_reads + out.total_writes, 0);
    assert_eq!(out.main_memory_refs, 0);
    assert_eq!(sim.get_time(), 1);
}
