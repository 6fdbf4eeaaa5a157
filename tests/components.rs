use memory_hierarchy::config::{bits_of, is_power_of_two};
use memory_hierarchy::parse::{parse_decimal, parse_flag, parse_hexadecimal, parse_operation, split_key_value};
use memory_hierarchy::{
    AccessOutput, BlockAddress, Cache, CacheSet, ConfigErrorKind, DataCache, DataCacheConfig,
    EvictionPolicy, L2CacheConfig, Operation, PageTable, PageTableConfig, Simulator,
    SimulatorConfig, TLBConfig, Trace,
};

fn addr(tag: u64, index: u64) -> BlockAddress {
    BlockAddress { tag, index, offset: 0, tag_bits: 28, index_bits: 0, offset_bits: 4 }
}

#[test]
fn decode_splits_fields() {
    let a = BlockAddress::new(0x1234, 4, 4);
    assert_eq!(a.offset, 0x4);
    assert_eq!(a.index, 0x3);
    assert_eq!(a.tag, 0x12);
    assert_eq!(a.tag_bits, 24);
    assert_eq!(a.get_address(), 0x1234);
}

#[test]
fn decode_round_trip() {
    for &address in &[0u64, 1, 0x40, 0xdead_beef, 0xffff_ffff] {
        for &(i, o) in &[(0u64, 0u64), (2, 4), (10, 6), (16, 16), (0, 32), (32, 0)] {
            let a = BlockAddress::new(address, i, o);
            assert_eq!(a.tag_bits + a.index_bits + a.offset_bits, 32);
            assert_eq!(a.get_address(), address);
        }
    }
}

#[test]
fn tlb_key_is_page_number() {
    let c = sample_config(true, true, false);
    let key = BlockAddress::new_tlb_address(0x1234, &c);
    // 256-byte pages: page number 0x12, two TLB sets.
    assert_eq!(key.offset_bits, 0);
    assert_eq!(key.index, 0);
    assert_eq!(key.tag, 0x9);
}

#[test]
fn lru_evicts_least_recently_used() {
    let mut set = CacheSet::new(16, 2, EvictionPolicy::LRU);
    assert!(set.read_and_allocate(addr(0xa, 0), 1).is_none());
    assert!(set.read_and_allocate(addr(0xb, 0), 2).is_none());
    assert!(set.try_read(addr(0xa, 0), 3));
    assert!(set.is_full());
    let evicted = set.read_and_allocate(addr(0xc, 0), 4).unwrap();
    assert_eq!(evicted.tag, 0xb);
    assert_eq!(evicted.last_access, 2);
    assert_eq!(set.get_tags(), vec![0xa, 0xc]);
}

#[test]
fn lru_tie_takes_first_slot() {
    let mut set = CacheSet::new(16, 2, EvictionPolicy::LRU);
    set.read_and_allocate(addr(0xa, 0), 5);
    set.read_and_allocate(addr(0xb, 0), 5);
    let evicted = set.evict().unwrap();
    assert_eq!(evicted.tag, 0xa);
    assert_eq!(set.get_tags(), vec![0xb]);
}

#[test]
fn fifo_evicts_first_loaded() {
    let mut set = CacheSet::new(16, 2, EvictionPolicy::FIFO);
    set.read_and_allocate(addr(0xa, 0), 1);
    set.read_and_allocate(addr(0xb, 0), 2);
    assert!(set.try_write(addr(0xa, 0), 3));
    let evicted = set.write_and_allocate(addr(0xc, 0), 4).unwrap();
    assert_eq!(evicted.tag, 0xa);
    assert!(evicted.dirty);
    assert_eq!(evicted.first_access, 1);
}

#[test]
fn random_evicts_a_present_block() {
    let mut set = CacheSet::new(16, 2, EvictionPolicy::Random);
    set.read_and_allocate(addr(0xa, 0), 1);
    set.read_and_allocate(addr(0xb, 0), 2);
    let evicted = set.read_and_allocate(addr(0xc, 0), 3).unwrap();
    assert!(evicted.tag == 0xa || evicted.tag == 0xb);
    assert_eq!(set.get_tags().len(), 2);
    assert!(set.get_tags().contains(&0xc));
}

#[test]
fn evict_on_set_that_is_not_full() {
    let mut set = CacheSet::new(16, 2, EvictionPolicy::LRU);
    set.read_and_allocate(addr(0xa, 0), 1);
    assert!(set.evict().is_none());
    assert_eq!(set.get_tags(), vec![0xa]);
}

#[test]
fn hit_reports_state_before_allocation() {
    let mut set = CacheSet::new(16, 1, EvictionPolicy::LRU);
    assert!(!set.is_write_and_allocate_hit(addr(0xa, 0), 1));
    assert!(set.is_read_and_allocate_hit(addr(0xa, 0), 2));
    assert!(!set.is_read_and_allocate_hit(addr(0xb, 0), 3));
    assert_eq!(set.get_tags(), vec![0xb]);
    assert_eq!(set.size_in_bytes(), 16);
}

#[test]
fn blocks_stay_in_their_sets_within_associativity() {
    let mut cache = Cache::new(4, 16, 2, EvictionPolicy::LRU);
    let mut time = 1;
    for address in [0x00u64, 0x40, 0x80, 0x10, 0x50, 0x00, 0xc0, 0x90, 0x20, 0x30] {
        let a = BlockAddress::new(address, 2, 4);
        cache.read_and_allocate(a, time);
        time += 1;
        cache.write_and_allocate(BlockAddress::new(address + 0x100, 2, 4), time);
        time += 1;
    }
    for (i, set) in cache.sets.iter().enumerate() {
        assert!(set.get_tags().len() <= 2);
        for block in set.blocks.iter().flatten() {
            assert_eq!(block.index, i as u64);
            assert!(block.first_access <= block.last_access);
        }
    }
    assert_eq!(cache.number_of_blocks(), 8);
    assert_eq!(cache.size_in_bytes(), 128);
}

#[test]
fn cache_constructors() {
    let full = Cache::new_fully_associative(256, 16, EvictionPolicy::LRU);
    assert_eq!(full.len(), 1);
    assert_eq!(full.get_associativity(), 16);
    let direct = Cache::new_direct_mapped(256, 16, EvictionPolicy::FIFO);
    assert_eq!(direct.len(), 16);
    assert_eq!(direct.get_associativity(), 1);
    assert_eq!(direct.get_eviction_policy(), EvictionPolicy::FIFO);
    let set = Cache::new_set_associative(4, 256, 16, EvictionPolicy::LRU);
    assert_eq!(set.len(), 4);
    assert_eq!(set.size_in_bytes(), 256);
}

#[test]
fn cache_invalidate_removes_block() {
    let mut cache = Cache::new(2, 16, 2, EvictionPolicy::LRU);
    let a = BlockAddress::new(0x30, 1, 4);
    cache.read_and_allocate(a, 1);
    assert!(cache.is_hit(a));
    assert_eq!(cache.get(a).unwrap().tag, a.tag);
    let removed = cache.invalidate(a).unwrap();
    assert_eq!(removed.tag, a.tag);
    assert!(!cache.is_hit(a));
    assert!(cache.invalidate(a).is_none());
}

#[test]
fn data_cache_write_policies() {
    let mut wb = DataCache::new_direct_mapped(64, 16, EvictionPolicy::LRU, true);
    let a = BlockAddress::new(0x10, 2, 4);
    assert!(!wb.write(a, 1));
    assert!(wb.read(a, 2));
    assert_eq!(wb.total_write_misses, 1);
    assert_eq!(wb.total_read_misses, 0);
    let mut wt = DataCache::new_set_associative(2, 64, 16, EvictionPolicy::LRU, false);
    let b = BlockAddress::new(0x10, 1, 4);
    assert!(!wt.access(false, b, 1));
    assert!(!wt.access(true, b, 2));
    assert!(wt.access(false, b, 3));
    assert_eq!(wt.total_writes, 2);
    assert_eq!(wt.total_reads, 1);
}

#[test]
fn data_cache_invalidates_whole_page() {
    let c = sample_config(false, false, false);
    let mut dc = DataCache::new_from_config(&c);
    for address in [0x100u64, 0x110, 0x1f0, 0x200] {
        dc.read(BlockAddress::new_data_cache_address(address, &c), 1);
    }
    let removed = dc.invalidate_page(0x123, &c);
    assert_eq!(removed.len(), 3);
    for address in [0x100u64, 0x110, 0x1f0] {
        assert!(!dc.cache.is_hit(BlockAddress::new_data_cache_address(address, &c)));
    }
    assert!(dc.cache.is_hit(BlockAddress::new_data_cache_address(0x200, &c)));
}

#[test]
fn page_table_maps_and_reclaims_lru_frame() {
    let mut pt = PageTable::new(4, 2, 16);
    assert_eq!(pt.translate(0x03, 1), Some((0x03, false)));
    assert_eq!(pt.translate(0x15, 2), Some((0x15, false)));
    assert_eq!(pt.translate(0x07, 3), Some((0x07, true)));
    // Every frame is taken: page 2 takes frame 1, page 1's frame.
    assert_eq!(pt.translate(0x2a, 4), Some((0x1a, false)));
    let mapped = pt.get_entries().iter().filter(|e| e.is_some()).count();
    assert!(mapped <= 2);
    assert!(pt.get_entries()[1].is_none());
    assert_eq!(pt.get_entries()[2].unwrap().get_physical_page_number(), 1);
    assert_eq!(pt.translate(0x15, 5), Some((0x05, false)));
    assert_eq!(pt.translate(0x40, 6), None);
}

#[test]
fn page_table_address_helpers() {
    let pt = PageTable::new(8, 4, 64);
    assert_eq!(pt.get_offset_bits(), 6);
    assert_eq!(pt.get_index_bits(), 3);
    assert_eq!(pt.get_index_from_virtual_address(0x1c5), 7);
    assert_eq!(pt.get_offset(0x1c5), 5);
    assert_eq!(pt.get_virtual_page_number(0x1c5), 7);
    assert_eq!(pt.get_physical_page_number(0x85), 2);
}

#[test]
fn main_memory_cost_by_policy() {
    let mut c = sample_config(false, false, true);
    let a = AccessOutput {
        access: Operation::Write(0),
        virtual_address: None,
        physical_address: 0,
        virtual_page_number: None,
        page_offset: 0,
        tlb_address: None,
        tlb_hit: None,
        page_table_hit: None,
        physical_page_number: 0,
        dc_address: BlockAddress::new(0, 2, 4),
        dc_hit: true,
        l2_address: None,
        l2_hit: None,
    };
    c.data_cache.write_through = false;
    c.l2_cache.write_through = false;
    assert_eq!(a.get_main_memory_accesses(&c), 0);
    c.l2_cache.write_through = true;
    assert_eq!(a.get_main_memory_accesses(&c), 1);
    let read_miss = AccessOutput { access: Operation::Read(0), dc_hit: false, ..a };
    assert_eq!(read_miss.get_main_memory_accesses(&c), 1);
    let read_l2_hit = AccessOutput { l2_hit: Some(true), ..read_miss };
    assert_eq!(read_l2_hit.get_main_memory_accesses(&c), 0);
    let write_l2_hit = AccessOutput { access: Operation::Write(0), ..read_l2_hit };
    assert_eq!(write_l2_hit.get_main_memory_accesses(&c), 1);
}

#[test]
fn powers_of_two() {
    assert!(is_power_of_two(1));
    assert!(is_power_of_two(1 << 63));
    assert!(!is_power_of_two(0));
    assert!(!is_power_of_two(12));
    assert_eq!(bits_of(64), 6);
    assert_eq!(bits_of(1), 0);
}

fn sample_config(vm: bool, tlb: bool, l2: bool) -> SimulatorConfig {
    SimulatorConfig {
        virtual_addresses_enabled: vm,
        tlb_enabled: tlb,
        l2_cache_enabled: l2,
        tlb: TLBConfig::new(2, 2),
        page_table: PageTableConfig::new(16, 4, 256),
        data_cache: DataCacheConfig::new(4, 2, 16, false),
        l2_cache: L2CacheConfig::new(8, 2, 32, true),
    }
}

#[test]
fn page_fault_clears_the_frame_everywhere() {
    let c = sample_config(true, true, true);
    let mut sim = Simulator::new(c);
    for op in [Operation::Read(0x005), Operation::Write(0x0f0), Operation::Read(0x105)] {
        sim.simulate_access(op);
    }
    // Page 0 is in frame 0; drop everything of that frame.
    sim.propagate_page_fault(0x000);
    for address in (0x000u64..0x100).step_by(16) {
        assert!(!sim.get_dc().cache.is_hit(BlockAddress::new_data_cache_address(address, &c)));
        let l2 = sim.get_l2().unwrap();
        assert!(!l2.inner.cache.is_hit(BlockAddress::new_l2_cache_address(address, &c)));
    }
    let tlb = sim.get_tlb().unwrap();
    assert!(!tlb.cache.is_hit(BlockAddress::new_tlb_address(0x005, &c)));
    // Frame 1 (page 1) is untouched.
    assert!(sim.get_dc().cache.is_hit(BlockAddress::new_data_cache_address(0x105, &c)));
}

#[test]
fn bookkeeping_counts_every_access() {
    let c = sample_config(true, true, true);
    let mut sim = Simulator::new(c);
    let mut trace = Trace::new();
    for (i, address) in [0x000u64, 0x104, 0x208, 0x30c, 0x410, 0x000, 0x104, 0x514].iter().enumerate() {
        if i % 3 == 0 {
            trace.push(Operation::Write(*address));
        } else {
            trace.push(Operation::Read(*address));
        }
    }
    let out = sim.simulate(trace.clone());
    assert_eq!(out.total_reads + out.total_writes, trace.len() as u64);
    assert_eq!(out.total_writes, 3);
    assert_eq!(out.page_table_refs, out.pt_hits + out.pt_faults);
    assert_eq!(out.disk_refs, out.pt_faults);
    assert_eq!(out.tlb_hits + out.tlb_misses, 8);
    assert_eq!(out.dc_hits + out.dc_misses, 8);
    // Pages 0, 1, 2, 3, 4, 0, 1, 5 on four frames: each access faults.
    assert_eq!(out.pt_faults, 8);
    assert_eq!(out.pt_hits, 0);
    assert_eq!(sim.get_time(), 9);
}

#[test]
fn both_write_back_reads_data_cache_again() {
    let mut c = sample_config(false, false, true);
    c.l2_cache.write_through = false;
    let mut sim = Simulator::new(c);
    let a = sim.simulate_access(Operation::Read(0x40));
    assert_eq!(a.l2_hit, Some(false));
    assert_eq!(sim.get_dc().total_reads, 2);
    assert_eq!(sim.get_dc().total_read_misses, 1);
    let b = sim.simulate_access(Operation::Write(0x40));
    assert!(b.dc_hit);
    assert_eq!(b.l2_hit, Some(true));
}

#[test]
fn parse_numbers_and_flags() {
    assert_eq!(parse_decimal(b"1024"), Some(1024));
    assert_eq!(parse_decimal(b"18446744073709551615"), Some(u64::MAX));
    assert_eq!(parse_decimal(b"18446744073709551616"), None);
    assert_eq!(parse_decimal(b"12a"), None);
    assert_eq!(parse_decimal(b""), None);
    assert_eq!(parse_hexadecimal(b"1fA0"), Some(0x1fa0));
    assert_eq!(parse_hexadecimal(b"ffffffffffffffff"), Some(u64::MAX));
    assert_eq!(parse_hexadecimal(b"10000000000000000"), None);
    assert_eq!(parse_hexadecimal(b"g"), None);
    assert_eq!(parse_flag(b"y"), Some(true));
    assert_eq!(parse_flag(b"N"), Some(false));
    assert_eq!(parse_flag(b"yes"), None);
}

#[test]
fn parse_lines() {
    let (k, v) = split_key_value(b"  Set size :  4 ").unwrap();
    assert_eq!(k, b"Set size".to_vec());
    assert_eq!(v, b"4".to_vec());
    assert!(split_key_value(b"a:b:c").is_none());
    assert!(split_key_value(b"no colon").is_none());
    assert_eq!(parse_operation(b"R:1f"), Some(Operation::Read(0x1f)));
    assert_eq!(parse_operation(b" W : 00c0 "), Some(Operation::Write(0xc0)));
    assert_eq!(parse_operation(b"X:10"), None);
    assert_eq!(parse_operation(b"R:zz"), None);
}

fn lines(text: &str) -> Vec<Vec<u8>> {
    text.lines().map(|l| l.as_bytes().to_vec()).collect()
}

const CONFIG: &str = "Data TLB configuration
Number of sets: 2
Set size: 1

Page Table configuration
Number of virtual pages: 64
Number of physical pages: 4
Page size: 256

Data Cache configuration
Number of sets: 4
Set size: 1
Line size: 16
Write through/no write allocate: n

L2 Cache configuration
Number of sets: 16
Set size: 4
Line size: 16
Write through/no write allocate: y

Virtual addresses: y
TLB: Y
L2 cache: n
";

#[test]
fn parse_config_text() {
    let c = memory_hierarchy::parse_config(&lines(CONFIG)).unwrap();
    assert_eq!(c.tlb, TLBConfig::new(2, 1));
    assert_eq!(c.page_table, PageTableConfig::new(64, 4, 256));
    assert_eq!(c.data_cache, DataCacheConfig::new(4, 1, 16, false));
    assert_eq!(c.l2_cache, L2CacheConfig::new(16, 4, 16, true));
    assert!(c.virtual_addresses_enabled && c.tlb_enabled && !c.l2_cache_enabled);
}

#[test]
fn parse_config_errors() {
    let bad_header = CONFIG.replace("Page Table configuration", "Page table configuration");
    let e = memory_hierarchy::parse_config(&lines(&bad_header)).unwrap_err();
    assert_eq!(e.expected, "Page Table configuration");
    assert_eq!(e.kind, ConfigErrorKind::WrongHeader);
    let bad_key = CONFIG.replace("Page size", "Page bytes");
    let e = memory_hierarchy::parse_config(&lines(&bad_key)).unwrap_err();
    assert_eq!(e.expected, "Page size");
    assert_eq!(e.kind, ConfigErrorKind::WrongKey);
    let bad_number = CONFIG.replace("Line size: 16\nWrite through/no write allocate: n", "Line size: x\nWrite through/no write allocate: n");
    let e = memory_hierarchy::parse_config(&lines(&bad_number)).unwrap_err();
    assert_eq!(e.expected, "Line size");
    assert_eq!(e.kind, ConfigErrorKind::NotANumber);
    let not_pow2 = CONFIG.replace("Number of physical pages: 4", "Number of physical pages: 6");
    let e = memory_hierarchy::parse_config(&lines(&not_pow2)).unwrap_err();
    assert_eq!(e.expected, "Number of physical pages");
    assert_eq!(e.kind, ConfigErrorKind::NotPowerOfTwo);
    let bad_flag = CONFIG.replace("TLB: Y", "TLB: maybe");
    let e = memory_hierarchy::parse_config(&lines(&bad_flag)).unwrap_err();
    assert_eq!(e.expected, "TLB");
    assert_eq!(e.kind, ConfigErrorKind::NotAFlag);
    let truncated = CONFIG.replace("L2 cache: n\n", "");
    let e = memory_hierarchy::parse_config(&lines(&truncated)).unwrap_err();
    assert_eq!(e.expected, "L2 cache");
    assert_eq!(e.kind, ConfigErrorKind::MissingLine);
    let long_line = CONFIG.replace("Line size: 16\nWrite through/no write allocate: n", "Line size: 512\nWrite through/no write allocate: n");
    let e = memory_hierarchy::parse_config(&lines(&long_line)).unwrap_err();
    assert_eq!(e.kind, ConfigErrorKind::Inconsistent);
    assert_eq!(e.expected, "Line size");
    // Without virtual addresses no page is walked, so a long line is fine.
    let physical = long_line.replace("Virtual addresses: y", "Virtual addresses: n");
    let c = memory_hierarchy::parse_config(&lines(&physical)).unwrap();
    assert_eq!(c.data_cache.line_size, 512);
    let too_many_sets = CONFIG.replace("Number of sets: 16\nSet size: 4", "Number of sets: 1073741824\nSet size: 4");
    let e = memory_hierarchy::parse_config(&lines(&too_many_sets)).unwrap_err();
    assert_eq!(e.kind, ConfigErrorKind::Inconsistent);
    assert_eq!(e.expected, "Number of sets");
}

#[test]
fn parse_trace_text() {
    let t = memory_hierarchy::parse_trace(&lines("R:00000000\n\n  \nW:40\nR:0\nbad line\nR:10\n"));
    assert_eq!(t.operations, vec![Operation::Read(0), Operation::Write(0x40), Operation::Read(0)]);
    assert_eq!(t.get(1), Some(Operation::Write(0x40)));
    assert_eq!(t.get(3), None);
    assert!(!t.is_empty());
    assert!(memory_hierarchy::parse_trace(&lines("")).is_empty());
}

#[test]
fn physical_addresses_leave_the_tlb_alone() {
    let c = sample_config(false, true, false);
    let mut sim = Simulator::new(c);
    let out = sim.simulate({
        let mut t = Trace::new();
        t.push(Operation::Read(0x10));
        t.push(Operation::Read(0x10));
        t
    });
    for a in out.accesses.iter() {
        assert_eq!(a.tlb_hit, None);
        assert_eq!(a.tlb_address, None);
        assert_eq!(a.page_table_hit, None);
    }
    assert_eq!(out.tlb_hits, 0);
    assert_eq!(out.tlb_misses, 0);
    assert_eq!(out.dc_hits, 1);
}
