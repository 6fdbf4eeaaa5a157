use crate::cache::EvictionPolicy;
use crate::trace::ADDRESS_BITS;
use vstd::arithmetic::power2::{lemma_pow2_strictly_increases, pow2};
use vstd::bits::{lemma_u64_pow2_no_overflow, lemma_u64_shl_is_mul};
use vstd::prelude::*;

verus! {

/// `n` is a power of two that fits in 64 bits.
pub open spec fn is_pow2_u64(n: u64) -> bool {
    exists|k: nat| k < 64 && pow2(k) == n
}

/// The exponent of a power of two.
pub open spec fn log2(n: u64) -> nat {
    choose|k: nat| k < 64 && pow2(k) == n
}

/// The exponent of a power of two is the one `log2` names.
pub proof fn lemma_log2(n: u64, k: nat)
    requires
        k < 64,
        pow2(k) == n,
    ensures
        log2(n) == k,
        is_pow2_u64(n),
{
    let j = log2(n);
    assert(j < 64 && pow2(j) == n);
    if j < k {
        lemma_pow2_strictly_increases(j, k);
    } else if k < j {
        lemma_pow2_strictly_increases(k, j);
    }
}

/// A power of two is two to the power of its `log2`.
pub proof fn lemma_pow2_log2(n: u64)
    requires
        is_pow2_u64(n),
    ensures
        pow2(log2(n)) == n,
        log2(n) < 64,
        n >= 1,
{
    vstd::arithmetic::power2::lemma_pow2_pos(log2(n));
}

/// The number of low zero bits of `n`: the exponent when `n` is a power of
/// two.
pub fn bits_of(n: u64) -> (r: u64)
    ensures
        r <= 64,
        is_pow2_u64(n) ==> r == log2(n) && pow2(r as nat) == n,
{
    let r = n.trailing_zeros() as u64;
    proof {
        vstd::std_specs::bits::axiom_u64_trailing_zeros(n);
        if is_pow2_u64(n) {
            let k = log2(n);
            lemma_log2(n, k);
            lemma_u64_pow2_no_overflow(k);
            lemma_u64_shl_is_mul(1, k as u64);
            let z = r;
            assert(n != 0);
            assert(z < 64);
            let kk = k as u64;
            assert(((1u64 << kk) >> z) & 1u64 == 1u64 ==> z == kk) by (bit_vector)
                requires
                    kk < 64,
                    z < 64,
            ;
        }
    }
    r
}

/// Is `n` a power of two?
pub fn is_power_of_two(n: u64) -> (r: bool)
    ensures
        r == is_pow2_u64(n),
{
    let b = bits_of(n);
    if b >= 64 {
        proof {
            if is_pow2_u64(n) {
                lemma_pow2_log2(n);
            }
        }
        return false;
    }
    proof {
        lemma_u64_pow2_no_overflow(b as nat);
        lemma_u64_shl_is_mul(1, b);
    }
    let r = (1u64 << b) == n;
    proof {
        if r {
            lemma_log2(n, b as nat);
        }
    }
    r
}

/// The geometry of the TLB.
#[derive(Clone, Copy, Debug, PartialEq, Eq, Structural)]
pub struct TLBConfig {
    pub number_of_sets: u64,
    pub set_size: u64,
}

impl TLBConfig {
    pub fn new(number_of_sets: u64, set_size: u64) -> (r: Self)
        ensures
            r == (TLBConfig { number_of_sets, set_size }),
    {
        TLBConfig { number_of_sets, set_size }
    }

    /// The TLB evicts the least recently used entry.
    pub fn get_eviction_policy(&self) -> (r: EvictionPolicy)
        ensures
            r == EvictionPolicy::LRU,
    {
        EvictionPolicy::LRU
    }

    /// The number of bits of a page number that select the TLB set.
    pub fn get_index_bits(&self) -> (r: u64)
        ensures
            r <= 64,
            is_pow2_u64(self.number_of_sets) ==> r == log2(self.number_of_sets),
    {
        bits_of(self.number_of_sets)
    }

    pub fn get_number_of_sets(&self) -> (r: u64)
        ensures
            r == self.number_of_sets,
    {
        self.number_of_sets
    }

    /// The number of entries in each set.
    pub fn get_entries_in_set(&self) -> (r: u64)
        ensures
            r == self.set_size,
    {
        self.set_size
    }

    /// The associativity: the number of entries in each set.
    pub fn get_associativity(&self) -> (r: u64)
        ensures
            r == self.set_size,
    {
        self.set_size
    }
}

/// The geometry of the page table.
#[derive(Clone, Copy, Debug, PartialEq, Eq, Structural)]
pub struct PageTableConfig {
    pub number_of_virtual_pages: u64,
    pub number_of_physical_pages: u64,
    /// The number of bytes in a page.
    pub page_size: u64,
}

impl PageTableConfig {
    pub fn new(number_of_virtual_pages: u64, number_of_physical_pages: u64, page_size: u64) -> (r:
        Self)
        ensures
            r == (PageTableConfig { number_of_virtual_pages, number_of_physical_pages, page_size }),
    {
        PageTableConfig { number_of_virtual_pages, number_of_physical_pages, page_size }
    }

    pub fn get_page_size(&self) -> (r: u64)
        ensures
            r == self.page_size,
    {
        self.page_size
    }

    /// The number of bits in a virtual page number.
    pub fn get_virtual_page_number_bits(&self) -> (r: u64)
        ensures
            r <= 64,
            is_pow2_u64(self.number_of_virtual_pages) ==> r == log2(self.number_of_virtual_pages),
    {
        bits_of(self.number_of_virtual_pages)
    }

    /// The number of bits that index the page table.
    pub fn get_index_bits(&self) -> (r: u64)
        ensures
            r <= 64,
            is_pow2_u64(self.number_of_virtual_pages) ==> r == log2(self.number_of_virtual_pages),
    {
        bits_of(self.number_of_virtual_pages)
    }

    /// The number of bits of the offset within a page.
    pub fn get_offset_bits(&self) -> (r: u64)
        ensures
            r <= 64,
            is_pow2_u64(self.page_size) ==> r == log2(self.page_size),
    {
        bits_of(self.page_size)
    }
}

/// The geometry and write policy of the first-level data cache.
#[derive(Clone, Copy, Debug, PartialEq, Eq, Structural)]
pub struct DataCacheConfig {
    pub number_of_sets: u64,
    /// The number of blocks in each set.
    pub set_size: u64,
    /// The number of bytes in a block.
    pub line_size: u64,
    /// Write-through with no write allocation when set; write-back with
    /// write allocation otherwise.
    pub write_through: bool,
}

impl DataCacheConfig {
    pub fn new(number_of_sets: u64, set_size: u64, line_size: u64, write_through: bool) -> (r: Self)
        ensures
            r == (DataCacheConfig { number_of_sets, set_size, line_size, write_through }),
    {
        DataCacheConfig { number_of_sets, set_size, line_size, write_through }
    }

    /// The number of bits that select the set.
    pub fn get_index_bits(&self) -> (r: u64)
        ensures
            r <= 64,
            is_pow2_u64(self.number_of_sets) ==> r == log2(self.number_of_sets),
    {
        bits_of(self.number_of_sets)
    }

    /// The number of bits of the offset within a block.
    pub fn get_offset_bits(&self) -> (r: u64)
        ensures
            r <= 64,
            is_pow2_u64(self.line_size) ==> r == log2(self.line_size),
    {
        bits_of(self.line_size)
    }

    pub fn is_write_through(&self) -> (r: bool)
        ensures
            r == self.write_through,
    {
        self.write_through
    }

    pub fn is_no_write_allocate(&self) -> (r: bool)
        ensures
            r == self.write_through,
    {
        self.write_through
    }

    pub fn is_write_back(&self) -> (r: bool)
        ensures
            r == !self.write_through,
    {
        !self.write_through
    }

    pub fn is_write_allocate(&self) -> (r: bool)
        ensures
            r == !self.write_through,
    {
        !self.write_through
    }

    /// The number of blocks in each set.
    pub fn get_associativity(&self) -> (r: u64)
        ensures
            r == self.set_size,
    {
        self.set_size
    }

    pub fn get_block_size(&self) -> (r: u64)
        ensures
            r == self.line_size,
    {
        self.line_size
    }

    /// The data cache evicts the least recently used block.
    pub fn get_eviction_policy(&self) -> (r: EvictionPolicy)
        ensures
            r == EvictionPolicy::LRU,
    {
        EvictionPolicy::LRU
    }

    pub fn get_number_of_sets(&self) -> (r: u64)
        ensures
            r == self.number_of_sets,
    {
        self.number_of_sets
    }
}

/// The geometry and write policy of the second-level cache.
#[derive(Clone, Copy, Debug, PartialEq, Eq, Structural)]
pub struct L2CacheConfig {
    pub number_of_sets: u64,
    /// The number of blocks in each set.
    pub set_size: u64,
    /// The number of bytes in a block.
    pub line_size: u64,
    /// Write-through with no write allocation when set; write-back with
    /// write allocation otherwise.
    pub write_through: bool,
}

impl L2CacheConfig {
    pub fn new(number_of_sets: u64, set_size: u64, line_size: u64, write_through: bool) -> (r: Self)
        ensures
            r == (L2CacheConfig { number_of_sets, set_size, line_size, write_through }),
    {
        L2CacheConfig { number_of_sets, set_size, line_size, write_through }
    }

    /// The number of bits that select the set.
    pub fn get_index_bits(&self) -> (r: u64)
        ensures
            r <= 64,
            is_pow2_u64(self.number_of_sets) ==> r == log2(self.number_of_sets),
    {
        bits_of(self.number_of_sets)
    }

    /// The number of bits of the offset within a block.
    pub fn get_offset_bits(&self) -> (r: u64)
        ensures
            r <= 64,
            is_pow2_u64(self.line_size) ==> r == log2(self.line_size),
    {
        bits_of(self.line_size)
    }

    pub fn is_write_through(&self) -> (r: bool)
        ensures
            r == self.write_through,
    {
        self.write_through
    }

    pub fn is_no_write_allocate(&self) -> (r: bool)
        ensures
            r == self.write_through,
    {
        self.write_through
    }

    pub fn is_write_back(&self) -> (r: bool)
        ensures
            r == !self.write_through,
    {
        !self.write_through
    }

    pub fn is_write_allocate(&self) -> (r: bool)
        ensures
            r == !self.write_through,
    {
        !self.write_through
    }

    /// The number of blocks in each set.
    pub fn get_associativity(&self) -> (r: u64)
        ensures
            r == self.set_size,
    {
        self.set_size
    }

    pub fn get_block_size(&self) -> (r: u64)
        ensures
            r == self.line_size,
    {
        self.line_size
    }

    /// The second-level cache evicts the least recently used block.
    pub fn get_eviction_policy(&self) -> (r: EvictionPolicy)
        ensures
            r == EvictionPolicy::LRU,
    {
        EvictionPolicy::LRU
    }

    pub fn get_number_of_sets(&self) -> (r: u64)
        ensures
            r == self.number_of_sets,
    {
        self.number_of_sets
    }
}

/// The whole configuration of a simulation run.
#[derive(Clone, Copy, Debug, PartialEq, Eq, Structural)]
pub struct SimulatorConfig {
    /// Addresses in the trace are virtual and go through the page table.
    pub virtual_addresses_enabled: bool,
    /// A TLB caches translations (only with virtual addresses).
    pub tlb_enabled: bool,
    /// A second-level cache sits behind the data cache.
    pub l2_cache_enabled: bool,
    pub tlb: TLBConfig,
    pub page_table: PageTableConfig,
    pub data_cache: DataCacheConfig,
    pub l2_cache: L2CacheConfig,
}

impl SimulatorConfig {
    /// Every size is a power of two, the caches fit their decoding in an
    /// address, the structures fit in memory, and with virtual addresses a
    /// page spans whole blocks of each cache.
    pub open spec fn wf(&self) -> bool {
        &&& is_pow2_u64(self.tlb.number_of_sets)
        &&& is_pow2_u64(self.tlb.set_size)
        &&& is_pow2_u64(self.page_table.number_of_virtual_pages)
        &&& is_pow2_u64(self.page_table.number_of_physical_pages)
        &&& is_pow2_u64(self.page_table.page_size)
        &&& is_pow2_u64(self.data_cache.number_of_sets)
        &&& is_pow2_u64(self.data_cache.set_size)
        &&& is_pow2_u64(self.data_cache.line_size)
        &&& is_pow2_u64(self.l2_cache.number_of_sets)
        &&& is_pow2_u64(self.l2_cache.set_size)
        &&& is_pow2_u64(self.l2_cache.line_size)
        &&& log2(self.data_cache.number_of_sets) + log2(self.data_cache.line_size) <= ADDRESS_BITS
        &&& log2(self.l2_cache.number_of_sets) + log2(self.l2_cache.line_size) <= ADDRESS_BITS
        &&& log2(self.tlb.number_of_sets) <= ADDRESS_BITS
        &&& self.tlb.number_of_sets <= usize::MAX
        &&& self.tlb.set_size <= usize::MAX
        &&& self.page_table.number_of_virtual_pages <= usize::MAX
        &&& self.page_table.number_of_physical_pages <= usize::MAX
        &&& self.data_cache.number_of_sets <= usize::MAX
        &&& self.data_cache.set_size <= usize::MAX
        &&& self.l2_cache.number_of_sets <= usize::MAX
        &&& self.l2_cache.set_size <= usize::MAX
        &&& (self.virtual_addresses_enabled ==> self.data_cache.line_size <= self.page_table.page_size)
        &&& (self.virtual_addresses_enabled ==> self.l2_cache.line_size <= self.page_table.page_size)
    }

    /// The key of the first size that does not fit (meaningful when the
    /// configuration is not well formed).
    pub open spec fn fault_field(&self) -> &'static str {
        if !is_pow2_u64(self.tlb.number_of_sets) {
            "Number of sets"
        } else if !is_pow2_u64(self.tlb.set_size) {
            "Set size"
        } else if !is_pow2_u64(self.page_table.number_of_virtual_pages) {
            "Number of virtual pages"
        } else if !is_pow2_u64(self.page_table.number_of_physical_pages) {
            "Number of physical pages"
        } else if !is_pow2_u64(self.page_table.page_size) {
            "Page size"
        } else if !is_pow2_u64(self.data_cache.number_of_sets) {
            "Number of sets"
        } else if !is_pow2_u64(self.data_cache.set_size) {
            "Set size"
        } else if !is_pow2_u64(self.data_cache.line_size) {
            "Line size"
        } else if !is_pow2_u64(self.l2_cache.number_of_sets) {
            "Number of sets"
        } else if !is_pow2_u64(self.l2_cache.set_size) {
            "Set size"
        } else if !is_pow2_u64(self.l2_cache.line_size) {
            "Line size"
        } else if !(log2(self.data_cache.number_of_sets) + log2(self.data_cache.line_size) <= ADDRESS_BITS) {
            "Number of sets"
        } else if !(log2(self.l2_cache.number_of_sets) + log2(self.l2_cache.line_size) <= ADDRESS_BITS) {
            "Number of sets"
        } else if !(log2(self.tlb.number_of_sets) <= ADDRESS_BITS) {
            "Number of sets"
        } else if !(self.tlb.number_of_sets <= usize::MAX) {
            "Number of sets"
        } else if !(self.tlb.set_size <= usize::MAX) {
            "Set size"
        } else if !(self.page_table.number_of_virtual_pages <= usize::MAX) {
            "Number of virtual pages"
        } else if !(self.page_table.number_of_physical_pages <= usize::MAX) {
            "Number of physical pages"
        } else if !(self.data_cache.number_of_sets <= usize::MAX) {
            "Number of sets"
        } else if !(self.data_cache.set_size <= usize::MAX) {
            "Set size"
        } else if !(self.l2_cache.number_of_sets <= usize::MAX) {
            "Number of sets"
        } else if !(self.l2_cache.set_size <= usize::MAX) {
            "Set size"
        } else if !(self.virtual_addresses_enabled ==> self.data_cache.line_size <= self.page_table.page_size) {
            "Line size"
        } else if !(self.virtual_addresses_enabled ==> self.l2_cache.line_size <= self.page_table.page_size) {
            "Line size"
        } else {
            ""
        }
    }

    /// The key of the first size that does not fit, or `None` when the
    /// configuration is well formed.
    pub fn find_fault(&self) -> (r: Option<&'static str>)
        ensures
            r is None == self.wf(),
            r matches Some(f) ==> f == self.fault_field(),
    {
        if !is_power_of_two(self.tlb.number_of_sets) {
            return Some("Number of sets");
        }
        if !is_power_of_two(self.tlb.set_size) {
            return Some("Set size");
        }
        if !is_power_of_two(self.page_table.number_of_virtual_pages) {
            return Some("Number of virtual pages");
        }
        if !is_power_of_two(self.page_table.number_of_physical_pages) {
            return Some("Number of physical pages");
        }
        if !is_power_of_two(self.page_table.page_size) {
            return Some("Page size");
        }
        if !is_power_of_two(self.data_cache.number_of_sets) {
            return Some("Number of sets");
        }
        if !is_power_of_two(self.data_cache.set_size) {
            return Some("Set size");
        }
        if !is_power_of_two(self.data_cache.line_size) {
            return Some("Line size");
        }
        if !is_power_of_two(self.l2_cache.number_of_sets) {
            return Some("Number of sets");
        }
        if !is_power_of_two(self.l2_cache.set_size) {
            return Some("Set size");
        }
        if !is_power_of_two(self.l2_cache.line_size) {
            return Some("Line size");
        }
        if !(self.get_data_cache_index_bits() + self.get_data_cache_offset_bits() <= ADDRESS_BITS) {
            return Some("Number of sets");
        }
        if !(self.get_l2_cache_index_bits() + self.get_l2_cache_offset_bits() <= ADDRESS_BITS) {
            return Some("Number of sets");
        }
        if !(self.get_tlb_index_bits() <= ADDRESS_BITS) {
            return Some("Number of sets");
        }
        if !(self.tlb.number_of_sets as u128 <= usize::MAX as u128) {
            return Some("Number of sets");
        }
        if !(self.tlb.set_size as u128 <= usize::MAX as u128) {
            return Some("Set size");
        }
        if !(self.page_table.number_of_virtual_pages as u128 <= usize::MAX as u128) {
            return Some("Number of virtual pages");
        }
        if !(self.page_table.number_of_physical_pages as u128 <= usize::MAX as u128) {
            return Some("Number of physical pages");
        }
        if !(self.data_cache.number_of_sets as u128 <= usize::MAX as u128) {
            return Some("Number of sets");
        }
        if !(self.data_cache.set_size as u128 <= usize::MAX as u128) {
            return Some("Set size");
        }
        if !(self.l2_cache.number_of_sets as u128 <= usize::MAX as u128) {
            return Some("Number of sets");
        }
        if !(self.l2_cache.set_size as u128 <= usize::MAX as u128) {
            return Some("Set size");
        }
        if !(!self.virtual_addresses_enabled || self.data_cache.line_size <= self.page_table.page_size) {
            return Some("Line size");
        }
        if !(!self.virtual_addresses_enabled || self.l2_cache.line_size <= self.page_table.page_size) {
            return Some("Line size");
        }
        None
    }

    /// Does the configuration describe a simulator that can be built?
    pub fn is_valid(&self) -> (r: bool)
        ensures
            r == self.wf(),
    {
        self.find_fault().is_none()
    }

    pub fn get_page_size(&self) -> (r: u64)
        ensures
            r == self.page_table.page_size,
    {
        self.page_table.get_page_size()
    }

    /// The number of bits in a virtual page number.
    pub fn get_tlb_tag_bits(&self) -> (r: u64)
        ensures
            r <= 64,
            is_pow2_u64(self.page_table.number_of_virtual_pages) ==> r == log2(
                self.page_table.number_of_virtual_pages,
            ),
    {
        self.page_table.get_virtual_page_number_bits()
    }

    pub fn get_tlb_index_bits(&self) -> (r: u64)
        ensures
            r <= 64,
            is_pow2_u64(self.tlb.number_of_sets) ==> r == log2(self.tlb.number_of_sets),
    {
        self.tlb.get_index_bits()
    }

    pub fn get_page_table_index_bits(&self) -> (r: u64)
        ensures
            r <= 64,
            is_pow2_u64(self.page_table.number_of_virtual_pages) ==> r == log2(
                self.page_table.number_of_virtual_pages,
            ),
    {
        self.page_table.get_index_bits()
    }

    pub fn get_page_table_offset_bits(&self) -> (r: u64)
        ensures
            r <= 64,
            is_pow2_u64(self.page_table.page_size) ==> r == log2(self.page_table.page_size),
    {
        self.page_table.get_offset_bits()
    }

    pub fn get_data_cache_index_bits(&self) -> (r: u64)
        ensures
            r <= 64,
            is_pow2_u64(self.data_cache.number_of_sets) ==> r == log2(self.data_cache.number_of_sets),
    {
        self.data_cache.get_index_bits()
    }

    pub fn get_data_cache_offset_bits(&self) -> (r: u64)
        ensures
            r <= 64,
            is_pow2_u64(self.data_cache.line_size) ==> r == log2(self.data_cache.line_size),
    {
        self.data_cache.get_offset_bits()
    }

    pub fn get_l2_cache_index_bits(&self) -> (r: u64)
        ensures
            r <= 64,
            is_pow2_u64(self.l2_cache.number_of_sets) ==> r == log2(self.l2_cache.number_of_sets),
    {
        self.l2_cache.get_index_bits()
    }

    pub fn get_l2_cache_offset_bits(&self) -> (r: u64)
        ensures
            r <= 64,
            is_pow2_u64(self.l2_cache.line_size) ==> r == log2(self.l2_cache.line_size),
    {
        self.l2_cache.get_offset_bits()
    }

    pub fn is_tlb_enabled(&self) -> (r: bool)
        ensures
            r == self.tlb_enabled,
    {
        self.tlb_enabled
    }

    pub fn is_l2_cache_enabled(&self) -> (r: bool)
        ensures
            r == self.l2_cache_enabled,
    {
        self.l2_cache_enabled
    }

    pub fn is_virtual_addresses_enabled(&self) -> (r: bool)
        ensures
            r == self.virtual_addresses_enabled,
    {
        self.virtual_addresses_enabled
    }
}

} // verus!
