use crate::cache::{accessed, invalidated, Block, Cache, EvictionPolicy, Slots, holds_tag};
use crate::config::{is_pow2_u64, lemma_log2, lemma_pow2_log2, log2, SimulatorConfig};
use vstd::arithmetic::div_mod::{
    lemma_div_denominator, lemma_div_multiples_vanish, lemma_fundamental_div_mod,
    lemma_fundamental_div_mod_converse, lemma_mod_pos_bound,
};
use vstd::arithmetic::power2::{lemma_pow2_adds, lemma_pow2_pos, lemma_pow2_strictly_increases, pow2};
use crate::trace::{decode, lemma_decode_index_bound, BlockAddress};
use vstd::prelude::*;

verus! {

/// The addresses of the `count` blocks of `block_size` bytes from `base` on,
/// decoded for a cache geometry.
pub open spec fn page_block_addresses(
    base: nat,
    count: nat,
    block_size: nat,
    index_bits: u64,
    offset_bits: u64,
) -> Seq<BlockAddress> {
    Seq::new(count, |k: int| decode((base + k * block_size) as u64, index_bits, offset_bits))
}

/// Every address of a page lies in one of the page's blocks: its decoding
/// has the tag and index of the decoded block address at the same block
/// offset from the page's start.
pub proof fn lemma_address_in_page_block(
    address: u64,
    base: nat,
    page_size: u64,
    block_size: u64,
    index_bits: u64,
    offset_bits: u64,
)
    requires
        index_bits + offset_bits <= crate::trace::ADDRESS_BITS,
        is_pow2_u64(page_size),
        is_pow2_u64(block_size),
        pow2(offset_bits as nat) == block_size,
        block_size <= page_size,
        base % (page_size as nat) == 0,
        base <= address < base + page_size,
    ensures
        ({
            let k = (address - base) / (block_size as int);
            let blocks = page_block_addresses(
                base,
                (page_size / block_size) as nat,
                block_size as nat,
                index_bits,
                offset_bits,
            );
            &&& 0 <= k < blocks.len()
            &&& decode(address, index_bits, offset_bits).tag == blocks[k].tag
            &&& decode(address, index_bits, offset_bits).index == blocks[k].index
        }),
{
    let ps = page_size as int;
    let bs = block_size as int;
    let lp = log2(page_size);
    let lb = log2(block_size);
    lemma_pow2_log2(page_size);
    lemma_pow2_log2(block_size);
    lemma_log2(block_size, offset_bits as nat);
    if lp < lb {
        lemma_pow2_strictly_increases(lp, lb);
    }
    let ratio = pow2((lp - lb) as nat) as int;
    lemma_pow2_adds(lb, (lp - lb) as nat);
    lemma_pow2_pos((lp - lb) as nat);
    assert(ps == bs * ratio) by (nonlinear_arith)
        requires
            ps == pow2(lp) as int,
            bs == pow2(lb) as int,
            ratio == pow2((lp - lb) as nat) as int,
            pow2(lp) == pow2(lb) * pow2((lp - lb) as nat),
            lb <= lp,
    ;
    lemma_div_multiples_vanish(ratio, bs);
    assert(ps / bs == ratio) by {
        assert(bs * ratio == ps);
    }
    let j = base as int / ps;
    lemma_fundamental_div_mod(base as int, ps);
    let d = address as int - base as int;
    let k = d / bs;
    let r = d % bs;
    lemma_fundamental_div_mod(d, bs);
    lemma_mod_pos_bound(d, bs);
    assert(0 <= k < ratio) by (nonlinear_arith)
        requires
            d == bs * k + r,
            0 <= r < bs,
            0 <= d < ps,
            ps == bs * ratio,
            bs >= 1,
    ;
    let start = base as int + k * bs;
    // Both addresses have the same quotient by the block size.
    let q = j * ratio + k;
    assert(address as int == q * bs + r && start == q * bs) by (nonlinear_arith)
        requires
            base as int == ps * j,
            ps == bs * ratio,
            d == bs * k + r,
            d == address as int - base as int,
            start == base as int + k * bs,
            q == j * ratio + k,
    ;
    lemma_fundamental_div_mod_converse(address as int, bs, q, r);
    lemma_fundamental_div_mod_converse(start, bs, q, 0);
    assert(start <= address as int) by (nonlinear_arith)
        requires
            start == base as int + k * bs,
            d == bs * k + r,
            d == address as int - base as int,
            r >= 0,
    ;
    lemma_pow2_pos(index_bits as nat);
    lemma_pow2_adds(index_bits as nat, offset_bits as nat);
    assert(pow2(index_bits as nat) * pow2(offset_bits as nat) == pow2(offset_bits as nat) * pow2(index_bits as nat)) by (nonlinear_arith);
    lemma_div_denominator(address as int, bs, pow2(index_bits as nat) as int);
    lemma_div_denominator(start, bs, pow2(index_bits as nat) as int);
}

/// A cache with contents `view` holds the block that `address` lies in.
pub open spec fn holds_address(view: Seq<Slots>, address: u64, index_bits: u64, offset_bits: u64) -> bool {
    let d = decode(address, index_bits, offset_bits);
    holds_tag(view[d.index as int], d.tag)
}

/// The first address of the page that `address` lies in.
pub open spec fn page_base(address: u64, page_size: u64) -> nat {
    (address as nat / page_size as nat) * page_size as nat
}

/// Builds the decoded addresses of the blocks of the page that
/// `physical_address` lies in.
pub fn page_blocks(
    physical_address: u64,
    page_size: u64,
    block_size: u64,
    index_bits: u64,
    offset_bits: u64,
) -> (r: Vec<BlockAddress>)
    requires
        1 <= block_size <= page_size,
        index_bits + offset_bits <= crate::trace::ADDRESS_BITS,
        page_base(physical_address, page_size) + page_size <= u64::MAX,
    ensures
        r@ == page_block_addresses(
            page_base(physical_address, page_size),
            (page_size / block_size) as nat,
            block_size as nat,
            index_bits,
            offset_bits,
        ),
{
    let number_of_blocks = page_size / block_size;
    proof {
        vstd::arithmetic::div_mod::lemma_fundamental_div_mod(physical_address as int, page_size as int);
        vstd::arithmetic::div_mod::lemma_mod_pos_bound(physical_address as int, page_size as int);
        vstd::arithmetic::div_mod::lemma_fundamental_div_mod(page_size as int, block_size as int);
        vstd::arithmetic::div_mod::lemma_mod_pos_bound(page_size as int, block_size as int);
        assert(page_base(physical_address, page_size) == page_size * (physical_address / page_size)) by (nonlinear_arith);
    }
    let base = physical_address - physical_address % page_size;
    let ghost spec_addresses = page_block_addresses(
        base as nat,
        number_of_blocks as nat,
        block_size as nat,
        index_bits,
        offset_bits,
    );
    let mut addresses: Vec<BlockAddress> = Vec::new();
    let mut k: u64 = 0;
    while k < number_of_blocks
        invariant
            k <= number_of_blocks,
            block_size >= 1,
            spec_addresses.len() == number_of_blocks,
            spec_addresses == page_block_addresses(
                base as nat,
                number_of_blocks as nat,
                block_size as nat,
                index_bits,
                offset_bits,
            ),
            number_of_blocks * block_size <= page_size,
            base + page_size <= u64::MAX,
            index_bits + offset_bits <= crate::trace::ADDRESS_BITS,
            addresses@ == spec_addresses.subrange(0, k as int),
        decreases number_of_blocks - k,
    {
        assert(k * block_size < page_size) by (nonlinear_arith)
            requires
                k < number_of_blocks,
                number_of_blocks * block_size <= page_size,
                block_size >= 1,
        ;
        let address = base + k * block_size;
        addresses.push(BlockAddress::new(address, index_bits, offset_bits));
        assert(addresses@ =~= spec_addresses.subrange(0, k + 1));
        k += 1;
    }
    assert(addresses@ =~= spec_addresses);
    addresses
}

/// The first-level data cache: a cache with a write-allocation policy and
/// access counters.
#[derive(Clone, Debug)]
pub struct DataCache {
    pub cache: Cache,
    /// A write miss loads the block when set (write-back); it does not when
    /// clear (write-through).
    pub is_write_allocate: bool,
    pub total_read_misses: u64,
    pub total_write_misses: u64,
    pub total_reads: u64,
    pub total_writes: u64,
}

impl View for DataCache {
    type V = Seq<Slots>;

    open spec fn view(&self) -> Seq<Slots> {
        self.cache@
    }
}

impl DataCache {
    /// The cache is well formed and no counter of misses exceeds its count
    /// of accesses.
    pub open spec fn wf(&self) -> bool {
        &&& self.cache.wf()
        &&& self.total_read_misses <= self.total_reads
        &&& self.total_write_misses <= self.total_writes
    }

    /// The counters after an access that did or did not hit.
    pub open spec fn counted(&self, old: DataCache, is_read: bool, hit: bool) -> bool {
        &&& self.total_reads == old.total_reads + if is_read {
            1int
        } else {
            0int
        }
        &&& self.total_writes == old.total_writes + if is_read {
            0int
        } else {
            1int
        }
        &&& self.total_read_misses == old.total_read_misses + if is_read && !hit {
            1int
        } else {
            0int
        }
        &&& self.total_write_misses == old.total_write_misses + if !is_read && !hit {
            1int
        } else {
            0int
        }
    }

    pub(crate) fn new(
        sets: usize,
        block_size: u64,
        associativity: u64,
        evict_policy: EvictionPolicy,
        is_write_allocate: bool,
    ) -> (r: Self)
        requires
            sets >= 1,
            1 <= associativity <= usize::MAX,
        ensures
            r.wf(),
            r@.len() == sets,
            forall|i: int| 0 <= i < sets ==> #[trigger] r@[i] == Seq::new(associativity as nat, |j: int| None::<Block>),
            r.cache.block_size() == block_size,
            r.cache.associativity == associativity,
            r.cache.evict_policy == evict_policy,
            r.is_write_allocate == is_write_allocate,
            r.total_reads == 0 && r.total_writes == 0,
            r.total_read_misses == 0 && r.total_write_misses == 0,
            forall|time: u64| r.cache.touched_by(time),
    {
        DataCache {
            cache: Cache::new(sets, block_size, associativity, evict_policy),
            is_write_allocate,
            total_read_misses: 0,
            total_write_misses: 0,
            total_reads: 0,
            total_writes: 0,
        }
    }

    /// A fully associative data cache of `size_in_bytes` bytes.
    pub fn new_fully_associative(
        size_in_bytes: u64,
        block_size: u64,
        evict_policy: EvictionPolicy,
        is_write_allocate: bool,
    ) -> (r: Self)
        requires
            block_size >= 1,
            size_in_bytes / block_size >= 1,
            size_in_bytes / block_size <= usize::MAX,
        ensures
            r.wf(),
            r@.len() == 1,
            r.cache.associativity == size_in_bytes / block_size,
            r.cache.block_size() == block_size,
            r.cache.evict_policy == evict_policy,
            r.is_write_allocate == is_write_allocate,
            forall|i: int| 0 <= i < r@.len() ==> #[trigger] r@[i] == Seq::new(r.cache.associativity as nat, |j: int| None::<Block>),
            r.total_reads == 0 && r.total_writes == 0,
            r.total_read_misses == 0 && r.total_write_misses == 0,
            forall|time: u64| r.cache.touched_by(time),
    {
        let number_of_blocks = size_in_bytes / block_size;
        Self::new(1, block_size, number_of_blocks, evict_policy, is_write_allocate)
    }

    /// A direct-mapped data cache of `size_in_bytes` bytes.
    pub fn new_direct_mapped(
        size_in_bytes: u64,
        block_size: u64,
        evict_policy: EvictionPolicy,
        is_write_allocate: bool,
    ) -> (r: Self)
        requires
            block_size >= 1,
            size_in_bytes / block_size >= 1,
            size_in_bytes / block_size <= usize::MAX,
        ensures
            r.wf(),
            r@.len() == size_in_bytes / block_size,
            r.cache.associativity == 1,
            r.cache.block_size() == block_size,
            r.cache.evict_policy == evict_policy,
            r.is_write_allocate == is_write_allocate,
            forall|i: int| 0 <= i < r@.len() ==> #[trigger] r@[i] == Seq::new(r.cache.associativity as nat, |j: int| None::<Block>),
            r.total_reads == 0 && r.total_writes == 0,
            r.total_read_misses == 0 && r.total_write_misses == 0,
            forall|time: u64| r.cache.touched_by(time),
    {
        let number_of_sets = size_in_bytes / block_size;
        Self::new(number_of_sets as usize, block_size, 1, evict_policy, is_write_allocate)
    }

    /// A set-associative data cache of `size_in_bytes` bytes.
    pub fn new_set_associative(
        associativity: u64,
        size_in_bytes: u64,
        block_size: u64,
        evict_policy: EvictionPolicy,
        is_write_allocate: bool,
    ) -> (r: Self)
        requires
            block_size >= 1,
            1 <= associativity <= usize::MAX,
            (size_in_bytes / block_size) / associativity >= 1,
            (size_in_bytes / block_size) / associativity <= usize::MAX,
        ensures
            r.wf(),
            r@.len() == (size_in_bytes / block_size) / associativity,
            r.cache.associativity == associativity,
            r.cache.block_size() == block_size,
            r.cache.evict_policy == evict_policy,
            r.is_write_allocate == is_write_allocate,
            forall|i: int| 0 <= i < r@.len() ==> #[trigger] r@[i] == Seq::new(r.cache.associativity as nat, |j: int| None::<Block>),
            r.total_reads == 0 && r.total_writes == 0,
            r.total_read_misses == 0 && r.total_write_misses == 0,
            forall|time: u64| r.cache.touched_by(time),
    {
        let number_of_sets = (size_in_bytes / block_size) / associativity;
        Self::new(
            number_of_sets as usize,
            block_size,
            associativity,
            evict_policy,
            is_write_allocate,
        )
    }

    /// The data cache that the configuration describes: LRU, empty.
    pub fn new_from_config(config: &SimulatorConfig) -> (r: Self)
        requires
            config.wf(),
        ensures
            r.wf(),
            r@.len() == config.data_cache.number_of_sets,
            forall|i: int| 0 <= i < r@.len() ==> #[trigger] r@[i] == Seq::new(config.data_cache.set_size as nat, |j: int| None::<Block>),
            r.cache.block_size() == config.data_cache.line_size,
            r.cache.associativity == config.data_cache.set_size,
            r.cache.evict_policy == EvictionPolicy::LRU,
            r.is_write_allocate == !config.data_cache.write_through,
            r.total_reads == 0 && r.total_writes == 0,
            r.total_read_misses == 0 && r.total_write_misses == 0,
            forall|time: u64| r.cache.touched_by(time),
    {
        proof {
            lemma_pow2_log2(config.data_cache.number_of_sets);
            lemma_pow2_log2(config.data_cache.set_size);
        }
        let number_of_sets = config.data_cache.get_number_of_sets();
        let associativity = config.data_cache.get_associativity();
        let block_size = config.data_cache.get_block_size();
        let evict_policy = config.data_cache.get_eviction_policy();
        let is_write_allocate = config.data_cache.is_write_allocate();
        Self::new(number_of_sets as usize, block_size, associativity, evict_policy, is_write_allocate)
    }

    /// Writes the block at `address`; a miss loads it only under write
    /// allocation. Returns whether it was a hit.
    pub fn write(&mut self, address: BlockAddress, current_access_time: u64) -> (r: bool)
        requires
            old(self).wf(),
            address.index < old(self)@.len(),
            old(self).cache.touched_by(current_access_time),
            old(self).total_writes < u64::MAX,
        ensures
            final(self).wf(),
            final(self).cache.touched_by(current_access_time),
            final(self).cache.associativity == old(self).cache.associativity,
            final(self).cache.evict_policy == old(self).cache.evict_policy,
            final(self).cache.block_size() == old(self).cache.block_size(),
            final(self).is_write_allocate == old(self).is_write_allocate,
            final(self)@ == old(self)@.update(address.index as int, final(self)@[address.index as int]),
            r == holds_tag(old(self)@[address.index as int], address.tag),
            accessed(
                old(self)@[address.index as int],
                final(self)@[address.index as int],
                old(self).cache.evict_policy,
                address,
                old(self).cache.block_size(),
                current_access_time,
                true,
                old(self).is_write_allocate,
            ),
            final(self).counted(*old(self), false, r),
    {
        self.total_writes += 1;
        let result = if self.is_write_allocate {
            self.cache.is_write_and_allocate_hit(address, current_access_time)
        } else {
            self.cache.try_write(address, current_access_time)
        };
        if !result {
            self.total_write_misses += 1;
        }
        result
    }

    /// Reads the block at `address`, loading it on a miss. Returns whether
    /// it was a hit.
    pub fn read(&mut self, address: BlockAddress, current_access_time: u64) -> (r: bool)
        requires
            old(self).wf(),
            address.index < old(self)@.len(),
            old(self).cache.touched_by(current_access_time),
            old(self).total_reads < u64::MAX,
        ensures
            final(self).wf(),
            final(self).cache.touched_by(current_access_time),
            final(self).cache.associativity == old(self).cache.associativity,
            final(self).cache.evict_policy == old(self).cache.evict_policy,
            final(self).cache.block_size() == old(self).cache.block_size(),
            final(self).is_write_allocate == old(self).is_write_allocate,
            final(self)@ == old(self)@.update(address.index as int, final(self)@[address.index as int]),
            r == holds_tag(old(self)@[address.index as int], address.tag),
            accessed(
                old(self)@[address.index as int],
                final(self)@[address.index as int],
                old(self).cache.evict_policy,
                address,
                old(self).cache.block_size(),
                current_access_time,
                false,
                true,
            ),
            final(self).counted(*old(self), true, r),
    {
        self.total_reads += 1;
        let result = self.cache.is_read_and_allocate_hit(address, current_access_time);
        if !result {
            self.total_read_misses += 1;
        }
        result
    }

    /// Reads or writes the block at `address`; returns whether it was a hit.
    pub fn access(&mut self, is_read: bool, address: BlockAddress, current_access_time: u64) -> (r:
        bool)
        requires
            old(self).wf(),
            address.index < old(self)@.len(),
            old(self).cache.touched_by(current_access_time),
            old(self).total_reads < u64::MAX,
            old(self).total_writes < u64::MAX,
        ensures
            final(self).wf(),
            final(self).cache.touched_by(current_access_time),
            final(self).cache.associativity == old(self).cache.associativity,
            final(self).cache.evict_policy == old(self).cache.evict_policy,
            final(self).cache.block_size() == old(self).cache.block_size(),
            final(self).is_write_allocate == old(self).is_write_allocate,
            final(self)@ == old(self)@.update(address.index as int, final(self)@[address.index as int]),
            r == holds_tag(old(self)@[address.index as int], address.tag),
            accessed(
                old(self)@[address.index as int],
                final(self)@[address.index as int],
                old(self).cache.evict_policy,
                address,
                old(self).cache.block_size(),
                current_access_time,
                !is_read,
                is_read || old(self).is_write_allocate,
            ),
            final(self).counted(*old(self), is_read, r),
    {
        if is_read {
            self.read(address, current_access_time)
        } else {
            self.write(address, current_access_time)
        }
    }

    /// Removes every block of the page that `physical_address` lies in;
    /// returns the blocks removed.
    pub fn invalidate_page(&mut self, physical_address: u64, config: &SimulatorConfig) -> (r: Vec<
        Block,
    >)
        requires
            old(self).wf(),
            config.wf(),
            old(self)@.len() == config.data_cache.number_of_sets,
            config.data_cache.line_size <= config.page_table.page_size,
            page_base(physical_address, config.page_table.page_size) + config.page_table.page_size
                <= u64::MAX,
        ensures
            final(self).wf(),
            forall|time: u64| #[trigger] old(self).cache.touched_by(time) ==> final(self).cache.touched_by(time),
            final(self).cache.associativity == old(self).cache.associativity,
            final(self).cache.evict_policy == old(self).cache.evict_policy,
            final(self).cache.block_size() == old(self).cache.block_size(),
            final(self).is_write_allocate == old(self).is_write_allocate,
            final(self).total_reads == old(self).total_reads,
            final(self).total_writes == old(self).total_writes,
            final(self).total_read_misses == old(self).total_read_misses,
            final(self).total_write_misses == old(self).total_write_misses,
            invalidated(
                old(self)@,
                final(self)@,
                page_block_addresses(
                    page_base(physical_address, config.page_table.page_size),
                    (config.page_table.page_size / config.data_cache.line_size) as nat,
                    config.data_cache.line_size as nat,
                    log2(config.data_cache.number_of_sets) as u64,
                    log2(config.data_cache.line_size) as u64,
                ),
                r@,
            ),
    {
        proof {
            lemma_pow2_log2(config.data_cache.number_of_sets);
            lemma_pow2_log2(config.data_cache.line_size);
        }
        let index_bits = config.get_data_cache_index_bits();
        let offset_bits = config.get_data_cache_offset_bits();
        let addresses = page_blocks(
            physical_address,
            config.get_page_size(),
            config.data_cache.get_block_size(),
            index_bits,
            offset_bits,
        );
        proof {
            assert forall|m: int| 0 <= m < addresses@.len() implies (#[trigger] addresses@[m]).index
                < self.cache.sets@.len() by {
                let base = page_base(physical_address, config.page_table.page_size);
                lemma_decode_index_bound(
                    (base + m * config.data_cache.line_size) as u64,
                    index_bits,
                    offset_bits,
                );
            }
        }
        self.cache.invalidate_all(&addresses)
    }
}

} // verus!
