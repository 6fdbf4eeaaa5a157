use crate::cache::{accessed, invalidated, Block, EvictionPolicy, Slots, holds_tag};
use crate::config::{lemma_pow2_log2, log2, SimulatorConfig};
use crate::dc::{page_base, page_block_addresses, page_blocks, DataCache};
use crate::trace::{lemma_decode_index_bound, BlockAddress};
use vstd::prelude::*;

verus! {

/// The second-level cache: the same policy wrapper as the data cache, built
/// from the second-level geometry.
#[derive(Clone, Debug)]
pub struct L2Cache {
    pub inner: DataCache,
}

impl View for L2Cache {
    type V = Seq<Slots>;

    open spec fn view(&self) -> Seq<Slots> {
        self.inner@
    }
}

impl L2Cache {
    pub open spec fn wf(&self) -> bool {
        self.inner.wf()
    }

    /// The second-level cache that the configuration describes: LRU, empty.
    pub fn new_from_config(config: &SimulatorConfig) -> (r: Self)
        requires
            config.wf(),
        ensures
            r.wf(),
            r@.len() == config.l2_cache.number_of_sets,
            forall|i: int| 0 <= i < r@.len() ==> #[trigger] r@[i] == Seq::new(config.l2_cache.set_size as nat, |j: int| None::<Block>),
            r.inner.cache.block_size() == config.l2_cache.line_size,
            r.inner.cache.associativity == config.l2_cache.set_size,
            r.inner.cache.evict_policy == EvictionPolicy::LRU,
            r.inner.is_write_allocate == !config.l2_cache.write_through,
            r.inner.total_reads == 0 && r.inner.total_writes == 0,
            r.inner.total_read_misses == 0 && r.inner.total_write_misses == 0,
            forall|time: u64| r.inner.cache.touched_by(time),
    {
        proof {
            lemma_pow2_log2(config.l2_cache.number_of_sets);
            lemma_pow2_log2(config.l2_cache.set_size);
        }
        let number_of_sets = config.l2_cache.get_number_of_sets();
        let associativity = config.l2_cache.get_associativity();
        let block_size = config.l2_cache.get_block_size();
        let is_write_allocate = config.l2_cache.is_write_allocate();
        let inner = DataCache::new(
            number_of_sets as usize,
            block_size,
            associativity,
            config.l2_cache.get_eviction_policy(),
            is_write_allocate,
        );
        L2Cache { inner }
    }

    /// Reads or writes the block at `address`; returns whether it was a hit.
    pub fn access(&mut self, is_read: bool, address: BlockAddress, current_access_time: u64) -> (r:
        bool)
        requires
            old(self).wf(),
            address.index < old(self)@.len(),
            old(self).inner.cache.touched_by(current_access_time),
            old(self).inner.total_reads < u64::MAX,
            old(self).inner.total_writes < u64::MAX,
        ensures
            final(self).wf(),
            final(self).inner.cache.touched_by(current_access_time),
            final(self).inner.cache.associativity == old(self).inner.cache.associativity,
            final(self).inner.cache.evict_policy == old(self).inner.cache.evict_policy,
            final(self).inner.cache.block_size() == old(self).inner.cache.block_size(),
            final(self).inner.is_write_allocate == old(self).inner.is_write_allocate,
            final(self)@ == old(self)@.update(address.index as int, final(self)@[address.index as int]),
            r == holds_tag(old(self)@[address.index as int], address.tag),
            accessed(
                old(self)@[address.index as int],
                final(self)@[address.index as int],
                old(self).inner.cache.evict_policy,
                address,
                old(self).inner.cache.block_size(),
                current_access_time,
                !is_read,
                is_read || old(self).inner.is_write_allocate,
            ),
            final(self).inner.counted(old(self).inner, is_read, r),
    {
        self.inner.access(is_read, address, current_access_time)
    }

    /// Removes every block of the page that `physical_address` lies in;
    /// returns the blocks removed.
    pub fn invalidate_page(&mut self, physical_address: u64, config: &SimulatorConfig) -> (r: Vec<
        Block,
    >)
        requires
            old(self).wf(),
            config.wf(),
            old(self)@.len() == config.l2_cache.number_of_sets,
            config.l2_cache.line_size <= config.page_table.page_size,
            page_base(physical_address, config.page_table.page_size) + config.page_table.page_size
                <= u64::MAX,
        ensures
            final(self).wf(),
            forall|time: u64| #[trigger] old(self).inner.cache.touched_by(time) ==> final(self).inner.cache.touched_by(time),
            final(self).inner.cache.associativity == old(self).inner.cache.associativity,
            final(self).inner.cache.evict_policy == old(self).inner.cache.evict_policy,
            final(self).inner.cache.block_size() == old(self).inner.cache.block_size(),
            final(self).inner.is_write_allocate == old(self).inner.is_write_allocate,
            final(self).inner.total_reads == old(self).inner.total_reads,
            final(self).inner.total_writes == old(self).inner.total_writes,
            invalidated(
                old(self)@,
                final(self)@,
                page_block_addresses(
                    page_base(physical_address, config.page_table.page_size),
                    (config.page_table.page_size / config.l2_cache.line_size) as nat,
                    config.l2_cache.line_size as nat,
                    log2(config.l2_cache.number_of_sets) as u64,
                    log2(config.l2_cache.line_size) as u64,
                ),
                r@,
            ),
    {
        proof {
            lemma_pow2_log2(config.l2_cache.number_of_sets);
            lemma_pow2_log2(config.l2_cache.line_size);
        }
        let index_bits = config.get_l2_cache_index_bits();
        let offset_bits = config.get_l2_cache_offset_bits();
        let addresses = page_blocks(
            physical_address,
            config.get_page_size(),
            config.l2_cache.get_block_size(),
            index_bits,
            offset_bits,
        );
        proof {
            assert forall|m: int| 0 <= m < addresses@.len() implies (#[trigger] addresses@[m]).index
                < self.inner.cache.sets@.len() by {
                let base = page_base(physical_address, config.page_table.page_size);
                lemma_decode_index_bound(
                    (base + m * config.l2_cache.line_size) as u64,
                    index_bits,
                    offset_bits,
                );
            }
        }
        self.inner.cache.invalidate_all(&addresses)
    }
}

} // verus!
