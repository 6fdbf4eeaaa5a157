use crate::cache::{invalidated, Block, Cache, EvictionPolicy, Slots, holds_tag, after_touch, filled};
use crate::config::{lemma_pow2_log2, log2, SimulatorConfig};
use crate::pagetable::{PageTable, PageTableEntry};
use crate::trace::{decode, lemma_decode_index_bound, BlockAddress};
use vstd::prelude::*;

verus! {

/// The TLB key of the page that `virtual_address` lies in.
pub open spec fn tlb_key(virtual_address: u64, config: SimulatorConfig) -> BlockAddress {
    decode(
        (virtual_address / config.page_table.page_size) as u64,
        log2(config.tlb.number_of_sets) as u64,
        0,
    )
}

/// Entry `i` of `entries` maps frame `p`.
pub open spec fn maps_frame(entries: Seq<Option<PageTableEntry>>, i: int, p: nat) -> bool {
    0 <= i < entries.len() && entries[i] is Some && entries[i]->Some_0.ppn() == p
}

/// The TLB keys of the entries among the first `n` that map frame `p`, in
/// entry order.
pub open spec fn frame_keys(
    entries: Seq<Option<PageTableEntry>>,
    n: int,
    p: nat,
    config: SimulatorConfig,
) -> Seq<BlockAddress>
    decreases n,
{
    if n <= 0 {
        Seq::empty()
    } else {
        let rest = frame_keys(entries, n - 1, p, config);
        if maps_frame(entries, n - 1, p) {
            rest.push(tlb_key(entries[n - 1]->Some_0.virtual_address, config))
        } else {
            rest
        }
    }
}

/// Each key of `frame_keys` is the key of an entry that maps the frame.
pub proof fn lemma_frame_keys_sound(
    entries: Seq<Option<PageTableEntry>>,
    n: int,
    p: nat,
    config: SimulatorConfig,
    m: int,
)
    requires
        0 <= n <= entries.len(),
        0 <= m < frame_keys(entries, n, p, config).len(),
    ensures
        exists|i: int|
            0 <= i < n && maps_frame(entries, i, p) && frame_keys(entries, n, p, config)[m] == tlb_key(
                entries[i]->Some_0.virtual_address,
                config,
            ),
    decreases n,
{
    let rest = frame_keys(entries, n - 1, p, config);
    if m < rest.len() {
        lemma_frame_keys_sound(entries, n - 1, p, config, m);
    } else {
        assert(maps_frame(entries, n - 1, p));
    }
}

/// The key of each entry that maps the frame is among `frame_keys`.
pub proof fn lemma_frame_keys_complete(
    entries: Seq<Option<PageTableEntry>>,
    n: int,
    p: nat,
    config: SimulatorConfig,
    i: int,
)
    requires
        0 <= i < n <= entries.len(),
        maps_frame(entries, i, p),
    ensures
        exists|m: int|
            0 <= m < frame_keys(entries, n, p, config).len() && frame_keys(entries, n, p, config)[m]
                == tlb_key(entries[i]->Some_0.virtual_address, config),
    decreases n,
{
    let keys = frame_keys(entries, n, p, config);
    let rest = frame_keys(entries, n - 1, p, config);
    if i < n - 1 {
        lemma_frame_keys_complete(entries, n - 1, p, config, i);
        let m = choose|m: int| 0 <= m < rest.len() && rest[m] == tlb_key(entries[i]->Some_0.virtual_address, config);
        assert(keys[m] == rest[m]);
    } else {
        assert(keys[rest.len() as int] == tlb_key(entries[i]->Some_0.virtual_address, config));
    }
}

/// Each key of `frame_keys` selects a set of the TLB.
pub proof fn lemma_frame_keys_in_range(
    entries: Seq<Option<PageTableEntry>>,
    n: int,
    p: nat,
    config: SimulatorConfig,
)
    requires
        0 <= n <= entries.len(),
        config.wf(),
    ensures
        forall|m: int|
            0 <= m < frame_keys(entries, n, p, config).len() ==> (#[trigger] frame_keys(
                entries,
                n,
                p,
                config,
            )[m]).index < config.tlb.number_of_sets,
    decreases n,
{
    if n > 0 {
        lemma_frame_keys_in_range(entries, n - 1, p, config);
        lemma_pow2_log2(config.tlb.number_of_sets);
        lemma_pow2_log2(config.page_table.page_size);
        let keys = frame_keys(entries, n, p, config);
        let rest = frame_keys(entries, n - 1, p, config);
        assert forall|m: int| 0 <= m < keys.len() implies (#[trigger] keys[m]).index
            < config.tlb.number_of_sets by {
            if m < rest.len() {
                assert(keys[m] == rest[m]);
            } else {
                let e = entries[n - 1]->Some_0;
                lemma_decode_index_bound(
                    (e.virtual_address / config.page_table.page_size) as u64,
                    log2(config.tlb.number_of_sets) as u64,
                    0,
                );
            }
        }
    }
}

/// Collects the TLB keys of the entries that map frame `frame`.
fn collect_frame_keys(
    entries: &Vec<Option<PageTableEntry>>,
    frame: u64,
    config: &SimulatorConfig,
) -> (r: Vec<BlockAddress>)
    requires
        config.wf(),
        forall|i: int| 0 <= i < entries@.len() && (#[trigger] entries@[i]) is Some ==> entries@[i]->Some_0.page_size >= 1,
    ensures
        r@ == frame_keys(entries@, entries@.len() as int, frame as nat, *config),
{
    let mut keys: Vec<BlockAddress> = Vec::new();
    let mut i: usize = 0;
    while i < entries.len()
        invariant
            config.wf(),
            forall|i: int| 0 <= i < entries@.len() && (#[trigger] entries@[i]) is Some ==> entries@[i]->Some_0.page_size >= 1,
            i <= entries@.len(),
            keys@ == frame_keys(entries@, i as int, frame as nat, *config),
        decreases entries@.len() - i,
    {
        if let Some(entry) = entries[i] {
            if entry.get_physical_page_number() == frame {
                keys.push(BlockAddress::new_tlb_address(entry.get_virtual_address(), config));
            }
        }
        i += 1;
    }
    keys
}

/// `new` is the TLB `old` after looking key `address` up at `time` and
/// loading it on a miss (blocks of `size` bytes, LRU).
pub open spec fn looked_up(old: Seq<Slots>, new: Seq<Slots>, address: BlockAddress, size: u64, time: u64) -> bool {
    let i = address.index as int;
    &&& new == old.update(i, new[i])
    &&& holds_tag(old[i], address.tag) ==> new[i] == after_touch(old[i], address.tag, time, false)
    &&& !holds_tag(old[i], address.tag) ==> exists|e: Option<Block>|
        filled(old[i], new[i], EvictionPolicy::LRU, address, size, time, false, e)
}

/// A cache of translations keyed by virtual page number.
#[derive(Clone, Debug)]
pub struct TLBCache {
    pub cache: Cache,
}

impl View for TLBCache {
    type V = Seq<Slots>;

    open spec fn view(&self) -> Seq<Slots> {
        self.cache@
    }
}

impl TLBCache {
    /// An empty TLB.
    pub fn new(sets: usize, block_size: u64, associativity: u64, evict_policy: EvictionPolicy) -> (r:
        Self)
        requires
            sets >= 1,
            1 <= associativity <= usize::MAX,
        ensures
            r.cache.wf(),
            r@.len() == sets,
            forall|i: int| 0 <= i < sets ==> #[trigger] r@[i] == Seq::new(associativity as nat, |j: int| None::<Block>),
            r.cache.block_size() == block_size,
            r.cache.associativity == associativity,
            r.cache.evict_policy == evict_policy,
            forall|time: u64| r.cache.touched_by(time),
    {
        TLBCache { cache: Cache::new(sets, block_size, associativity, evict_policy) }
    }

    /// The TLB that the configuration describes: one block per page, LRU.
    pub fn new_from_config(config: &SimulatorConfig) -> (r: Self)
        requires
            config.wf(),
        ensures
            r.cache.wf(),
            r@.len() == config.tlb.number_of_sets,
            forall|i: int| 0 <= i < r@.len() ==> #[trigger] r@[i] == Seq::new(config.tlb.set_size as nat, |j: int| None::<Block>),
            r.cache.block_size() == config.page_table.page_size,
            r.cache.associativity == config.tlb.set_size,
            r.cache.evict_policy == EvictionPolicy::LRU,
            forall|time: u64| r.cache.touched_by(time),
    {
        proof {
            lemma_pow2_log2(config.tlb.number_of_sets);
            lemma_pow2_log2(config.tlb.set_size);
        }
        let number_of_sets = config.tlb.get_number_of_sets();
        let entries_in_set = config.tlb.get_entries_in_set();
        let block_size = config.get_page_size();
        let evict_policy = config.tlb.get_eviction_policy();
        Self::new(number_of_sets as usize, block_size, entries_in_set, evict_policy)
    }

    /// Looks the page key `address` up, loading it on a miss; returns
    /// whether it was a hit.
    pub fn translate(&mut self, address: BlockAddress, current_access_time: u64) -> (r: bool)
        requires
            old(self).cache.wf(),
            address.index < old(self)@.len(),
            old(self).cache.touched_by(current_access_time),
        ensures
            final(self).cache.wf(),
            final(self).cache.touched_by(current_access_time),
            old(self).cache.evict_policy == EvictionPolicy::LRU ==> looked_up(
                old(self)@,
                final(self)@,
                address,
                old(self).cache.block_size(),
                current_access_time,
            ),
            final(self).cache.associativity == old(self).cache.associativity,
            final(self).cache.evict_policy == old(self).cache.evict_policy,
            final(self).cache.block_size() == old(self).cache.block_size(),
            final(self)@ == old(self)@.update(address.index as int, final(self)@[address.index as int]),
            r == holds_tag(old(self)@[address.index as int], address.tag),
            r ==> final(self)@[address.index as int] == after_touch(
                old(self)@[address.index as int],
                address.tag,
                current_access_time,
                false,
            ),
            !r ==> exists|e: Option<Block>|
                filled(
                    old(self)@[address.index as int],
                    final(self)@[address.index as int],
                    old(self).cache.evict_policy,
                    address,
                    old(self).cache.block_size(),
                    current_access_time,
                    false,
                    e,
                ),
    {
        let r = self.cache.is_read_and_allocate_hit(address, current_access_time);
        proof {
            if !r {
                let e = choose|e: Option<Block>|
                    filled(
                        old(self).cache@[address.index as int],
                        self.cache@[address.index as int],
                        old(self).cache.evict_policy,
                        address,
                        old(self).cache.block_size(),
                        current_access_time,
                        false,
                        e,
                    );
                assert(filled(
                    old(self)@[address.index as int],
                    self@[address.index as int],
                    old(self).cache.evict_policy,
                    address,
                    old(self).cache.block_size(),
                    current_access_time,
                    false,
                    e,
                ));
            }
        }
        r
    }

    /// Removes the TLB lines of every page that the page table maps to the
    /// frame that `physical_address` lies in; returns the lines removed.
    pub fn invalidate_page(
        &mut self,
        physical_address: u64,
        page_table: &mut PageTable,
        config: &SimulatorConfig,
    ) -> (r: Vec<Block>)
        requires
            old(self).cache.wf(),
            old(page_table).wf(),
            config.wf(),
            old(self)@.len() == config.tlb.number_of_sets,
            old(page_table).page_size == config.page_table.page_size,
        ensures
            final(self).cache.wf(),
            *final(page_table) == *old(page_table),
            forall|time: u64| #[trigger] old(self).cache.touched_by(time) ==> final(self).cache.touched_by(time),
            final(self).cache.associativity == old(self).cache.associativity,
            final(self).cache.evict_policy == old(self).cache.evict_policy,
            final(self).cache.block_size() == old(self).cache.block_size(),
            invalidated(
                old(self)@,
                final(self)@,
                frame_keys(
                    old(page_table).entries@,
                    old(page_table).entries@.len() as int,
                    physical_address as nat / config.page_table.page_size as nat,
                    *config,
                ),
                r@,
            ),
    {
        let page_size = config.get_page_size();
        let frame = physical_address / page_size;
        let keys = collect_frame_keys(page_table.get_entries(), frame, config);
        proof {
            lemma_frame_keys_in_range(page_table.entries@, page_table.entries@.len() as int, frame as nat, *config);
        }
        self.cache.invalidate_all(&keys)
    }
}

} // verus!
