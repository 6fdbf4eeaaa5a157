use crate::trace::BlockAddress;
use vstd::prelude::*;

verus! {

/// Relies on rand::random::<usize>: an arbitrary `usize`; nothing is known of
/// its value.
pub assume_specification<T>[ rand::random::<T> ]() -> (r: T)
    where
        rand::distributions::Standard: rand::distributions::Distribution<T>,
;

/// The rule that picks the block to evict from a full set.
#[derive(Clone, Copy, Debug, PartialEq, Eq, Structural)]
pub enum EvictionPolicy {
    /// Evict the least recently used block.
    LRU,
    /// Evict the block that was loaded first.
    FIFO,
    /// Evict a block picked at random.
    Random,
}

/// A line resident in a cache. It carries no data, only its bookkeeping.
#[derive(Clone, Copy, Debug, PartialEq, Eq, Structural)]
pub struct Block {
    /// The uppermost bits of the addresses the block holds.
    pub tag: u64,
    /// The index of the set the block lives in.
    pub index: u64,
    /// Set when the block has been written since it was loaded.
    pub dirty: bool,
    /// The size of the block in bytes.
    pub size: u64,
    /// The time of the last access.
    pub last_access: u64,
    /// The time the block was loaded.
    pub first_access: u64,
}

/// The contents of a set: one optional block per way.
pub type Slots = Seq<Option<Block>>;

/// The block that a fill of `address` at time `time` puts in a set.
pub open spec fn fresh_block(address: BlockAddress, size: u64, time: u64, write: bool) -> Block {
    Block {
        tag: address.tag,
        index: address.index,
        dirty: write,
        size,
        last_access: time,
        first_access: time,
    }
}

/// `b` after a read (`write == false`) or a write at time `time`.
pub open spec fn touched(b: Block, time: u64, write: bool) -> Block {
    Block { last_access: time, dirty: b.dirty || write, ..b }
}

/// Slot `i` holds a block with tag `tag`.
pub open spec fn has_tag_at(s: Slots, i: int, tag: u64) -> bool {
    0 <= i < s.len() && s[i] is Some && s[i]->Some_0.tag == tag
}

/// Some slot holds a block with tag `tag`.
pub open spec fn holds_tag(s: Slots, tag: u64) -> bool {
    exists|i: int| has_tag_at(s, i, tag)
}

/// The slot that holds tag `tag` (meaningful when `holds_tag(s, tag)`).
pub open spec fn slot_of(s: Slots, tag: u64) -> int {
    choose|i: int| has_tag_at(s, i, tag)
}

/// The block with tag `tag`, if any.
pub open spec fn lookup(s: Slots, tag: u64) -> Option<Block> {
    if holds_tag(s, tag) {
        s[slot_of(s, tag)]
    } else {
        None
    }
}

/// `s` after a read or write of tag `tag` at `time` that does not allocate.
pub open spec fn after_touch(s: Slots, tag: u64, time: u64, write: bool) -> Slots {
    if holds_tag(s, tag) {
        s.update(slot_of(s, tag), Some(touched(s[slot_of(s, tag)]->Some_0, time, write)))
    } else {
        s
    }
}

/// No two present blocks share a tag.
pub open spec fn tags_unique(s: Slots) -> bool {
    forall|i: int, j: int|
        0 <= i < s.len() && 0 <= j < s.len() && i != j && s[i] is Some && s[j] is Some
            ==> s[i]->Some_0.tag != s[j]->Some_0.tag
}

/// Every slot holds a block.
pub open spec fn all_present(s: Slots) -> bool {
    forall|i: int| 0 <= i < s.len() ==> s[i] is Some
}

/// The number of slots that hold a block.
pub open spec fn present_count(s: Slots) -> nat
    decreases s.len(),
{
    if s.len() == 0 {
        0
    } else {
        present_count(s.drop_last()) + if s.last() is Some {
            1nat
        } else {
            0nat
        }
    }
}

/// The tags of the present blocks, in slot order.
pub open spec fn present_tags(s: Slots) -> Seq<u64>
    decreases s.len(),
{
    if s.len() == 0 {
        Seq::empty()
    } else {
        let rest = present_tags(s.drop_last());
        match s.last() {
            Some(b) => rest.push(b.tag),
            None => rest,
        }
    }
}

/// Slot `k` is the first empty slot.
pub open spec fn is_first_empty(s: Slots, k: int) -> bool {
    &&& 0 <= k < s.len()
    &&& s[k] is None
    &&& forall|j: int| 0 <= j < k ==> s[j] is Some
}

/// The time a policy ranks a block by: its last access for LRU, its
/// first access otherwise.
pub open spec fn rank(policy: EvictionPolicy, b: Block) -> u64 {
    match policy {
        EvictionPolicy::FIFO => b.first_access,
        _ => b.last_access,
    }
}

/// Slot `k` is a block that `policy` may evict from `s`: for LRU and FIFO
/// the first present block of least rank, for Random any present block.
pub open spec fn is_victim(s: Slots, policy: EvictionPolicy, k: int) -> bool {
    &&& 0 <= k < s.len()
    &&& s[k] is Some
    &&& policy != EvictionPolicy::Random ==> {
        &&& forall|j: int|
            0 <= j < s.len() && s[j] is Some ==> rank(policy, s[k]->Some_0) <= rank(
                policy,
                #[trigger] s[j]->Some_0,
            )
        &&& forall|j: int|
            0 <= j < k && s[j] is Some ==> rank(policy, s[k]->Some_0) < rank(
                policy,
                #[trigger] s[j]->Some_0,
            )
    }
}

/// Slot `k` is where a fill goes: the victim when the set is full, the
/// first empty slot otherwise.
pub open spec fn is_fill_slot(s: Slots, policy: EvictionPolicy, k: int) -> bool {
    if all_present(s) {
        is_victim(s, policy, k)
    } else {
        is_first_empty(s, k)
    }
}

/// `new` is `old` after the block of `address` was loaded into the slot
/// the policy picks; `evicted` is what that slot held before.
pub open spec fn filled(
    old: Slots,
    new: Slots,
    policy: EvictionPolicy,
    address: BlockAddress,
    size: u64,
    time: u64,
    write: bool,
    evicted: Option<Block>,
) -> bool {
    exists|k: int|
        #[trigger] is_fill_slot(old, policy, k) && new == old.update(
            k,
            Some(fresh_block(address, size, time, write)),
        ) && evicted == old[k]
}

/// Block `b` sat in some slot of `old` that `new` leaves empty.
pub open spec fn was_removed(old: Seq<Slots>, new: Seq<Slots>, b: Block) -> bool {
    exists|i: int, j: int|
        0 <= i < old.len() && 0 <= j < old[i].len() && old[i][j] == Some(b) && new[i][j] is None
}

/// `new` is `old` after an access of `address` at `time`: a hit touches the
/// block; a miss loads it when `allocate` holds and changes nothing else.
pub open spec fn accessed(
    old: Slots,
    new: Slots,
    policy: EvictionPolicy,
    address: BlockAddress,
    size: u64,
    time: u64,
    write: bool,
    allocate: bool,
) -> bool {
    if holds_tag(old, address.tag) {
        new == after_touch(old, address.tag, time, write)
    } else if allocate {
        exists|e: Option<Block>| filled(old, new, policy, address, size, time, write, e)
    } else {
        new == old
    }
}

/// `new` is `old` with the blocks at `addresses` removed, and `removed`
/// lists the blocks taken out: no block at one of `addresses` is left, no
/// block appears, a block at none of them stays, and each block removed is
/// listed.
pub open spec fn invalidated(
    old: Seq<Slots>,
    new: Seq<Slots>,
    addresses: Seq<BlockAddress>,
    removed: Seq<Block>,
) -> bool {
    &&& new.len() == old.len()
    &&& forall|i: int| 0 <= i < new.len() ==> (#[trigger] new[i]).len() == old[i].len()
    &&& forall|m: int|
        0 <= m < addresses.len() ==> !holds_tag(
            new[(#[trigger] addresses[m]).index as int],
            addresses[m].tag,
        )
    &&& forall|i: int, j: int|
        0 <= i < new.len() && 0 <= j < new[i].len() && (#[trigger] new[i][j]) is Some ==> new[i][j]
            == old[i][j]
    &&& forall|i: int, j: int|
        0 <= i < old.len() && 0 <= j < old[i].len() && (#[trigger] old[i][j]) is Some && !(exists|
            m: int,
        |
            0 <= m < addresses.len() && (#[trigger] addresses[m]).index == i && addresses[m].tag
                == old[i][j]->Some_0.tag) ==> new[i][j] == old[i][j]
    &&& forall|i: int, j: int|
        0 <= i < old.len() && 0 <= j < old[i].len() && (#[trigger] old[i][j]) is Some
            && new[i][j] is None ==> removed.contains(old[i][j]->Some_0)
    &&& forall|m: int| 0 <= m < removed.len() ==> was_removed(old, new, #[trigger] removed[m])
}

/// Every present block was last touched no later than `time`.
pub open spec fn touched_by(s: Slots, time: u64) -> bool {
    forall|i: int| 0 <= i < s.len() && s[i] is Some ==> (#[trigger] s[i])->Some_0.last_access <= time
}

proof fn lemma_slot_of(s: Slots, tag: u64, i: int)
    requires
        tags_unique(s),
        has_tag_at(s, i, tag),
    ensures
        holds_tag(s, tag),
        slot_of(s, tag) == i,
{
    assert(has_tag_at(s, i, tag));
    let j = slot_of(s, tag);
    assert(has_tag_at(s, j, tag));
}

impl Block {
    /// A clean block with the given tag and set index, loaded at
    /// `current_access_time`.
    pub fn new(tag: u64, index: u64, size: u64, current_access_time: u64) -> (r: Self)
        ensures
            r == (Block {
                tag,
                index,
                dirty: false,
                size,
                last_access: current_access_time,
                first_access: current_access_time,
            }),
    {
        Block {
            tag,
            index,
            dirty: false,
            size,
            last_access: current_access_time,
            first_access: current_access_time,
        }
    }

    pub fn size_in_bytes(&self) -> (r: u64)
        ensures
            r == self.size,
    {
        self.size
    }

    pub fn get_tag(&self) -> (r: u64)
        ensures
            r == self.tag,
    {
        self.tag
    }

    pub fn get_index(&self) -> (r: u64)
        ensures
            r == self.index,
    {
        self.index
    }

    /// Does the block hold the given address?
    pub fn is_hit(&self, address: BlockAddress) -> (r: bool)
        ensures
            r == (self.tag == address.tag && self.index == address.index),
    {
        self.tag == address.tag && self.index == address.index
    }

    /// Writes the block: it becomes dirty and its last access is updated.
    pub fn write(&mut self, current_access_time: u64)
        ensures
            *final(self) == touched(*old(self), current_access_time, true),
    {
        self.dirty = true;
        self.last_access = current_access_time;
    }

    /// Reads the block: its last access is updated.
    pub fn read(&mut self, current_access_time: u64)
        ensures
            *final(self) == touched(*old(self), current_access_time, false),
    {
        self.last_access = current_access_time;
    }
}

/// A set of a cache: a fixed number of slots, each empty or holding a block.
#[derive(Clone, Debug)]
pub struct CacheSet {
    pub blocks: Vec<Option<Block>>,
    pub block_size: u64,
    pub evict_policy: EvictionPolicy,
}

impl View for CacheSet {
    type V = Slots;

    open spec fn view(&self) -> Slots {
        self.blocks@
    }
}

impl CacheSet {
    /// The set is the one at position `index` of its cache: it has at least
    /// one slot, its blocks carry `index`, the set's block size and
    /// consistent times, and their tags are distinct.
    pub open spec fn wf(&self, index: u64) -> bool {
        &&& self.blocks@.len() >= 1
        &&& tags_unique(self.blocks@)
        &&& forall|i: int|
            0 <= i < self.blocks@.len() && self.blocks@[i] is Some ==> {
                let b = (#[trigger] self.blocks@[i])->Some_0;
                &&& b.index == index
                &&& b.size == self.block_size
                &&& b.first_access <= b.last_access
            }
    }

    /// An empty set with `associativity` slots.
    pub fn new(block_size: u64, associativity: u64, evict_policy: EvictionPolicy) -> (r: Self)
        requires
            associativity >= 1,
            associativity <= usize::MAX,
        ensures
            r.blocks@ == Seq::new(associativity as nat, |i: int| None::<Block>),
            r.block_size == block_size,
            r.evict_policy == evict_policy,
            forall|index: u64| r.wf(index),
    {
        let mut blocks: Vec<Option<Block>> = Vec::new();
        while blocks.len() < associativity as usize
            invariant
                blocks@.len() <= associativity,
                forall|i: int| 0 <= i < blocks@.len() ==> blocks@[i] is None,
            decreases associativity - blocks@.len(),
        {
            blocks.push(None);
        }
        assert(blocks@ == Seq::new(associativity as nat, |i: int| None::<Block>));
        CacheSet { blocks, block_size, evict_policy }
    }

    /// Are all the slots taken?
    pub fn is_full(&self) -> (r: bool)
        ensures
            r == all_present(self.blocks@),
    {
        let mut i: usize = 0;
        while i < self.blocks.len()
            invariant
                i <= self.blocks@.len(),
                forall|j: int| 0 <= j < i ==> self.blocks@[j] is Some,
            decreases self.blocks@.len() - i,
        {
            if self.blocks[i].is_none() {
                return false;
            }
            i += 1;
        }
        true
    }

    /// The number of slots (the associativity).
    pub fn len(&self) -> (r: usize)
        ensures
            r == self.blocks@.len(),
    {
        self.blocks.len()
    }

    /// The slot that holds tag `tag`, if any.
    fn find_tag(&self, tag: u64) -> (r: Option<usize>)
        ensures
            r matches Some(i) ==> has_tag_at(self.blocks@, i as int, tag),
            r is None ==> !holds_tag(self.blocks@, tag),
    {
        let mut i: usize = 0;
        while i < self.blocks.len()
            invariant
                i <= self.blocks@.len(),
                forall|j: int| 0 <= j < i ==> !has_tag_at(self.blocks@, j, tag),
            decreases self.blocks@.len() - i,
        {
            if let Some(b) = self.blocks[i] {
                if b.tag == tag {
                    return Some(i);
                }
            }
            i += 1;
        }
        None
    }

    /// The first empty slot, if any.
    fn first_empty(&self) -> (r: Option<usize>)
        ensures
            r matches Some(k) ==> is_first_empty(self.blocks@, k as int),
            r is None ==> all_present(self.blocks@),
    {
        let mut i: usize = 0;
        while i < self.blocks.len()
            invariant
                i <= self.blocks@.len(),
                forall|j: int| 0 <= j < i ==> self.blocks@[j] is Some,
            decreases self.blocks@.len() - i,
        {
            if self.blocks[i].is_none() {
                return Some(i);
            }
            i += 1;
        }
        None
    }

    /// Removes the block with tag `tag` and returns it.
    fn evict_tag(&mut self, tag: u64, Ghost(index): Ghost<u64>) -> (r: Option<Block>)
        requires
            old(self).wf(index),
        ensures
            r == lookup(old(self).blocks@, tag),
            holds_tag(old(self).blocks@, tag) ==> final(self).blocks@ == old(self).blocks@.update(
                slot_of(old(self).blocks@, tag),
                None,
            ),
            !holds_tag(old(self).blocks@, tag) ==> final(self).blocks@ == old(self).blocks@,
            !holds_tag(final(self).blocks@, tag),
            final(self).wf(index),
            final(self).block_size == old(self).block_size,
            final(self).evict_policy == old(self).evict_policy,
            forall|time: u64| #[trigger] touched_by(old(self).blocks@, time) ==> touched_by(final(self).blocks@, time),
    {
        match self.find_tag(tag) {
            Some(i) => {
                proof {
                    lemma_slot_of(self.blocks@, tag, i as int);
                }
                let result = self.blocks[i];
                self.blocks.set(i, None);
                assert(!holds_tag(self.blocks@, tag)) by {
                    if holds_tag(self.blocks@, tag) {
                        let j = slot_of(self.blocks@, tag);
                        assert(has_tag_at(old(self).blocks@, j, tag));
                    }
                }
                result
            },
            None => None,
        }
    }

    /// Removes the block holding `block_address`, if any, and returns it.
    pub fn invalidate(&mut self, block_address: BlockAddress) -> (r: Option<Block>)
        requires
            old(self).wf(block_address.index),
        ensures
            r == lookup(old(self).blocks@, block_address.tag),
            holds_tag(old(self).blocks@, block_address.tag) ==> final(self).blocks@ == old(
                self,
            ).blocks@.update(slot_of(old(self).blocks@, block_address.tag), None),
            !holds_tag(old(self).blocks@, block_address.tag) ==> final(self).blocks@ == old(
                self,
            ).blocks@,
            !holds_tag(final(self).blocks@, block_address.tag),
            final(self).wf(block_address.index),
            final(self).block_size == old(self).block_size,
            final(self).evict_policy == old(self).evict_policy,
            forall|time: u64| #[trigger] touched_by(old(self).blocks@, time) ==> touched_by(final(self).blocks@, time),
    {
        self.evict_tag(block_address.tag, Ghost(block_address.index))
    }

    /// The slot the eviction policy picks in a full set.
    fn victim(&self) -> (r: usize)
        requires
            self.blocks@.len() >= 1,
            all_present(self.blocks@),
        ensures
            is_victim(self.blocks@, self.evict_policy, r as int),
    {
        let n = self.blocks.len();
        match self.evict_policy {
            EvictionPolicy::Random => rand::random::<usize>() % n,
            policy => {
                let mut best: usize = 0;
                let mut i: usize = 1;
                while i < n
                    invariant
                        n == self.blocks@.len(),
                        all_present(self.blocks@),
                        policy == self.evict_policy,
                        policy != EvictionPolicy::Random,
                        1 <= i <= n,
                        best < i,
                        forall|j: int|
                            0 <= j < i ==> rank(policy, self.blocks@[best as int]->Some_0) <= rank(
                                policy,
                                #[trigger] self.blocks@[j]->Some_0,
                            ),
                        forall|j: int|
                            0 <= j < best ==> rank(policy, self.blocks@[best as int]->Some_0)
                                < rank(policy, #[trigger] self.blocks@[j]->Some_0),
                    decreases n - i,
                {
                    let candidate = self.blocks[i].unwrap();
                    let current = self.blocks[best].unwrap();
                    let smaller = match policy {
                        EvictionPolicy::FIFO => candidate.first_access < current.first_access,
                        _ => candidate.last_access < current.last_access,
                    };
                    if smaller {
                        best = i;
                    }
                    i += 1;
                }
                best
            },
        }
    }

    /// Evicts a block chosen by the set's policy when the set is full, and
    /// returns it; a set that is not full is left as it is.
    pub fn evict(&mut self) -> (r: Option<Block>)
        requires
            old(self).blocks@.len() >= 1,
        ensures
            !all_present(old(self).blocks@) ==> r is None && final(self).blocks@ == old(
                self,
            ).blocks@,
            all_present(old(self).blocks@) ==> exists|k: int|
                is_victim(old(self).blocks@, old(self).evict_policy, k) && r == old(self).blocks@[k]
                    && final(self).blocks@ == old(self).blocks@.update(k, None),
            forall|index: u64| #[trigger] old(self).wf(index) ==> final(self).wf(index),
            final(self).block_size == old(self).block_size,
            final(self).evict_policy == old(self).evict_policy,
            forall|time: u64| #[trigger] touched_by(old(self).blocks@, time) ==> touched_by(final(self).blocks@, time),
    {
        if !self.is_full() {
            return None;
        }
        let k = self.victim();
        let result = self.blocks[k];
        self.blocks.set(k, None);
        assert(is_victim(old(self).blocks@, old(self).evict_policy, k as int));
        result
    }

    /// The tags of the present blocks, in slot order.
    pub fn get_tags(&self) -> (r: Vec<u64>)
        ensures
            r@ == present_tags(self.blocks@),
    {
        let mut tags: Vec<u64> = Vec::new();
        let mut i: usize = 0;
        while i < self.blocks.len()
            invariant
                i <= self.blocks@.len(),
                tags@ == present_tags(self.blocks@.subrange(0, i as int)),
            decreases self.blocks@.len() - i,
        {
            assert(self.blocks@.subrange(0, i + 1).drop_last() == self.blocks@.subrange(
                0,
                i as int,
            ));
            if let Some(b) = self.blocks[i] {
                tags.push(b.tag);
            }
            i += 1;
        }
        assert(self.blocks@.subrange(0, self.blocks@.len() as int) == self.blocks@);
        tags
    }

    /// The block with the tag of `block_address`, if any.
    fn get_block_with_addr(&self, block_address: BlockAddress) -> (r: Option<&Block>)
        requires
            tags_unique(self.blocks@),
        ensures
            r matches Some(b) ==> lookup(self.blocks@, block_address.tag) == Some(*b),
            r is None ==> lookup(self.blocks@, block_address.tag) is None,
    {
        match self.find_tag(block_address.tag) {
            Some(i) => {
                proof {
                    lemma_slot_of(self.blocks@, block_address.tag, i as int);
                }
                self.blocks[i].as_ref()
            },
            None => None,
        }
    }

    /// Does the set hold the block at `block_address`?
    fn is_hit(&self, block_address: BlockAddress) -> (r: bool)
        ensures
            r == holds_tag(self.blocks@, block_address.tag),
    {
        self.find_tag(block_address.tag).is_some()
    }

    /// Reads or writes the block at `block_address` if it is present.
    fn touch(&mut self, block_address: BlockAddress, current_access_time: u64, write: bool) -> (r:
        bool)
        requires
            old(self).wf(block_address.index),
            touched_by(old(self).blocks@, current_access_time),
        ensures
            r == holds_tag(old(self).blocks@, block_address.tag),
            final(self).blocks@ == after_touch(
                old(self).blocks@,
                block_address.tag,
                current_access_time,
                write,
            ),
            final(self).wf(block_address.index),
            final(self).block_size == old(self).block_size,
            final(self).evict_policy == old(self).evict_policy,
            touched_by(final(self).blocks@, current_access_time),
    {
        match self.find_tag(block_address.tag) {
            Some(i) => {
                proof {
                    lemma_slot_of(self.blocks@, block_address.tag, i as int);
                }
                let mut b = self.blocks[i].unwrap();
                if write {
                    b.write(current_access_time);
                } else {
                    b.read(current_access_time);
                }
                self.blocks.set(i, Some(b));
                true
            },
            None => false,
        }
    }

    /// Writes the block at `block_address` if it is present; returns
    /// whether it was (a hit).
    pub fn try_write(&mut self, block_address: BlockAddress, current_access_time: u64) -> (r: bool)
        requires
            old(self).wf(block_address.index),
            touched_by(old(self).blocks@, current_access_time),
        ensures
            r == holds_tag(old(self).blocks@, block_address.tag),
            final(self).blocks@ == after_touch(
                old(self).blocks@,
                block_address.tag,
                current_access_time,
                true,
            ),
            final(self).wf(block_address.index),
            final(self).block_size == old(self).block_size,
            final(self).evict_policy == old(self).evict_policy,
            touched_by(final(self).blocks@, current_access_time),
    {
        self.touch(block_address, current_access_time, true)
    }

    /// Reads the block at `block_address` if it is present; returns
    /// whether it was (a hit).
    pub fn try_read(&mut self, block_address: BlockAddress, current_access_time: u64) -> (r: bool)
        requires
            old(self).wf(block_address.index),
            touched_by(old(self).blocks@, current_access_time),
        ensures
            r == holds_tag(old(self).blocks@, block_address.tag),
            final(self).blocks@ == after_touch(
                old(self).blocks@,
                block_address.tag,
                current_access_time,
                false,
            ),
            final(self).wf(block_address.index),
            final(self).block_size == old(self).block_size,
            final(self).evict_policy == old(self).evict_policy,
            touched_by(final(self).blocks@, current_access_time),
    {
        self.touch(block_address, current_access_time, false)
    }

    /// Loads the block at `block_address`, which is absent, evicting a block
    /// first when the set is full; returns the evicted block.
    fn allocate_block(&mut self, block_address: BlockAddress, current_access_time: u64, write: bool) -> (r:
        Option<Block>)
        requires
            old(self).wf(block_address.index),
            !holds_tag(old(self).blocks@, block_address.tag),
            touched_by(old(self).blocks@, current_access_time),
        ensures
            filled(old(self).blocks@, final(self).blocks@, old(self).evict_policy, block_address, old(self).block_size, current_access_time, write, r),
            final(self).wf(block_address.index),
            final(self).block_size == old(self).block_size,
            final(self).evict_policy == old(self).evict_policy,
            touched_by(final(self).blocks@, current_access_time),
    {
        let ghost s0 = self.blocks@;
        let result = self.evict();
        let ghost s1 = self.blocks@;
        proof {
            if all_present(s0) {
                let v = choose|v: int|
                    is_victim(s0, old(self).evict_policy, v) && result == s0[v] && s1 == s0.update(
                        v,
                        None,
                    );
                assert(s1[v] is None);
            }
        }
        let k = match self.first_empty() {
            Some(k) => k,
            None => {
                assert(false);
                0
            },
        };
        let mut block = Block::new(
            block_address.tag,
            block_address.index,
            self.block_size,
            current_access_time,
        );
        if write {
            block.write(current_access_time);
        }
        assert(block == fresh_block(block_address, self.block_size, current_access_time, write));
        self.blocks.set(k, Some(block));
        assert(self.blocks@ == s0.update(k as int, Some(block)));
        proof {
            if all_present(s0) {
                let v = choose|v: int|
                    is_victim(s0, old(self).evict_policy, v) && result == s0[v] && s1 == s0.update(
                        v,
                        None,
                    );
                assert(k == v);
                assert(is_fill_slot(s0, old(self).evict_policy, k as int));
                assert(result == s0[k as int]);
            } else {
                assert(is_fill_slot(s0, old(self).evict_policy, k as int));
                assert(result == s0[k as int]);
            }
            assert forall|i: int, j: int|
                0 <= i < self.blocks@.len() && 0 <= j < self.blocks@.len() && i != j
                    && self.blocks@[i] is Some && self.blocks@[j] is Some implies self.blocks@[i]->Some_0.tag
                != self.blocks@[j]->Some_0.tag by {
                if i == k {
                    assert(!has_tag_at(s0, j, block_address.tag));
                } else if j == k {
                    assert(!has_tag_at(s0, i, block_address.tag));
                }
            }
        }
        result
    }

    /// Writes the block at `block_address`, loading it first if absent;
    /// returns the block evicted to make room, if any.
    pub fn write_and_allocate(&mut self, block_address: BlockAddress, current_access_time: u64) -> (r:
        Option<Block>)
        requires
            old(self).wf(block_address.index),
            touched_by(old(self).blocks@, current_access_time),
        ensures
            holds_tag(old(self).blocks@, block_address.tag) ==> r is None && final(self).blocks@
                == after_touch(old(self).blocks@, block_address.tag, current_access_time, true),
            !holds_tag(old(self).blocks@, block_address.tag) ==> filled(old(self).blocks@, final(self).blocks@, old(self).evict_policy, block_address, old(self).block_size, current_access_time, true, r),
            final(self).wf(block_address.index),
            final(self).block_size == old(self).block_size,
            final(self).evict_policy == old(self).evict_policy,
            touched_by(final(self).blocks@, current_access_time),
    {
        if self.try_write(block_address, current_access_time) {
            return None;
        }
        self.allocate_block(block_address, current_access_time, true)
    }

    /// Reads the block at `block_address`, loading it first if absent;
    /// returns the block evicted to make room, if any.
    pub fn read_and_allocate(&mut self, block_address: BlockAddress, current_access_time: u64) -> (r:
        Option<Block>)
        requires
            old(self).wf(block_address.index),
            touched_by(old(self).blocks@, current_access_time),
        ensures
            holds_tag(old(self).blocks@, block_address.tag) ==> r is None && final(self).blocks@
                == after_touch(old(self).blocks@, block_address.tag, current_access_time, false),
            !holds_tag(old(self).blocks@, block_address.tag) ==> filled(old(self).blocks@, final(self).blocks@, old(self).evict_policy, block_address, old(self).block_size, current_access_time, false, r),
            final(self).wf(block_address.index),
            final(self).block_size == old(self).block_size,
            final(self).evict_policy == old(self).evict_policy,
            touched_by(final(self).blocks@, current_access_time),
    {
        if self.try_read(block_address, current_access_time) {
            return None;
        }
        self.allocate_block(block_address, current_access_time, false)
    }

    /// Performs `write_and_allocate` and returns whether it was a hit.
    pub fn is_write_and_allocate_hit(&mut self, block_address: BlockAddress, current_access_time: u64) -> (r:
        bool)
        requires
            old(self).wf(block_address.index),
            touched_by(old(self).blocks@, current_access_time),
        ensures
            r == holds_tag(old(self).blocks@, block_address.tag),
            r ==> final(self).blocks@ == after_touch(
                old(self).blocks@,
                block_address.tag,
                current_access_time,
                true,
            ),
            !r ==> exists|e: Option<Block>| filled(old(self).blocks@, final(self).blocks@, old(self).evict_policy, block_address, old(self).block_size, current_access_time, true, e),
            final(self).wf(block_address.index),
            final(self).block_size == old(self).block_size,
            final(self).evict_policy == old(self).evict_policy,
            touched_by(final(self).blocks@, current_access_time),
    {
        let is_hit = self.is_hit(block_address);
        self.write_and_allocate(block_address, current_access_time);
        is_hit
    }

    /// Performs `read_and_allocate` and returns whether it was a hit.
    pub fn is_read_and_allocate_hit(&mut self, block_address: BlockAddress, current_access_time: u64) -> (r:
        bool)
        requires
            old(self).wf(block_address.index),
            touched_by(old(self).blocks@, current_access_time),
        ensures
            r == holds_tag(old(self).blocks@, block_address.tag),
            r ==> final(self).blocks@ == after_touch(
                old(self).blocks@,
                block_address.tag,
                current_access_time,
                false,
            ),
            !r ==> exists|e: Option<Block>| filled(old(self).blocks@, final(self).blocks@, old(self).evict_policy, block_address, old(self).block_size, current_access_time, false, e),
            final(self).wf(block_address.index),
            final(self).block_size == old(self).block_size,
            final(self).evict_policy == old(self).evict_policy,
            touched_by(final(self).blocks@, current_access_time),
    {
        let is_hit = self.is_hit(block_address);
        self.read_and_allocate(block_address, current_access_time);
        is_hit
    }

    /// The size of the set in bytes.
    pub fn size_in_bytes(&self) -> (r: u64)
        requires
            self.blocks@.len() * self.block_size <= u64::MAX,
        ensures
            r == self.blocks@.len() * self.block_size,
    {
        self.blocks.len() as u64 * self.block_size
    }
}


/// A set-associative cache: a vector of sets selected by the index bits of
/// an address. It serves as data cache, second-level cache and TLB.
#[derive(Clone, Debug)]
pub struct Cache {
    pub sets: Vec<CacheSet>,
    /// The number of slots in each set.
    pub associativity: u64,
    /// The policy every set evicts by.
    pub evict_policy: EvictionPolicy,
}

impl View for Cache {
    type V = Seq<Slots>;

    /// The contents of each set, by set index.
    open spec fn view(&self) -> Seq<Slots> {
        Seq::new(self.sets@.len(), |i: int| self.sets@[i].blocks@)
    }
}

impl Cache {
    /// The block size shared by all the sets.
    pub open spec fn block_size(&self) -> u64 {
        self.sets@[0].block_size
    }

    /// Each set is well formed at its own position, has `associativity`
    /// slots, the common block size and the cache's policy.
    pub open spec fn wf(&self) -> bool {
        &&& self.sets@.len() >= 1
        &&& self.sets@.len() <= u64::MAX
        &&& self.sets@.len() <= usize::MAX
        &&& forall|i: int|
            0 <= i < self.sets@.len() ==> {
                let s = #[trigger] self.sets@[i];
                &&& s.wf(i as u64)
                &&& s.blocks@.len() == self.associativity
                &&& s.block_size == self.sets@[0].block_size
                &&& s.evict_policy == self.evict_policy
            }
    }

    /// No block of the cache was touched after `time`.
    pub open spec fn touched_by(&self, time: u64) -> bool {
        forall|i: int| 0 <= i < self.sets@.len() ==> touched_by(#[trigger] self.sets@[i].blocks@, time)
    }

    /// An empty cache of `sets` sets of `associativity` blocks each.
    pub fn new(sets: usize, block_size: u64, associativity: u64, evict_policy: EvictionPolicy) -> (r:
        Self)
        requires
            sets >= 1,
            1 <= associativity <= usize::MAX,
        ensures
            r.wf(),
            r@.len() == sets,
            forall|i: int| 0 <= i < sets ==> #[trigger] r@[i] == Seq::new(associativity as nat, |j: int| None::<Block>),
            r.block_size() == block_size,
            r.associativity == associativity,
            r.evict_policy == evict_policy,
            forall|time: u64| r.touched_by(time),
    {
        let mut all: Vec<CacheSet> = Vec::new();
        while all.len() < sets
            invariant
                all@.len() <= sets,
                1 <= associativity <= usize::MAX,
                forall|i: int| 0 <= i < all@.len() ==> {
                    let s = #[trigger] all@[i];
                    &&& s.blocks@ == Seq::new(associativity as nat, |j: int| None::<Block>)
                    &&& s.block_size == block_size
                    &&& s.evict_policy == evict_policy
                    &&& forall|index: u64| s.wf(index)
                },
            decreases sets - all@.len(),
        {
            all.push(CacheSet::new(block_size, associativity, evict_policy));
        }
        let r = Cache { sets: all, associativity, evict_policy };
        assert(r@.len() == sets);
        r
    }

    /// A fully associative cache of `size_in_bytes` bytes: a single set
    /// holding every block.
    pub fn new_fully_associative(size_in_bytes: u64, block_size: u64, evict_policy: EvictionPolicy) -> (r:
        Self)
        requires
            block_size >= 1,
            size_in_bytes / block_size >= 1,
            size_in_bytes / block_size <= usize::MAX,
        ensures
            r.wf(),
            r@.len() == 1,
            r.associativity == size_in_bytes / block_size,
            r.block_size() == block_size,
            r.evict_policy == evict_policy,
            forall|i: int| 0 <= i < r@.len() ==> #[trigger] r@[i] == Seq::new(r.associativity as nat, |j: int| None::<Block>),
            forall|time: u64| r.touched_by(time),
    {
        let number_of_blocks = size_in_bytes / block_size;
        Self::new(1, block_size, number_of_blocks, evict_policy)
    }

    /// A direct-mapped cache of `size_in_bytes` bytes: one block per set.
    pub fn new_direct_mapped(size_in_bytes: u64, block_size: u64, evict_policy: EvictionPolicy) -> (r:
        Self)
        requires
            block_size >= 1,
            size_in_bytes / block_size >= 1,
            size_in_bytes / block_size <= usize::MAX,
        ensures
            r.wf(),
            r@.len() == size_in_bytes / block_size,
            r.associativity == 1,
            r.block_size() == block_size,
            r.evict_policy == evict_policy,
            forall|i: int| 0 <= i < r@.len() ==> #[trigger] r@[i] == Seq::new(r.associativity as nat, |j: int| None::<Block>),
            forall|time: u64| r.touched_by(time),
    {
        let number_of_sets = size_in_bytes / block_size;
        Self::new(number_of_sets as usize, block_size, 1, evict_policy)
    }

    /// A set-associative cache of `size_in_bytes` bytes with `associativity`
    /// blocks per set.
    pub fn new_set_associative(
        associativity: u64,
        size_in_bytes: u64,
        block_size: u64,
        evict_policy: EvictionPolicy,
    ) -> (r: Self)
        requires
            block_size >= 1,
            1 <= associativity <= usize::MAX,
            (size_in_bytes / block_size) / associativity >= 1,
            (size_in_bytes / block_size) / associativity <= usize::MAX,
        ensures
            r.wf(),
            r@.len() == (size_in_bytes / block_size) / associativity,
            r.associativity == associativity,
            r.block_size() == block_size,
            r.evict_policy == evict_policy,
            forall|i: int| 0 <= i < r@.len() ==> #[trigger] r@[i] == Seq::new(r.associativity as nat, |j: int| None::<Block>),
            forall|time: u64| r.touched_by(time),
    {
        let number_of_sets = (size_in_bytes / block_size) / associativity;
        Self::new(number_of_sets as usize, block_size, associativity, evict_policy)
    }

    /// The number of sets.
    pub fn len(&self) -> (r: usize)
        ensures
            r == self@.len(),
    {
        self.sets.len()
    }

    /// The capacity of the cache in bytes.
    pub fn size_in_bytes(&self) -> (r: u64)
        requires
            self.wf(),
            self@.len() * self.associativity * self.block_size() <= u64::MAX,
        ensures
            r == self@.len() * self.associativity * self.block_size(),
    {
        assert(self@.len() * (self.associativity * self.block_size()) == self@.len()
            * self.associativity * self.block_size()) by (nonlinear_arith);
        assert(self.associativity * self.block_size() <= self@.len() * (self.associativity
            * self.block_size())) by (nonlinear_arith)
            requires
                self@.len() >= 1,
        ;
        let per_set = self.sets[0].size_in_bytes();
        self.sets.len() as u64 * per_set
    }

    /// Does the cache hold the block at `address`?
    pub fn is_hit(&self, address: BlockAddress) -> (r: bool)
        requires
            self.wf(),
            address.index < self.sets@.len(),
        ensures
            r == holds_tag(self@[address.index as int], address.tag),
    {
        self.get(address).is_some()
    }

    pub fn get_associativity(&self) -> (r: u64)
        ensures
            r == self.associativity,
    {
        self.associativity
    }

    pub fn get_eviction_policy(&self) -> (r: EvictionPolicy)
        ensures
            r == self.evict_policy,
    {
        self.evict_policy
    }

    /// The block at `address`, if the cache holds it.
    pub fn get(&self, address: BlockAddress) -> (r: Option<&Block>)
        requires
            self.wf(),
            address.index < self.sets@.len(),
        ensures
            r matches Some(b) ==> lookup(self@[address.index as int], address.tag) == Some(*b),
            r is None ==> lookup(self@[address.index as int], address.tag) is None,
            r is Some == holds_tag(self@[address.index as int], address.tag),
    {
        let i = address.index as usize;
        let set = &self.sets[i];
        set.get_block_with_addr(address)
    }

    /// Writes the block at `address`, loading it on a miss; returns the block
    /// evicted to make room, if any.
    pub fn write_and_allocate(&mut self, address: BlockAddress, current_access_time: u64) -> (r: Option<Block>)
        requires
            old(self).wf(),
            address.index < old(self).sets@.len(),
            old(self).touched_by(current_access_time),
        ensures
            final(self).wf(),
            final(self).touched_by(current_access_time),
            final(self).associativity == old(self).associativity,
            final(self).evict_policy == old(self).evict_policy,
            final(self).block_size() == old(self).block_size(),
            final(self)@ == old(self)@.update(address.index as int, final(self)@[address.index as int]),
            holds_tag(old(self)@[address.index as int], address.tag) ==> r is None && final(self)@[address.index as int] == after_touch(old(self)@[address.index as int], address.tag, current_access_time, true),
            !holds_tag(old(self)@[address.index as int], address.tag) ==> filled(old(self)@[address.index as int], final(self)@[address.index as int], old(self).evict_policy, address, old(self).block_size(), current_access_time, true, r),
    {
        let i = address.index as usize;
        let r = self.sets[i].write_and_allocate(address, current_access_time);
        proof {
            assert forall|j: int| 0 <= j < self.sets@.len() implies touched_by(#[trigger] self.sets@[j].blocks@, current_access_time) by {
                if j != i {
                    assert(self.sets@[j] == old(self).sets@[j]);
                }
            }
            assert(self@ =~= old(self)@.update(address.index as int, self@[address.index as int]));
        }
        r
    }

    /// Reads the block at `address`, loading it on a miss; returns the block
    /// evicted to make room, if any.
    pub fn read_and_allocate(&mut self, address: BlockAddress, current_access_time: u64) -> (r: Option<Block>)
        requires
            old(self).wf(),
            address.index < old(self).sets@.len(),
            old(self).touched_by(current_access_time),
        ensures
            final(self).wf(),
            final(self).touched_by(current_access_time),
            final(self).associativity == old(self).associativity,
            final(self).evict_policy == old(self).evict_policy,
            final(self).block_size() == old(self).block_size(),
            final(self)@ == old(self)@.update(address.index as int, final(self)@[address.index as int]),
            holds_tag(old(self)@[address.index as int], address.tag) ==> r is None && final(self)@[address.index as int] == after_touch(old(self)@[address.index as int], address.tag, current_access_time, false),
            !holds_tag(old(self)@[address.index as int], address.tag) ==> filled(old(self)@[address.index as int], final(self)@[address.index as int], old(self).evict_policy, address, old(self).block_size(), current_access_time, false, r),
    {
        let i = address.index as usize;
        let r = self.sets[i].read_and_allocate(address, current_access_time);
        proof {
            assert forall|j: int| 0 <= j < self.sets@.len() implies touched_by(#[trigger] self.sets@[j].blocks@, current_access_time) by {
                if j != i {
                    assert(self.sets@[j] == old(self).sets@[j]);
                }
            }
            assert(self@ =~= old(self)@.update(address.index as int, self@[address.index as int]));
        }
        r
    }

    /// Performs `write_and_allocate` and returns whether it was a hit.
    pub fn is_write_and_allocate_hit(&mut self, address: BlockAddress, current_access_time: u64) -> (r: bool)
        requires
            old(self).wf(),
            address.index < old(self).sets@.len(),
            old(self).touched_by(current_access_time),
        ensures
            final(self).wf(),
            final(self).touched_by(current_access_time),
            final(self).associativity == old(self).associativity,
            final(self).evict_policy == old(self).evict_policy,
            final(self).block_size() == old(self).block_size(),
            final(self)@ == old(self)@.update(address.index as int, final(self)@[address.index as int]),
            r == holds_tag(old(self)@[address.index as int], address.tag),
            r ==> final(self)@[address.index as int] == after_touch(old(self)@[address.index as int], address.tag, current_access_time, true),
            !r ==> exists|e: Option<Block>| filled(old(self)@[address.index as int], final(self)@[address.index as int], old(self).evict_policy, address, old(self).block_size(), current_access_time, true, e),
    {
        let i = address.index as usize;
        let r = self.sets[i].is_write_and_allocate_hit(address, current_access_time);
        proof {
            assert forall|j: int| 0 <= j < self.sets@.len() implies touched_by(#[trigger] self.sets@[j].blocks@, current_access_time) by {
                if j != i {
                    assert(self.sets@[j] == old(self).sets@[j]);
                }
            }
            assert(self@ =~= old(self)@.update(address.index as int, self@[address.index as int]));
        }
        r
    }

    /// Performs `read_and_allocate` and returns whether it was a hit.
    pub fn is_read_and_allocate_hit(&mut self, address: BlockAddress, current_access_time: u64) -> (r: bool)
        requires
            old(self).wf(),
            address.index < old(self).sets@.len(),
            old(self).touched_by(current_access_time),
        ensures
            final(self).wf(),
            final(self).touched_by(current_access_time),
            final(self).associativity == old(self).associativity,
            final(self).evict_policy == old(self).evict_policy,
            final(self).block_size() == old(self).block_size(),
            final(self)@ == old(self)@.update(address.index as int, final(self)@[address.index as int]),
            r == holds_tag(old(self)@[address.index as int], address.tag),
            r ==> final(self)@[address.index as int] == after_touch(old(self)@[address.index as int], address.tag, current_access_time, false),
            !r ==> exists|e: Option<Block>| filled(old(self)@[address.index as int], final(self)@[address.index as int], old(self).evict_policy, address, old(self).block_size(), current_access_time, false, e),
    {
        let i = address.index as usize;
        let r = self.sets[i].is_read_and_allocate_hit(address, current_access_time);
        proof {
            assert forall|j: int| 0 <= j < self.sets@.len() implies touched_by(#[trigger] self.sets@[j].blocks@, current_access_time) by {
                if j != i {
                    assert(self.sets@[j] == old(self).sets@[j]);
                }
            }
            assert(self@ =~= old(self)@.update(address.index as int, self@[address.index as int]));
        }
        r
    }

    /// Writes the block at `address` if the cache holds it; returns whether
    /// it did. A miss changes nothing.
    pub fn try_write(&mut self, address: BlockAddress, current_access_time: u64) -> (r: bool)
        requires
            old(self).wf(),
            address.index < old(self).sets@.len(),
            old(self).touched_by(current_access_time),
        ensures
            final(self).wf(),
            final(self).touched_by(current_access_time),
            final(self).associativity == old(self).associativity,
            final(self).evict_policy == old(self).evict_policy,
            final(self).block_size() == old(self).block_size(),
            final(self)@ == old(self)@.update(address.index as int, final(self)@[address.index as int]),
            r == holds_tag(old(self)@[address.index as int], address.tag),
            final(self)@[address.index as int] == after_touch(old(self)@[address.index as int], address.tag, current_access_time, true),
    {
        let i = address.index as usize;
        let r = self.sets[i].try_write(address, current_access_time);
        proof {
            assert forall|j: int| 0 <= j < self.sets@.len() implies touched_by(#[trigger] self.sets@[j].blocks@, current_access_time) by {
                if j != i {
                    assert(self.sets@[j] == old(self).sets@[j]);
                }
            }
            assert(self@ =~= old(self)@.update(address.index as int, self@[address.index as int]));
        }
        r
    }

    /// Reads the block at `address` if the cache holds it; returns whether
    /// it did. A miss changes nothing.
    pub fn try_read(&mut self, address: BlockAddress, current_access_time: u64) -> (r: bool)
        requires
            old(self).wf(),
            address.index < old(self).sets@.len(),
            old(self).touched_by(current_access_time),
        ensures
            final(self).wf(),
            final(self).touched_by(current_access_time),
            final(self).associativity == old(self).associativity,
            final(self).evict_policy == old(self).evict_policy,
            final(self).block_size() == old(self).block_size(),
            final(self)@ == old(self)@.update(address.index as int, final(self)@[address.index as int]),
            r == holds_tag(old(self)@[address.index as int], address.tag),
            final(self)@[address.index as int] == after_touch(old(self)@[address.index as int], address.tag, current_access_time, false),
    {
        let i = address.index as usize;
        let r = self.sets[i].try_read(address, current_access_time);
        proof {
            assert forall|j: int| 0 <= j < self.sets@.len() implies touched_by(#[trigger] self.sets@[j].blocks@, current_access_time) by {
                if j != i {
                    assert(self.sets@[j] == old(self).sets@[j]);
                }
            }
            assert(self@ =~= old(self)@.update(address.index as int, self@[address.index as int]));
        }
        r
    }

    /// Removes the block at `address`, if the cache holds it, and returns it.
    pub fn invalidate(&mut self, address: BlockAddress) -> (r: Option<Block>)
        requires
            old(self).wf(),
            address.index < old(self).sets@.len(),
        ensures
            final(self).wf(),
            forall|time: u64| #[trigger] old(self).touched_by(time) ==> final(self).touched_by(time),
            final(self).associativity == old(self).associativity,
            final(self).evict_policy == old(self).evict_policy,
            final(self).block_size() == old(self).block_size(),
            final(self)@ == old(self)@.update(address.index as int, final(self)@[address.index as int]),
            r == lookup(old(self)@[address.index as int], address.tag),
            holds_tag(old(self)@[address.index as int], address.tag) ==> final(self)@[address.index as int] == old(self)@[address.index as int].update(slot_of(old(self)@[address.index as int], address.tag), None),
            !holds_tag(old(self)@[address.index as int], address.tag) ==> final(self)@[address.index as int] == old(self)@[address.index as int],
    {
        let i = address.index as usize;
        let r = self.sets[i].invalidate(address);
        proof {
            assert forall|time: u64| #[trigger] old(self).touched_by(time) implies self.touched_by(time) by {
                assert forall|j: int| 0 <= j < self.sets@.len() implies touched_by(#[trigger] self.sets@[j].blocks@, time) by {
                    if j != i {
                        assert(self.sets@[j] == old(self).sets@[j]);
                    } else {
                        assert(touched_by(old(self).sets@[j].blocks@, time));
                    }
                }
            }
            assert(self@ =~= old(self)@.update(address.index as int, self@[address.index as int]));
        }
        r
    }


    /// Removes the blocks at each of `addresses`; returns the blocks
    /// removed.
    pub fn invalidate_all(&mut self, addresses: &Vec<BlockAddress>) -> (r: Vec<Block>)
        requires
            old(self).wf(),
            forall|m: int| 0 <= m < addresses@.len() ==> (#[trigger] addresses@[m]).index < old(self).sets@.len(),
        ensures
            final(self).wf(),
            forall|time: u64| #[trigger] old(self).touched_by(time) ==> final(self).touched_by(time),
            final(self).associativity == old(self).associativity,
            final(self).evict_policy == old(self).evict_policy,
            final(self).block_size() == old(self).block_size(),
            final(self)@.len() == old(self)@.len(),
            forall|i: int| 0 <= i < final(self)@.len() ==> (#[trigger] final(self)@[i]).len() == old(self)@[i].len(),
            forall|m: int| 0 <= m < addresses@.len() ==> !holds_tag(
                final(self)@[(#[trigger] addresses@[m]).index as int],
                addresses@[m].tag,
            ),
            forall|i: int, j: int|
                0 <= i < final(self)@.len() && 0 <= j < final(self)@[i].len() && (#[trigger] final(self)@[i][j]) is Some
                    ==> final(self)@[i][j] == old(self)@[i][j],
            forall|i: int, j: int|
                0 <= i < old(self)@.len() && 0 <= j < old(self)@[i].len() && (#[trigger] old(self)@[i][j]) is Some
                    && !(exists|m: int| 0 <= m < addresses@.len() && (#[trigger] addresses@[m]).index == i
                        && addresses@[m].tag == old(self)@[i][j]->Some_0.tag)
                    ==> final(self)@[i][j] == old(self)@[i][j],
            forall|i: int, j: int|
                0 <= i < old(self)@.len() && 0 <= j < old(self)@[i].len() && (#[trigger] old(self)@[i][j]) is Some
                    && final(self)@[i][j] is None ==> r@.contains(old(self)@[i][j]->Some_0),
            forall|m: int| 0 <= m < r@.len() ==> was_removed(old(self)@, final(self)@, #[trigger] r@[m]),
            invalidated(old(self)@, final(self)@, addresses@, r@),
    {
        let mut removed: Vec<Block> = Vec::new();
        let mut m: usize = 0;
        while m < addresses.len()
            invariant
                old(self).wf(),
                self.wf(),
                forall|m: int| 0 <= m < addresses@.len() ==> (#[trigger] addresses@[m]).index < old(self).sets@.len(),
                forall|time: u64| #[trigger] old(self).touched_by(time) ==> self.touched_by(time),
                self.associativity == old(self).associativity,
                self.evict_policy == old(self).evict_policy,
                self.block_size() == old(self).block_size(),
                self@.len() == old(self)@.len(),
                forall|i: int| 0 <= i < self@.len() ==> (#[trigger] self@[i]).len() == old(self)@[i].len(),
                m <= addresses@.len(),
                forall|n: int| 0 <= n < m ==> !holds_tag(
                    self@[(#[trigger] addresses@[n]).index as int],
                    addresses@[n].tag,
                ),
                forall|i: int, j: int|
                    0 <= i < self@.len() && 0 <= j < self@[i].len() && (#[trigger] self@[i][j]) is Some
                        ==> self@[i][j] == old(self)@[i][j],
                forall|i: int, j: int|
                    0 <= i < old(self)@.len() && 0 <= j < old(self)@[i].len() && (#[trigger] old(self)@[i][j]) is Some
                        && !(exists|n: int| 0 <= n < m && (#[trigger] addresses@[n]).index == i
                            && addresses@[n].tag == old(self)@[i][j]->Some_0.tag)
                        ==> self@[i][j] == old(self)@[i][j],
                forall|i: int, j: int|
                    0 <= i < old(self)@.len() && 0 <= j < old(self)@[i].len() && (#[trigger] old(self)@[i][j]) is Some
                        && self@[i][j] is None ==> removed@.contains(old(self)@[i][j]->Some_0),
                forall|n: int| 0 <= n < removed@.len() ==> was_removed(old(self)@, self@, #[trigger] removed@[n]),
            decreases addresses@.len() - m,
        {
            let a = addresses[m];
            let ghost before = self@;
            let ghost removed_before = removed@;
            let got = self.invalidate(a);
            let ghost idx = a.index as int;
            match got {
                Some(b) => {
                    removed.push(b);
                },
                None => {},
            }
            proof {
                let after = self@;
                // Only slot `slot_of(before[idx], a.tag)` of set `idx` changed.
                assert forall|i: int, j: int|
                    0 <= i < after.len() && 0 <= j < after[i].len() && after[i][j] != before[i][j]
                        implies i == idx && holds_tag(before[idx], a.tag) && j == slot_of(before[idx], a.tag)
                        && after[i][j] is None by {
                    if i != idx {
                        assert(after[i] == before[i]);
                    }
                }
                assert forall|n: int| 0 <= n < m + 1 implies !holds_tag(
                    after[(#[trigger] addresses@[n]).index as int],
                    addresses@[n].tag,
                ) by {
                    if n < m {
                        let k = addresses@[n].index as int;
                        if holds_tag(after[k], addresses@[n].tag) {
                            let j = choose|j: int| has_tag_at(after[k], j, addresses@[n].tag);
                            assert(after[k][j] == before[k][j]);
                            assert(has_tag_at(before[k], j, addresses@[n].tag));
                        }
                    }
                }
                assert forall|i: int, j: int|
                    0 <= i < old(self)@.len() && 0 <= j < old(self)@[i].len() && (#[trigger] old(self)@[i][j]) is Some
                        && !(exists|n: int| 0 <= n < m + 1 && (#[trigger] addresses@[n]).index == i
                            && addresses@[n].tag == old(self)@[i][j]->Some_0.tag)
                        implies after[i][j] == old(self)@[i][j] by {
                    assert(!(exists|n: int| 0 <= n < m && (#[trigger] addresses@[n]).index == i
                            && addresses@[n].tag == old(self)@[i][j]->Some_0.tag));
                    assert(before[i][j] == old(self)@[i][j]);
                    if after[i][j] != before[i][j] {
                        let s = slot_of(before[idx], a.tag);
                        assert(has_tag_at(before[idx], s, a.tag));
                        assert(addresses@[m as int].index == i);
                    }
                }
                assert forall|i: int, j: int|
                    0 <= i < old(self)@.len() && 0 <= j < old(self)@[i].len() && (#[trigger] old(self)@[i][j]) is Some
                        && after[i][j] is None implies removed@.contains(old(self)@[i][j]->Some_0) by {
                    if before[i][j] is None {
                        assert(removed_before.contains(old(self)@[i][j]->Some_0));
                        let w = choose|w: int| 0 <= w < removed_before.len() && removed_before[w] == old(self)@[i][j]->Some_0;
                        assert(removed@[w] == removed_before[w]);
                    } else {
                        assert(before[i][j] == old(self)@[i][j]);
                        let s = slot_of(before[idx], a.tag);
                        assert(has_tag_at(before[idx], s, a.tag));
                        assert(removed@[removed@.len() - 1] == old(self)@[i][j]->Some_0);
                    }
                }
                assert forall|n: int| 0 <= n < removed@.len() implies was_removed(old(self)@, after, #[trigger] removed@[n]) by {
                    if n < removed_before.len() {
                        assert(removed@[n] == removed_before[n]);
                        assert(was_removed(old(self)@, before, removed_before[n]));
                        let (i, j) = choose|i: int, j: int|
                            0 <= i < old(self)@.len() && 0 <= j < old(self)@[i].len() && old(self)@[i][j] == Some(removed_before[n])
                                && before[i][j] is None;
                        assert(after[i][j] == before[i][j]);
                    } else {
                        let s = slot_of(before[idx], a.tag);
                        assert(has_tag_at(before[idx], s, a.tag));
                        assert(before[idx][s] == old(self)@[idx][s]);
                        assert(after[idx][s] is None);
                        assert(old(self)@[idx][s] == Some(removed@[n]));
                    }
                }
            }
            m += 1;
        }
        removed
    }

    /// The number of blocks the cache can hold.
    pub fn number_of_blocks(&self) -> (r: u64)
        requires
            self@.len() * self.associativity <= u64::MAX,
        ensures
            r == self@.len() * self.associativity,
    {
        self.sets.len() as u64 * self.associativity
    }
}

} // verus!

verus! {

proof fn lemma_present_count_bound(s: Slots)
    ensures
        present_count(s) <= s.len(),
    decreases s.len(),
{
    if s.len() > 0 {
        lemma_present_count_bound(s.drop_last());
    }
}

/// A cache touched by `early` is touched by any later time.
pub proof fn lemma_touched_by_later(c: Cache, early: u64, late: u64)
    requires
        c.touched_by(early),
        early <= late,
    ensures
        c.touched_by(late),
{
    assert forall|i: int| 0 <= i < c.sets@.len() implies touched_by(#[trigger] c.sets@[i].blocks@, late) by {
        assert(touched_by(c.sets@[i].blocks@, early));
    }
}

/// An access that leaves the block present, repeated at the same time with
/// the same kind, changes nothing.
pub proof fn lemma_access_again(
    s0: Slots,
    s1: Slots,
    policy: EvictionPolicy,
    address: BlockAddress,
    size: u64,
    time: u64,
    write: bool,
    allocate: bool,
)
    requires
        tags_unique(s1),
        accessed(s0, s1, policy, address, size, time, write, allocate),
        allocate || holds_tag(s0, address.tag),
    ensures
        holds_tag(s1, address.tag),
        after_touch(s1, address.tag, time, write) == s1,
{
    if holds_tag(s0, address.tag) {
        let h = slot_of(s0, address.tag);
        assert(has_tag_at(s0, h, address.tag));
        assert(has_tag_at(s1, h, address.tag));
        lemma_slot_of(s1, address.tag, h);
        assert(s1.update(h, s1[h]) =~= s1);
    } else {
        let e = choose|e: Option<Block>| filled(s0, s1, policy, address, size, time, write, e);
        let k = choose|k: int|
            #[trigger] is_fill_slot(s0, policy, k) && s1 == s0.update(
                k,
                Some(fresh_block(address, size, time, write)),
            ) && e == s0[k];
        assert(has_tag_at(s1, k, address.tag));
        lemma_slot_of(s1, address.tag, k);
        assert(s1.update(k, s1[k]) =~= s1);
    }
}

/// An access brings in no tag but its own: any other tag present after it
/// was present before.
pub proof fn lemma_accessed_adds_only(
    s0: Slots,
    s1: Slots,
    policy: EvictionPolicy,
    address: BlockAddress,
    size: u64,
    time: u64,
    write: bool,
    allocate: bool,
    tag: u64,
)
    requires
        accessed(s0, s1, policy, address, size, time, write, allocate),
        holds_tag(s1, tag),
        tag != address.tag,
    ensures
        holds_tag(s0, tag),
{
    let j = choose|j: int| has_tag_at(s1, j, tag);
    if holds_tag(s0, address.tag) {
        let h = slot_of(s0, address.tag);
        assert(has_tag_at(s0, h, address.tag));
        if j != h {
            assert(has_tag_at(s0, j, tag));
        }
    } else if allocate {
        let e = choose|e: Option<Block>| filled(s0, s1, policy, address, size, time, write, e);
        let k = choose|k: int|
            #[trigger] is_fill_slot(s0, policy, k) && s1 == s0.update(
                k,
                Some(fresh_block(address, size, time, write)),
            ) && e == s0[k];
        if j != k {
            assert(has_tag_at(s0, j, tag));
        }
    } else {
        assert(has_tag_at(s0, j, tag));
    }
}

/// In a well-formed cache every present block sits in the set its index
/// names and was last accessed no earlier than it was loaded. Every
/// operation of `Cache` keeps the cache well formed.
pub proof fn lemma_blocks_in_their_sets(c: Cache)
    requires
        c.wf(),
    ensures
        forall|i: int, k: int|
            0 <= i < c@.len() && 0 <= k < c@[i].len() && (#[trigger] c@[i][k]) is Some ==> {
                &&& c@[i][k]->Some_0.index == i
                &&& c@[i][k]->Some_0.first_access <= c@[i][k]->Some_0.last_access
            },
{
    assert forall|i: int, k: int|
        0 <= i < c@.len() && 0 <= k < c@[i].len() && (#[trigger] c@[i][k]) is Some implies {
            &&& c@[i][k]->Some_0.index == i
            &&& c@[i][k]->Some_0.first_access <= c@[i][k]->Some_0.last_access
        } by {
        assert(c.sets@[i].wf(i as u64));
        assert(c@[i] == c.sets@[i].blocks@);
    }
}

/// No set of a well-formed cache holds more blocks than the associativity.
/// Every operation of `Cache` keeps the cache well formed.
pub proof fn lemma_sets_within_associativity(c: Cache)
    requires
        c.wf(),
    ensures
        forall|i: int| 0 <= i < c@.len() ==> present_count(#[trigger] c@[i]) <= c.associativity,
{
    assert forall|i: int| 0 <= i < c@.len() implies present_count(#[trigger] c@[i])
        <= c.associativity by {
        assert(c@[i] == c.sets@[i].blocks@);
        lemma_present_count_bound(c@[i]);
    }
}

/// After a hit at time `time` on a set whose blocks were all accessed
/// before `time`, the block hit carries `time` as its last access, and an
/// LRU eviction from the full set (of at least two ways) picks a block
/// last accessed before `time`.
pub proof fn lemma_lru_evicts_older_than_hit(s: Slots, tag: u64, time: u64, write: bool, k: int)
    requires
        tags_unique(s),
        holds_tag(s, tag),
        forall|i: int| 0 <= i < s.len() && s[i] is Some ==> (#[trigger] s[i])->Some_0.last_access < time,
        s.len() >= 2,
        all_present(s),
        is_victim(after_touch(s, tag, time, write), EvictionPolicy::LRU, k),
    ensures
        after_touch(s, tag, time, write)[slot_of(s, tag)]->Some_0.last_access == time,
        after_touch(s, tag, time, write)[k]->Some_0.last_access < time,
{
    let h = slot_of(s, tag);
    let a = after_touch(s, tag, time, write);
    let other = if h == 0 {
        1int
    } else {
        0int
    };
    assert(a[other] is Some);
    assert(rank(EvictionPolicy::LRU, a[k]->Some_0) <= rank(EvictionPolicy::LRU, a[other]->Some_0));
}

} // verus!
