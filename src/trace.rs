use vstd::arithmetic::div_mod::{
    lemma_div_denominator, lemma_fundamental_div_mod, lemma_mod_pos_bound,
    lemma_multiply_divide_lt,
};
use vstd::arithmetic::power2::{lemma_pow2_adds, lemma_pow2_pos, pow2};
use vstd::bits::{
    lemma_u64_low_bits_mask_is_mod, lemma_u64_pow2_no_overflow, lemma_u64_shl_is_mul,
    lemma_u64_shr_is_div, low_bits_mask,
};
use crate::config::{log2, SimulatorConfig};
use vstd::prelude::*;

verus! {

/// The width in bits of the addresses that the simulator decodes.
pub const ADDRESS_BITS: u64 = 32;

/// The tag of `address`: the bits above the index and the offset.
pub open spec fn tag_of(address: nat, index_bits: nat, offset_bits: nat) -> nat {
    address / pow2(index_bits + offset_bits)
}

/// The index of `address`: the `index_bits` bits above the offset.
pub open spec fn index_of(address: nat, index_bits: nat, offset_bits: nat) -> nat {
    (address / pow2(offset_bits)) % pow2(index_bits)
}

/// The offset of `address`: its low `offset_bits` bits.
pub open spec fn offset_of(address: nat, offset_bits: nat) -> nat {
    address % pow2(offset_bits)
}

/// A memory access operation to be performed by the simulator.
#[derive(Clone, Copy, Debug, PartialEq, Eq, Structural)]
pub enum Operation {
    Read(u64),
    Write(u64),
}

impl Operation {
    pub open spec fn spec_is_read(self) -> bool {
        self is Read
    }

    pub open spec fn spec_address(self) -> u64 {
        match self {
            Operation::Read(a) => a,
            Operation::Write(a) => a,
        }
    }

    pub fn is_read(&self) -> (r: bool)
        ensures
            r == self.spec_is_read(),
    {
        match self {
            Operation::Read(_) => true,
            Operation::Write(_) => false,
        }
    }

    pub fn is_write(&self) -> (r: bool)
        ensures
            r == !self.spec_is_read(),
    {
        match self {
            Operation::Read(_) => false,
            Operation::Write(_) => true,
        }
    }

    pub fn address(&self) -> (r: u64)
        ensures
            r == self.spec_address(),
    {
        match self {
            Operation::Read(address) => *address,
            Operation::Write(address) => *address,
        }
    }
}

/// A byte address decoded for one cache geometry: tag, index and offset.
#[derive(Clone, Copy, Debug, PartialEq, Eq, Structural)]
pub struct BlockAddress {
    /// The uppermost bits of the address, compared against a block's tag.
    pub tag: u64,
    /// The middle bits of the address, selecting the set.
    pub index: u64,
    /// The lowermost bits of the address, the byte within the line.
    pub offset: u64,
    /// The number of bits in the tag.
    pub tag_bits: u64,
    /// The number of bits in the index.
    pub index_bits: u64,
    /// The number of bits in the offset.
    pub offset_bits: u64,
}

/// The decoding of `address` with the given index and offset widths.
pub open spec fn decode(address: u64, index_bits: u64, offset_bits: u64) -> BlockAddress {
    BlockAddress {
        tag: tag_of(address as nat, index_bits as nat, offset_bits as nat) as u64,
        index: index_of(address as nat, index_bits as nat, offset_bits as nat) as u64,
        offset: offset_of(address as nat, offset_bits as nat) as u64,
        tag_bits: (ADDRESS_BITS - index_bits - offset_bits) as u64,
        index_bits,
        offset_bits,
    }
}

impl BlockAddress {
    /// The three widths add up to the address width and each field fits in
    /// its width.
    pub open spec fn wf(self) -> bool {
        &&& self.tag_bits + self.index_bits + self.offset_bits == ADDRESS_BITS
        &&& self.tag < pow2(self.tag_bits as nat)
        &&& self.index < pow2(self.index_bits as nat)
        &&& self.offset < pow2(self.offset_bits as nat)
    }

    /// The address that the three fields stand for.
    pub open spec fn spec_address(self) -> nat {
        (self.tag * pow2((self.index_bits + self.offset_bits) as nat) + self.index * pow2(
            self.offset_bits as nat,
        ) + self.offset) as nat
    }

    /// Splits `address` into tag, index and offset.
    pub fn new(address: u64, index_bits: u64, offset_bits: u64) -> (r: Self)
        requires
            index_bits + offset_bits <= ADDRESS_BITS,
        ensures
            r == decode(address, index_bits, offset_bits),
    {
        proof {
            lemma_mask_is_mod(address, index_bits);
            lemma_mask_is_mod(address, offset_bits);
            lemma_pow2_pos(index_bits as nat);
            lemma_pow2_pos(offset_bits as nat);
        }
        let tag = address >> (index_bits + offset_bits);
        let index = (address >> offset_bits) & ((1u64 << index_bits) - 1);
        let offset = address & ((1u64 << offset_bits) - 1);
        proof {
            lemma_u64_shr_is_div(address, (index_bits + offset_bits) as u64);
            lemma_u64_shr_is_div(address, offset_bits);
            lemma_mask_is_mod(address >> offset_bits, index_bits);
            lemma_mask_is_mod(address, offset_bits);
        }
        let tag_bits = ADDRESS_BITS - index_bits - offset_bits;
        BlockAddress { tag, index, offset, tag_bits, index_bits, offset_bits }
    }

    /// Decodes `address` for the data cache's geometry.
    pub fn new_data_cache_address(address: u64, config: &SimulatorConfig) -> (r: Self)
        requires
            config.wf(),
        ensures
            r == decode(
                address,
                log2(config.data_cache.number_of_sets) as u64,
                log2(config.data_cache.line_size) as u64,
            ),
    {
        let index_bits = config.get_data_cache_index_bits();
        let offset_bits = config.get_data_cache_offset_bits();
        Self::new(address, index_bits, offset_bits)
    }

    /// Decodes `address` for the second-level cache's geometry.
    pub fn new_l2_cache_address(address: u64, config: &SimulatorConfig) -> (r: Self)
        requires
            config.wf(),
        ensures
            r == decode(
                address,
                log2(config.l2_cache.number_of_sets) as u64,
                log2(config.l2_cache.line_size) as u64,
            ),
    {
        let index_bits = config.get_l2_cache_index_bits();
        let offset_bits = config.get_l2_cache_offset_bits();
        Self::new(address, index_bits, offset_bits)
    }

    /// Decodes `address` into page-table index and page offset.
    pub fn new_page_table_address(address: u64, config: &SimulatorConfig) -> (r: Self)
        requires
            config.wf(),
            log2(config.page_table.number_of_virtual_pages) + log2(config.page_table.page_size)
                <= ADDRESS_BITS,
        ensures
            r == decode(
                address,
                log2(config.page_table.number_of_virtual_pages) as u64,
                log2(config.page_table.page_size) as u64,
            ),
    {
        let index_bits = config.get_page_table_index_bits();
        let offset_bits = config.get_page_table_offset_bits();
        Self::new(address, index_bits, offset_bits)
    }

    /// The TLB key of `address`: its virtual page number, decoded with no
    /// offset bits.
    pub fn new_tlb_address(address: u64, config: &SimulatorConfig) -> (r: Self)
        requires
            config.wf(),
        ensures
            r == decode(
                (address / config.page_table.page_size) as u64,
                log2(config.tlb.number_of_sets) as u64,
                0,
            ),
    {
        let index_bits = config.get_tlb_index_bits();
        let offset_bits = config.get_page_table_offset_bits();
        proof {
            lemma_u64_shr_is_div(address, offset_bits);
        }
        let page_number = address >> offset_bits;
        Self::new(page_number, index_bits, 0)
    }

    /// Puts the address back together from its fields.
    pub fn get_address(&self) -> (r: u64)
        requires
            self.wf(),
        ensures
            r == self.spec_address(),
    {
        proof {
            lemma_fields_fit(*self);
        }
        (self.tag << (self.offset_bits + self.index_bits)) + (self.index << self.offset_bits)
            + self.offset
    }
}

/// Masking with `(1 << bits) - 1` keeps the remainder modulo `2^bits`.
proof fn lemma_mask_is_mod(x: u64, bits: u64)
    requires
        bits < 64,
    ensures
        x & (((1u64 << bits) - 1) as u64) == x as nat % pow2(bits as nat),
        (1u64 << bits) == pow2(bits as nat),
{
    lemma_u64_pow2_no_overflow(bits as nat);
    lemma_u64_shl_is_mul(1, bits);
    lemma_u64_low_bits_mask_is_mod(x, bits as nat);
}

/// The shifted fields of a well-formed address fit in 64 bits and do not
/// overflow when added.
proof fn lemma_fields_fit(a: BlockAddress)
    requires
        a.wf(),
    ensures
        (a.tag << (a.offset_bits + a.index_bits)) == a.tag * pow2(
            (a.index_bits + a.offset_bits) as nat,
        ),
        (a.index << a.offset_bits) == a.index * pow2(a.offset_bits as nat),
        a.spec_address() < pow2(ADDRESS_BITS as nat),
        pow2(ADDRESS_BITS as nat) <= u64::MAX,
{
    let t = a.tag_bits as nat;
    let i = a.index_bits as nat;
    let o = a.offset_bits as nat;
    lemma_pow2_adds(i, o);
    lemma_pow2_adds(t, i + o);
    lemma_pow2_adds(i, o);
    lemma_pow2_pos(o);
    lemma_pow2_pos(i + o);
    lemma_u64_pow2_no_overflow(32);
    // index * 2^o + offset < 2^(i+o)
    assert(a.index * pow2(o) + a.offset < pow2(i + o)) by (nonlinear_arith)
        requires
            a.index < pow2(i),
            a.offset < pow2(o),
            pow2(i + o) == pow2(i) * pow2(o),
    ;
    // tag * 2^(i+o) + rest < 2^32
    assert(a.tag * pow2(i + o) + (a.index * pow2(o) + a.offset) < pow2(t + (i + o)))
        by (nonlinear_arith)
        requires
            a.tag < pow2(t),
            a.index * pow2(o) + a.offset < pow2(i + o),
            pow2(t + (i + o)) == pow2(t) * pow2(i + o),
    ;
    assert(a.tag * pow2(i + o) <= a.spec_address());
    assert(a.index * pow2(o) <= a.spec_address());
    lemma_u64_shl_is_mul(a.tag, (a.offset_bits + a.index_bits) as u64);
    lemma_u64_shl_is_mul(a.index, a.offset_bits);
}

/// A trace of memory access operations, in the order they are performed.
#[derive(Clone, Debug)]
pub struct Trace {
    pub operations: Vec<Operation>,
}

impl Trace {
    /// An empty trace.
    pub fn new() -> (r: Self)
        ensures
            r.operations@ == Seq::<Operation>::empty(),
    {
        Trace { operations: Vec::new() }
    }

    pub fn len(&self) -> (r: usize)
        ensures
            r == self.operations@.len(),
    {
        self.operations.len()
    }

    pub fn is_empty(&self) -> (r: bool)
        ensures
            r == (self.operations@.len() == 0),
    {
        self.operations.len() == 0
    }

    /// The operation at position `index`, if there is one.
    pub fn get(&self, index: usize) -> (r: Option<Operation>)
        ensures
            index < self.operations@.len() ==> r == Some(self.operations@[index as int]),
            index >= self.operations@.len() ==> r is None,
    {
        if index < self.operations.len() {
            Some(self.operations[index])
        } else {
            None
        }
    }

    /// Appends an operation at the end of the trace.
    pub fn push(&mut self, operation: Operation)
        ensures
            final(self).operations@ == old(self).operations@.push(operation),
    {
        self.operations.push(operation);
    }

    pub fn iter(&self) -> (r: std::slice::Iter<'_, Operation>)
    {
        self.operations.as_slice().iter()
    }

    pub fn into_iter(self) -> (r: std::vec::IntoIter<Operation>)
    {
        self.operations.into_iter()
    }
}

impl Default for Trace {
    fn default() -> (r: Self)
        ensures
            r.operations@ == Seq::<Operation>::empty(),
    {
        Trace::new()
    }
}

/// The index of a decoded address selects one of `2^index_bits` sets.
pub proof fn lemma_decode_index_bound(address: u64, index_bits: u64, offset_bits: u64)
    requires
        index_bits + offset_bits <= ADDRESS_BITS,
    ensures
        decode(address, index_bits, offset_bits).index < pow2(index_bits as nat),
        decode(address, index_bits, offset_bits).index == index_of(
            address as nat,
            index_bits as nat,
            offset_bits as nat,
        ),
{
    lemma_pow2_pos(index_bits as nat);
    lemma_pow2_pos(offset_bits as nat);
    lemma_u64_pow2_no_overflow(index_bits as nat);
    lemma_mod_pos_bound(address as int / pow2(offset_bits as nat) as int, pow2(index_bits as nat) as int);
}

/// Decoding an address below `2^32` and putting the fields back together
/// gives the address again, and the decoded fields fit in their widths.
pub proof fn lemma_decode_round_trip(address: u64, index_bits: u64, offset_bits: u64)
    requires
        index_bits + offset_bits <= ADDRESS_BITS,
        address < pow2(ADDRESS_BITS as nat),
    ensures
        decode(address, index_bits, offset_bits).wf(),
        decode(address, index_bits, offset_bits).spec_address() == address,
{
    let a = address as int;
    let i = index_bits as nat;
    let o = offset_bits as nat;
    let t = (ADDRESS_BITS - index_bits - offset_bits) as nat;
    let d = decode(address, index_bits, offset_bits);
    lemma_pow2_pos(i);
    lemma_pow2_pos(o);
    lemma_pow2_pos(t);
    lemma_pow2_adds(i, o);
    lemma_pow2_adds(t, i + o);
    lemma_fundamental_div_mod(a, pow2(o) as int);
    lemma_fundamental_div_mod(a / pow2(o) as int, pow2(i) as int);
    lemma_div_denominator(a, pow2(o) as int, pow2(i) as int);
    lemma_mod_pos_bound(a, pow2(o) as int);
    lemma_mod_pos_bound(a / pow2(o) as int, pow2(i) as int);
    assert(pow2(o) * pow2(i) == pow2(i + o)) by (nonlinear_arith)
        requires
            pow2(i + o) == pow2(i) * pow2(o),
    ;
    lemma_multiply_divide_lt(a, pow2(i + o) as int, pow2(t) as int);
    lemma_u64_pow2_no_overflow(32);
    let q = a / pow2(o) as int;
    assert(a == (q / pow2(i) as int) * pow2(i + o) + (q % pow2(i) as int) * pow2(o) + a % pow2(
        o,
    ) as int) by (nonlinear_arith)
        requires
            a == pow2(o) * q + a % pow2(o) as int,
            q == pow2(i) * (q / pow2(i) as int) + q % pow2(i) as int,
            pow2(i + o) == pow2(i) * pow2(o),
    ;
}

} // verus!
