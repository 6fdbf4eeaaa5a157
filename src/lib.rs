//! A trace-driven simulator of a memory hierarchy: address translation
//! through a page table and a TLB, followed by a first-level data cache and
//! an optional second-level cache.
pub mod cache;
pub mod config;
pub mod dc;
pub mod l2;
pub mod output;
pub mod pagetable;
pub mod parse;
pub mod simulator;
pub mod tlb;
pub mod trace;

pub use cache::{Block, Cache, CacheSet, EvictionPolicy};
pub use config::{DataCacheConfig, L2CacheConfig, PageTableConfig, SimulatorConfig, TLBConfig};
pub use dc::DataCache;
pub use l2::L2Cache;
pub use output::{AccessOutput, SimulatorOutput};
pub use pagetable::{PageTable, PageTableEntry};
pub use parse::{parse_config, parse_trace, ConfigError, ConfigErrorKind};
pub use simulator::Simulator;
pub use tlb::TLBCache;
pub use trace::{BlockAddress, Operation, Trace};
