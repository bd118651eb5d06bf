use vstd::prelude::*;
use crate::shared::SharedBytes;

verus! {

/// Weighs a cached decompressed block by its byte length plus a small
/// constant for the bookkeeping of the entry itself.
#[derive(Clone, Copy, Default)]
pub struct BlockWeighter;

impl quick_cache::Weighter<(u32, u8), SharedBytes> for BlockWeighter {
    fn weight(&self, _key: &(u32, u8), val: &SharedBytes) -> u64 {
        let l = val.len() as u64;
        if l < u64::MAX - 8 {
            l + 8
        } else {
            u64::MAX
        }
    }
}

/// A process-wide cache of decompressed key-path blocks (index and key
/// blocks) keyed by (file sequence number, block index), weighted by
/// `BlockWeighter`, deduplicating concurrent decompression of the same
/// block. Key-path blocks are decompressed with the key dictionary; value
/// blocks live in a `ValueBlockCache` of their own, so the same block index
/// is never served under the wrong dictionary.
#[verifier::external_body]
pub struct KeyBlockCache {
    pub(crate) store: quick_cache::sync::Cache<
        (u32, u8),
        SharedBytes,
        BlockWeighter,
        std::hash::BuildHasherDefault<rustc_hash::FxHasher>,
    >,
}

impl KeyBlockCache {
    /// Relies on quick_cache::sync::Cache::with: creates an empty, bounded,
    /// thread-safe weighted cache.
    #[verifier::external_body]
    pub fn with_capacity(estimated_items: usize, weight_capacity: u64) -> (r: Self) {
        KeyBlockCache {
            store: quick_cache::sync::Cache::with(
                estimated_items,
                weight_capacity,
                BlockWeighter,
                Default::default(),
                Default::default(),
            ),
        }
    }
}

/// A process-wide cache of decompressed value blocks, the counterpart of
/// `KeyBlockCache` for blocks decompressed with the value dictionary. It is
/// a distinct type so that the two roles cannot be swapped or aliased.
#[verifier::external_body]
pub struct ValueBlockCache {
    pub(crate) store: quick_cache::sync::Cache<
        (u32, u8),
        SharedBytes,
        BlockWeighter,
        std::hash::BuildHasherDefault<rustc_hash::FxHasher>,
    >,
}

impl ValueBlockCache {
    /// Relies on quick_cache::sync::Cache::with: creates an empty, bounded,
    /// thread-safe weighted cache.
    #[verifier::external_body]
    pub fn with_capacity(estimated_items: usize, weight_capacity: u64) -> (r: Self) {
        ValueBlockCache {
            store: quick_cache::sync::Cache::with(
                estimated_items,
                weight_capacity,
                BlockWeighter,
                Default::default(),
                Default::default(),
            ),
        }
    }
}

} // verus!
