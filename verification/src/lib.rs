//! The read path of an immutable, sorted, block-compressed on-disk table:
//! given a key, decide whether the file holds it and answer with its inline
//! value, a tombstone, a blob reference, or one of three distinguishable
//! miss outcomes. Lookups go through a membership filter, descend a
//! two-level index over compressed blocks, and share decompressed blocks
//! through weighted caches.

use vstd::prelude::*;

pub mod bytes;
pub mod cache;
pub mod compress;
pub mod error;
pub mod filter;
pub mod header;
pub mod index_block;
pub mod key_block;
pub mod shared;
pub mod table;

pub use cache::{BlockWeighter, KeyBlockCache, ValueBlockCache};
pub use error::FormatError;
pub use filter::{AqmfCache, AqmfWeighter};
pub use key_block::EntryPayload;
pub use shared::SharedBytes;
pub use table::{LookupModel, LookupResult, StaticSortedFile};
