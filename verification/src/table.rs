use vstd::prelude::*;
use vstd::slice::{slice_index_get, slice_subrange};
use std::sync::Arc;
use crate::bytes::{read_u32_be, u32_be_at};
use crate::cache::{KeyBlockCache, ValueBlockCache};
use crate::compress::{decompress_exact, spec_decompress_exact};
use crate::error::FormatError;
use crate::filter::{
    decoded_filter, filter_contains, filter_keys, filter_from_bytes, filter_probe_safe,
    filter_section_ok, spec_filter_section_ok, AqmfCache,
};
use crate::header::{
    lemma_header_in_file, parse_header, spec_aqmf_bytes, spec_key_dict, spec_parse_header,
    spec_value_dict, Header,
};
use crate::index_block::{index_block_lookup, spec_index_lookup, BLOCK_TYPE_INDEX};
use crate::key_block::{
    kb_count, kb_entries_ok, kb_key_at, kb_payload_at, kb_sorted, key_block_search,
    lemma_key_block_exact, spec_key_block_search, EntryPayload, BLOCK_TYPE_KEY,
};
use crate::shared::SharedBytes;

verus! {

#[verifier::external_type_specification]
#[verifier::external_body]
pub struct ExMmap(memmap2::Mmap);

/// The bytes of a memory-mapped table file. Table files are immutable once
/// written, so the mapped content is a fixed property of the map.
pub uninterp spec fn mmap_bytes(m: memmap2::Mmap) -> Seq<u8>;

/// Relies on memmap2::Mmap's Deref impl: a map is a read-only byte slice,
/// and the underlying table file never changes once written.
#[verifier::external_body]
fn mmap_as_slice(m: &memmap2::Mmap) -> (r: &[u8])
    ensures
        r@ == mmap_bytes(*m),
{
    &*m
}

/// One-time storage for the parsed header of a file.
#[verifier::external_body]
pub(crate) struct HeaderCell {
    cell: std::sync::OnceLock<Result<Header, FormatError>>,
}

impl HeaderCell {
    /// Relies on std::sync::OnceLock::new: the cell starts empty and is
    /// filled at most once.
    #[verifier::external_body]
    pub(crate) fn empty() -> (r: Self) {
        HeaderCell { cell: std::sync::OnceLock::new() }
    }
}

/// Everything one lookup can say about a key, as a mathematical value.
pub enum LookupModel {
    /// The key was explicitly removed.
    Deleted,
    /// The key maps to these inline value bytes.
    Small(Seq<u8>),
    /// The key maps to a blob stored under this sequence number.
    Blob(u32),
    /// The membership filter proves the key absent.
    QuickFilterMiss,
    /// The key lies outside the ranges the index blocks cover.
    RangeMiss,
    /// The key is not among the key block's entries.
    KeyMiss,
}

/// Everything one lookup can say about a key. The three miss variants and
/// `Deleted` are successful results, not errors; they are kept apart for
/// diagnostics.
#[derive(Debug)]
pub enum LookupResult {
    /// The key was explicitly removed.
    Deleted,
    /// The key maps to these inline value bytes, shared with the block cache.
    Small { value: SharedBytes },
    /// The key maps to a blob stored under this sequence number.
    Blob { sequence_number: u32 },
    /// The membership filter proves the key absent; no block was read.
    QuickFilterMiss,
    /// The key lies outside the ranges the index blocks cover.
    RangeMiss,
    /// The key is not among the key block's entries.
    KeyMiss,
}

impl View for LookupResult {
    type V = LookupModel;

    open spec fn view(&self) -> LookupModel {
        match self {
            LookupResult::Deleted => LookupModel::Deleted,
            LookupResult::Small { value } => LookupModel::Small(value@),
            LookupResult::Blob { sequence_number } => LookupModel::Blob(*sequence_number),
            LookupResult::QuickFilterMiss => LookupModel::QuickFilterMiss,
            LookupResult::RangeMiss => LookupModel::RangeMiss,
            LookupResult::KeyMiss => LookupModel::KeyMiss,
        }
    }
}

/// An executable lookup result agrees with its model.
pub open spec fn lookup_matches(
    r: Result<LookupResult, FormatError>,
    s: Result<LookupModel, FormatError>,
) -> bool {
    match r {
        Ok(v) => s == Ok::<LookupModel, FormatError>(v@),
        Err(e) => s == Err::<LookupModel, FormatError>(e),
    }
}

/// Reads and decompresses block `i` against the given dictionary: the block
/// span comes from the cumulative offset table, its first four bytes give
/// the uncompressed length, the rest is one compressed frame.
pub open spec fn spec_read_block(file: Seq<u8>, h: Header, i: u8, dict: Seq<u8>) -> Result<
    Seq<u8>,
    FormatError,
> {
    if i >= h.block_count {
        Err(FormatError::Truncated)
    } else {
        let off_pos = h.block_offsets_start + 4 * (i as int);
        let off_end = u32_be_at(file, off_pos) as int;
        let off_start = if i == 0 {
            0int
        } else {
            u32_be_at(file, off_pos - 4) as int
        };
        if off_end > file.len() - h.blocks_start {
            Err(FormatError::Truncated)
        } else if off_start + 4 > off_end {
            Err(FormatError::Truncated)
        } else {
            let bs = h.blocks_start + off_start;
            let be = h.blocks_start + off_end;
            spec_decompress_exact(file.subrange(bs + 4, be), dict, u32_be_at(file, bs))
        }
    }
}

/// Block `i` decompressed with the key-path dictionary.
pub open spec fn spec_key_path_block(file: Seq<u8>, i: u8) -> Result<Seq<u8>, FormatError> {
    match spec_parse_header(file) {
        Err(e) => Err(e),
        Ok(h) => spec_read_block(file, h, i, spec_key_dict(file, h)),
    }
}

/// Block `i` decompressed with the value dictionary.
pub open spec fn spec_value_path_block(file: Seq<u8>, i: u8) -> Result<Seq<u8>, FormatError> {
    match spec_parse_header(file) {
        Err(e) => Err(e),
        Ok(h) => spec_read_block(file, h, i, spec_value_dict(file, h)),
    }
}

/// The key set of the file's membership filter. A filter section that does
/// not have the expected shape, or whose structure could send a probe into
/// an endless walk, is rejected as corrupt before it is ever queried.
pub open spec fn spec_file_filter(file: Seq<u8>) -> Result<Set<Seq<u8>>, FormatError> {
    match spec_parse_header(file) {
        Err(e) => Err(e),
        Ok(h) => if !spec_filter_section_ok(spec_aqmf_bytes(file, h)) {
            Err(FormatError::BadFilter)
        } else {
            match decoded_filter(spec_aqmf_bytes(file, h)) {
                Some(keys) => Ok(keys),
                None => Err(FormatError::BadFilter),
            }
        },
    }
}

/// The value bytes an inline entry points at: a window of a decompressed
/// value block.
pub open spec fn spec_value_slice(file: Seq<u8>, i: u8, position: u32, size: u32) -> Result<
    Seq<u8>,
    FormatError,
> {
    match spec_value_path_block(file, i) {
        Err(e) => Err(e),
        Ok(vb) => {
            if position + size > vb.len() {
                Err(FormatError::Truncated)
            } else {
                Ok(vb.subrange(position as int, position + size))
            }
        },
    }
}

/// Descends from block `idx` through index blocks until a key block answers.
/// `fuel` bounds the number of hops: a descent longer than the number of
/// possible block indices must revisit a block, so the index blocks form a
/// cycle and the file is rejected.
pub open spec fn spec_traverse(file: Seq<u8>, key: Seq<u8>, idx: u8, fuel: nat) -> Result<
    LookupModel,
    FormatError,
>
    decreases fuel,
{
    if fuel == 0 {
        Err(FormatError::CyclicIndex)
    } else {
        match spec_key_path_block(file, idx) {
            Err(e) => Err(e),
            Ok(b) => {
                if b.len() < 1 {
                    Err(FormatError::Truncated)
                } else if b[0] == BLOCK_TYPE_INDEX {
                    match spec_index_lookup(b, key) {
                        Err(e) => Err(e),
                        Ok(None) => Ok(LookupModel::RangeMiss),
                        Ok(Some(c)) => spec_traverse(file, key, c, (fuel - 1) as nat),
                    }
                } else if b[0] == BLOCK_TYPE_KEY {
                    match spec_key_block_search(b, key) {
                        Err(e) => Err(e),
                        Ok(None) => Ok(LookupModel::KeyMiss),
                        Ok(Some(EntryPayload::Normal { block, size, position })) => match
                            spec_value_slice(file, block, position, size) {
                            Err(e) => Err(e),
                            Ok(v) => Ok(LookupModel::Small(v)),
                        },
                        Ok(Some(EntryPayload::Blob { sequence_number })) => Ok(
                            LookupModel::Blob(sequence_number),
                        ),
                        Ok(Some(EntryPayload::Deleted)) => Ok(LookupModel::Deleted),
                    }
                } else {
                    Err(FormatError::UnknownBlockType)
                }
            },
        }
    }
}

/// What a lookup of `key` in a file holding `file` bytes must answer: the
/// membership filter first (a provably absent key reads no block), then the
/// descent from block zero.
pub open spec fn spec_lookup(file: Seq<u8>, key: Seq<u8>) -> Result<LookupModel, FormatError> {
    match spec_file_filter(file) {
        Err(e) => Err(e),
        Ok(keys) => {
            if !keys.contains(key) {
                Ok(LookupModel::QuickFilterMiss)
            } else {
                spec_traverse(file, key, 0, 256)
            }
        },
    }
}

/// One open, immutable, memory-mapped table file.
pub struct StaticSortedFile {
    sequence_number: u32,
    mmap: memmap2::Mmap,
    header: HeaderCell,
}

impl StaticSortedFile {
    /// The mapped bytes of this table file.
    pub closed spec fn spec_bytes(&self) -> Seq<u8> {
        mmap_bytes(self.mmap)
    }

    /// The process-unique id under which this file's blocks are cached.
    pub closed spec fn spec_sequence_number(&self) -> u32 {
        self.sequence_number
    }

    /// Wraps an already mapped table file. The sequence number must be
    /// unique among the files this process has open: the caches key on it.
    pub fn new(sequence_number: u32, mmap: memmap2::Mmap) -> (r: Self)
        ensures
            r.spec_bytes() == mmap_bytes(mmap),
            r.spec_sequence_number() == sequence_number,
    {
        StaticSortedFile { sequence_number, mmap, header: HeaderCell::empty() }
    }

    /// The id this file was opened under.
    pub fn sequence_number(&self) -> (r: u32)
        ensures
            r == self.spec_sequence_number(),
    {
        self.sequence_number
    }

    /// Relies on std::sync::OnceLock::get_or_init: the header is parsed at
    /// most once per file and every caller sees that first result. The cell
    /// is private, starts empty, and is only ever filled here from this
    /// file's bytes, which never change, so the cached result always equals
    /// a fresh parse.
    #[verifier::external_body]
    fn cached_header(&self) -> (r: Result<Header, FormatError>)
        ensures
            r == spec_parse_header(self.spec_bytes()),
    {
        *self.header.cell.get_or_init(|| parse_header(mmap_as_slice(&self.mmap)))
    }

    /// Reads and decompresses one raw block against `dict`.
    fn read_block(&self, h: &Header, block_index: u8, dict: &[u8]) -> (r: Result<
        SharedBytes,
        FormatError,
    >)
        requires
            spec_parse_header(self.spec_bytes()) == Ok::<Header, FormatError>(*h),
        ensures
            match r {
                Ok(b) => spec_read_block(self.spec_bytes(), *h, block_index, dict@)
                    == Ok::<Seq<u8>, FormatError>(b@),
                Err(e) => spec_read_block(self.spec_bytes(), *h, block_index, dict@)
                    == Err::<Seq<u8>, FormatError>(e),
            },
    {
        proof {
            lemma_header_in_file(self.spec_bytes(), *h);
        }
        let file = mmap_as_slice(&self.mmap);
        let flen = file.len();
        if block_index >= h.block_count {
            return Err(FormatError::Truncated);
        }
        let off_pos = h.block_offsets_start + (block_index as usize) * 4;
        let off_end = read_u32_be(file, off_pos) as usize;
        let off_start = if block_index == 0 {
            0
        } else {
            read_u32_be(file, off_pos - 4) as usize
        };
        let avail = flen - h.blocks_start;
        if off_end > avail {
            return Err(FormatError::Truncated);
        }
        if (off_start as u64) + 4 > (off_end as u64) {
            return Err(FormatError::Truncated);
        }
        let bs = h.blocks_start + off_start;
        let be = h.blocks_start + off_end;
        let ulen = read_u32_be(file, bs);
        let frame = slice_subrange(file, bs + 4, be);
        decompress_exact(frame, ulen as usize, dict)
    }

    /// Reads block `block_index` with the key-path dictionary.
    pub(crate) fn read_key_block(&self, block_index: u8) -> (r: Result<SharedBytes, FormatError>)
        ensures
            match r {
                Ok(b) => spec_key_path_block(self.spec_bytes(), block_index)
                    == Ok::<Seq<u8>, FormatError>(b@),
                Err(e) => spec_key_path_block(self.spec_bytes(), block_index)
                    == Err::<Seq<u8>, FormatError>(e),
            },
    {
        let h = match self.cached_header() {
            Ok(h) => h,
            Err(e) => return Err(e),
        };
        proof {
            lemma_header_in_file(self.spec_bytes(), h);
        }
        let file = mmap_as_slice(&self.mmap);
        let dict = slice_subrange(file, h.key_dict_start, h.key_dict_end);
        self.read_block(&h, block_index, dict)
    }

    /// Reads block `block_index` with the value dictionary.
    pub(crate) fn read_value_block(&self, block_index: u8) -> (r: Result<SharedBytes, FormatError>)
        ensures
            match r {
                Ok(b) => spec_value_path_block(self.spec_bytes(), block_index)
                    == Ok::<Seq<u8>, FormatError>(b@),
                Err(e) => spec_value_path_block(self.spec_bytes(), block_index)
                    == Err::<Seq<u8>, FormatError>(e),
            },
    {
        let h = match self.cached_header() {
            Ok(h) => h,
            Err(e) => return Err(e),
        };
        proof {
            lemma_header_in_file(self.spec_bytes(), h);
        }
        let file = mmap_as_slice(&self.mmap);
        let dict = slice_subrange(file, h.value_dict_start, h.value_dict_end);
        self.read_block(&h, block_index, dict)
    }

    /// Deserializes this file's membership filter from its header-designated
    /// byte range.
    pub(crate) fn load_filter(&self) -> (r: Result<Arc<qfilter::Filter>, FormatError>)
        ensures
            match r {
                Ok(f) => spec_file_filter(self.spec_bytes()) == Ok::<Set<Seq<u8>>, FormatError>(
                    filter_keys(*f),
                ) && filter_probe_safe(*f),
                Err(e) => spec_file_filter(self.spec_bytes()) == Err::<Set<Seq<u8>>, FormatError>(
                    e,
                ),
            },
    {
        let h = match self.cached_header() {
            Ok(h) => h,
            Err(e) => return Err(e),
        };
        proof {
            lemma_header_in_file(self.spec_bytes(), h);
        }
        let file = mmap_as_slice(&self.mmap);
        let aqmf = slice_subrange(file, h.aqmf_start, h.aqmf_end);
        if !filter_section_ok(aqmf) {
            return Err(FormatError::BadFilter);
        }
        filter_from_bytes(aqmf)
    }

    /// Slices the requested byte range out of a cached value block.
    fn lookup_value_block(
        &self,
        block_index: u8,
        position: u32,
        size: u32,
        value_block_cache: &ValueBlockCache,
    ) -> (r: Result<SharedBytes, FormatError>)
        ensures
            match r {
                Ok(v) => spec_value_slice(self.spec_bytes(), block_index, position, size)
                    == Ok::<Seq<u8>, FormatError>(v@),
                Err(e) => spec_value_slice(self.spec_bytes(), block_index, position, size)
                    == Err::<Seq<u8>, FormatError>(e),
            },
    {
        let block = match cached_value_block(value_block_cache, self, block_index) {
            Ok(b) => b,
            Err(e) => return Err(e),
        };
        let blen = block.len();
        if (position as u64) + (size as u64) > (blen as u64) {
            return Err(FormatError::Truncated);
        }
        Ok(block.slice(position as usize, position as usize + size as usize))
    }

    /// Answers what this file says about `key`. The membership filter is
    /// consulted first: a provably absent key is a `QuickFilterMiss` and no
    /// block is read. Otherwise the search descends from block zero through
    /// index blocks to a key block, whose matched entry is decoded into the
    /// result; inline values are sliced out of a cached value block. Every
    /// derived byte range is checked, so a malformed file yields a
    /// `FormatError` instead of a wrong answer.
    pub fn lookup(
        &self,
        key: &[u8],
        aqmf_cache: &AqmfCache,
        key_block_cache: &KeyBlockCache,
        value_block_cache: &ValueBlockCache,
    ) -> (r: Result<LookupResult, FormatError>)
        ensures
            lookup_matches(r, spec_lookup(self.spec_bytes(), key@)),
    {
        let filter = match cached_filter(aqmf_cache, self) {
            Ok(f) => f,
            Err(e) => return Err(e),
        };
        if !filter_contains(&filter, key) {
            return Ok(LookupResult::QuickFilterMiss);
        }
        let mut current_block: u8 = 0;
        let mut fuel: u32 = 256;
        loop
            invariant
                fuel <= 256,
                spec_lookup(self.spec_bytes(), key@) == spec_traverse(
                    self.spec_bytes(),
                    key@,
                    current_block,
                    fuel as nat,
                ),
            decreases fuel,
        {
            if fuel == 0 {
                return Err(FormatError::CyclicIndex);
            }
            let block = match cached_key_block(key_block_cache, self, current_block) {
                Ok(b) => b,
                Err(e) => return Err(e),
            };
            let bs = block.as_slice();
            if bs.len() < 1 {
                return Err(FormatError::Truncated);
            }
            let tag = *slice_index_get(bs, 0);
            if tag == BLOCK_TYPE_INDEX {
                match index_block_lookup(bs, key) {
                    Ok(Some(next)) => {
                        current_block = next;
                        fuel = fuel - 1;
                    },
                    Ok(None) => return Ok(LookupResult::RangeMiss),
                    Err(e) => return Err(e),
                }
            } else if tag == BLOCK_TYPE_KEY {
                match key_block_search(bs, key) {
                    Ok(Some(EntryPayload::Normal { block: vb, size, position })) => {
                        let value = match self.lookup_value_block(
                            vb,
                            position,
                            size,
                            value_block_cache,
                        ) {
                            Ok(v) => v,
                            Err(e) => return Err(e),
                        };
                        return Ok(LookupResult::Small { value });
                    },
                    Ok(Some(EntryPayload::Blob { sequence_number })) => {
                        return Ok(LookupResult::Blob { sequence_number });
                    },
                    Ok(Some(EntryPayload::Deleted)) => {
                        return Ok(LookupResult::Deleted);
                    },
                    Ok(None) => return Ok(LookupResult::KeyMiss),
                    Err(e) => return Err(e),
                }
            } else {
                return Err(FormatError::UnknownBlockType);
            }
        }
    }
}

/// Relies on quick_cache::sync::Cache::get_or_insert_with: it returns the
/// value cached under the key, or else the closure's result after caching
/// it, running the closure at most once per key across concurrent callers.
/// Table files are immutable, sequence numbers are process-unique and every
/// insertion under a (sequence number, block index) key in a key-path cache
/// goes through `read_key_block`, so the returned block always equals a
/// fresh read.
#[verifier::external_body]
fn cached_key_block(cache: &KeyBlockCache, file: &StaticSortedFile, block_index: u8) -> (r: Result<
    SharedBytes,
    FormatError,
>)
    ensures
        match r {
            Ok(b) => spec_key_path_block(file.spec_bytes(), block_index)
                == Ok::<Seq<u8>, FormatError>(b@),
            Err(e) => spec_key_path_block(file.spec_bytes(), block_index)
                == Err::<Seq<u8>, FormatError>(e),
        },
{
    cache.store.get_or_insert_with(
        &(file.sequence_number, block_index),
        || file.read_key_block(block_index),
    )
}

/// Relies on quick_cache::sync::Cache::get_or_insert_with, as above: every
/// insertion under a key in a `ValueBlockCache` goes through
/// `read_value_block`, and the two cache roles are distinct types that
/// cannot be aliased, so the returned block always equals a fresh read.
#[verifier::external_body]
fn cached_value_block(cache: &ValueBlockCache, file: &StaticSortedFile, block_index: u8) -> (r: Result<
    SharedBytes,
    FormatError,
>)
    ensures
        match r {
            Ok(b) => spec_value_path_block(file.spec_bytes(), block_index)
                == Ok::<Seq<u8>, FormatError>(b@),
            Err(e) => spec_value_path_block(file.spec_bytes(), block_index)
                == Err::<Seq<u8>, FormatError>(e),
        },
{
    cache.store.get_or_insert_with(
        &(file.sequence_number, block_index),
        || file.read_value_block(block_index),
    )
}

/// Relies on quick_cache::sync::Cache::get_or_insert_with, as above: every
/// insertion under a sequence number in the filter cache goes through
/// `load_filter`, so the returned filter always equals a fresh load, and
/// like every fresh load it passed the probe-safety check.
#[verifier::external_body]
fn cached_filter(cache: &AqmfCache, file: &StaticSortedFile) -> (r: Result<
    Arc<qfilter::Filter>,
    FormatError,
>)
    ensures
        match r {
            Ok(f) => spec_file_filter(file.spec_bytes()) == Ok::<Set<Seq<u8>>, FormatError>(
                filter_keys(*f),
            ) && filter_probe_safe(*f),
            Err(e) => spec_file_filter(file.spec_bytes()) == Err::<Set<Seq<u8>>, FormatError>(e),
        },
{
    cache.store.get_or_insert_with(&file.sequence_number, || file.load_filter())
}



/// The key block that the fence pointers route `key` to, descending from
/// block `idx`: `None` when the descent errors, leaves the covered range, or
/// runs out of fuel.
pub open spec fn spec_path_block(file: Seq<u8>, key: Seq<u8>, idx: u8, fuel: nat) -> Option<
    Seq<u8>,
>
    decreases fuel,
{
    if fuel == 0 {
        None
    } else {
        match spec_key_path_block(file, idx) {
            Err(_) => None,
            Ok(b) => {
                if b.len() < 1 {
                    None
                } else if b[0] == BLOCK_TYPE_INDEX {
                    match spec_index_lookup(b, key) {
                        Ok(Some(c)) => spec_path_block(file, key, c, (fuel - 1) as nat),
                        _ => None,
                    }
                } else if b[0] == BLOCK_TYPE_KEY {
                    Some(b)
                } else {
                    None
                }
            },
        }
    }
}

/// What a lookup answers for a matched entry: the payload itself, except
/// that an inline value must still be sliced out of its value block.
pub open spec fn payload_outcome(file: Seq<u8>, p: EntryPayload) -> Result<
    LookupModel,
    FormatError,
> {
    match p {
        EntryPayload::Deleted => Ok(LookupModel::Deleted),
        EntryPayload::Blob { sequence_number } => Ok(LookupModel::Blob(sequence_number)),
        EntryPayload::Normal { block, size, position } => match spec_value_slice(
            file,
            block,
            position,
            size,
        ) {
            Ok(v) => Ok(LookupModel::Small(v)),
            Err(e) => Err(e),
        },
    }
}

/// The descent answers exactly what a search of the key block it routes to
/// answers: index blocks only steer, they never change the outcome.
pub proof fn lemma_traverse_reaches_path_block(file: Seq<u8>, key: Seq<u8>, idx: u8, fuel: nat)
    requires
        spec_path_block(file, key, idx, fuel) is Some,
    ensures
        spec_traverse(file, key, idx, fuel) == (match spec_key_block_search(
            spec_path_block(file, key, idx, fuel)->Some_0,
            key,
        ) {
            Err(e) => Err::<LookupModel, FormatError>(e),
            Ok(None) => Ok::<LookupModel, FormatError>(LookupModel::KeyMiss),
            Ok(Some(p)) => payload_outcome(file, p),
        }),
    decreases fuel,
{
    let b = spec_key_path_block(file, idx)->Ok_0;
    if b[0] == BLOCK_TYPE_INDEX {
        let c = spec_index_lookup(b, key)->Ok_0->Some_0;
        lemma_traverse_reaches_path_block(file, key, c, (fuel - 1) as nat);
    }
}

/// Whole-file exactness along the routed path: when the membership filter
/// admits `key` and the descent from the root reaches a well-formed, sorted
/// key block, the lookup answers the matched entry's outcome exactly when
/// `key` occurs verbatim among that block's keys, and a key miss otherwise.
/// Keys the filter proves absent are answered `QuickFilterMiss` without any
/// descent (`lemma_quick_filter_miss_iff`).
pub proof fn lemma_lookup_exact(file: Seq<u8>, key: Seq<u8>)
    requires
        spec_file_filter(file) is Ok,
        spec_file_filter(file)->Ok_0.contains(key),
        spec_path_block(file, key, 0, 256) is Some,
        kb_entries_ok(spec_path_block(file, key, 0, 256)->Some_0),
        kb_sorted(spec_path_block(file, key, 0, 256)->Some_0),
    ensures
        forall|t: int|
            0 <= t < kb_count(spec_path_block(file, key, 0, 256)->Some_0) && kb_key_at(
                spec_path_block(file, key, 0, 256)->Some_0,
                t,
            ) == key ==> spec_lookup(file, key) == payload_outcome(
                file,
                kb_payload_at(spec_path_block(file, key, 0, 256)->Some_0, t),
            ),
        (forall|i: int|
            0 <= i < kb_count(spec_path_block(file, key, 0, 256)->Some_0) ==> kb_key_at(
                spec_path_block(file, key, 0, 256)->Some_0,
                i,
            ) != key) ==> spec_lookup(file, key) == Ok::<LookupModel, FormatError>(
            LookupModel::KeyMiss,
        ),
{
    let pb = spec_path_block(file, key, 0, 256)->Some_0;
    lemma_traverse_reaches_path_block(file, key, 0, 256);
    lemma_key_block_exact(pb, key);
}

/// The descent through the blocks never reports a filter miss:
/// `QuickFilterMiss` can only come from the membership filter itself.
pub proof fn lemma_traverse_no_filter_miss(file: Seq<u8>, key: Seq<u8>, idx: u8, fuel: nat)
    ensures
        spec_traverse(file, key, idx, fuel) != Ok::<LookupModel, FormatError>(
            LookupModel::QuickFilterMiss,
        ),
    decreases fuel,
{
    if fuel > 0 {
        match spec_key_path_block(file, idx) {
            Ok(b) => {
                if b.len() >= 1 && b[0] == BLOCK_TYPE_INDEX {
                    match spec_index_lookup(b, key) {
                        Ok(Some(c)) => lemma_traverse_no_filter_miss(
                            file,
                            key,
                            c,
                            (fuel - 1) as nat,
                        ),
                        _ => {},
                    }
                }
            },
            Err(_) => {},
        }
    }
}

/// The membership filter prunes exactly: a lookup answers `QuickFilterMiss`
/// if and only if the filter proves the key absent, and then no block is
/// consulted. The filter itself never reports an inserted key as absent, so
/// a key the file holds is never lost to this pruning.
pub proof fn lemma_quick_filter_miss_iff(file: Seq<u8>, key: Seq<u8>)
    requires
        spec_file_filter(file) is Ok,
    ensures
        (spec_lookup(file, key) == Ok::<LookupModel, FormatError>(LookupModel::QuickFilterMiss))
            <==> !spec_file_filter(file)->Ok_0.contains(key),
{
    lemma_traverse_no_filter_miss(file, key, 0, 256);
}

} // verus!
