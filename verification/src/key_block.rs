use vstd::prelude::*;
use vstd::slice::{slice_index_get, slice_subrange};
use crate::bytes::{u24_be_at, u32_be_at, read_u24_be, read_u32_be, lex_cmp, cmp_bytes, lemma_lex_eq, lemma_lex_antisym, lemma_lex_trans};
use crate::error::FormatError;

verus! {

/// Tag byte that marks a decompressed block as a key block.
pub const BLOCK_TYPE_KEY: u8 = 1;

/// Entry-type tag of an inline small value.
pub const KEY_BLOCK_ENTRY_TYPE_NORMAL: u8 = 0;

/// Entry-type tag of an out-of-line blob reference.
pub const KEY_BLOCK_ENTRY_TYPE_BLOB: u8 = 1;

/// Entry-type tag of a tombstone.
pub const KEY_BLOCK_ENTRY_TYPE_DELETED: u8 = 2;

/// The decoded payload of one key-block entry.
#[derive(Clone, Copy, Debug, PartialEq, Eq, Structural)]
pub enum EntryPayload {
    /// An inline small value: where it lies inside a value block.
    Normal { block: u8, size: u32, position: u32 },
    /// A reference to a blob stored under another sequence number.
    Blob { sequence_number: u32 },
    /// A tombstone: the key was explicitly removed.
    Deleted,
}

/// Number of entries in a key block (tag byte at 0, count at 1).
pub open spec fn kb_count(b: Seq<u8>) -> int {
    u24_be_at(b, 1) as int
}

/// Where the concatenated entry payloads begin: after the tag, the count and
/// the `count` four-byte records (entry type plus start offset).
pub open spec fn kb_entries_base(b: Seq<u8>) -> int {
    4 + 4 * kb_count(b)
}

/// Length of the payload region.
pub open spec fn kb_entries_len(b: Seq<u8>) -> int {
    b.len() - kb_entries_base(b)
}

/// The block's framing is present: tag, count and the full record table.
pub open spec fn kb_framing_ok(b: Seq<u8>) -> bool {
    &&& b.len() >= 4
    &&& kb_entries_base(b) <= b.len()
}

/// Entry `i`'s type tag.
pub open spec fn kb_type(b: Seq<u8>, i: int) -> u8 {
    b[4 + 4 * i]
}

/// Where entry `i`'s span starts, relative to the payload region.
pub open spec fn kb_start(b: Seq<u8>, i: int) -> int {
    u24_be_at(b, 4 + 4 * i + 1) as int
}

/// Where entry `i`'s span ends: the next entry's start, or the end of the
/// payload region for the last entry.
pub open spec fn kb_end(b: Seq<u8>, i: int) -> int {
    if i == kb_count(b) - 1 {
        kb_entries_len(b)
    } else {
        kb_start(b, i + 1)
    }
}

/// Decodes entry `i`: its key bytes and its typed payload. The span's
/// trailing bytes encode the payload; the rest is the key.
pub open spec fn spec_kb_entry(b: Seq<u8>, i: int) -> Result<
    (Seq<u8>, EntryPayload),
    FormatError,
> {
    let eb = kb_entries_base(b);
    let el = kb_entries_len(b);
    let ty = kb_type(b, i);
    let lo = kb_start(b, i);
    let hi = kb_end(b, i);
    if ty == KEY_BLOCK_ENTRY_TYPE_NORMAL {
        if lo + 8 <= hi && hi <= el {
            Ok(
                (
                    b.subrange(eb + lo, eb + hi - 8),
                    EntryPayload::Normal {
                        block: b[eb + hi - 8],
                        size: u24_be_at(b, eb + hi - 7) as u32,
                        position: u32_be_at(b, eb + hi - 4) as u32,
                    },
                ),
            )
        } else {
            Err(FormatError::Truncated)
        }
    } else if ty == KEY_BLOCK_ENTRY_TYPE_BLOB {
        if lo + 4 <= hi && hi <= el {
            Ok(
                (
                    b.subrange(eb + lo, eb + hi - 4),
                    EntryPayload::Blob { sequence_number: u32_be_at(b, eb + hi - 4) as u32 },
                ),
            )
        } else {
            Err(FormatError::Truncated)
        }
    } else if ty == KEY_BLOCK_ENTRY_TYPE_DELETED {
        if lo <= hi && hi <= el {
            Ok((b.subrange(eb + lo, eb + hi), EntryPayload::Deleted))
        } else {
            Err(FormatError::Truncated)
        }
    } else {
        Err(FormatError::UnknownEntryType)
    }
}

/// Binary search for `key` among the entries in `[l, r)`.
pub open spec fn spec_kb_search(b: Seq<u8>, key: Seq<u8>, l: int, r: int) -> Result<
    Option<EntryPayload>,
    FormatError,
>
    decreases r - l,
{
    if l >= r {
        Ok(None)
    } else {
        let m = (l + r) / 2;
        match spec_kb_entry(b, m) {
            Err(e) => Err(e),
            Ok(e) => {
                let c = lex_cmp(key, e.0);
                if c < 0 {
                    spec_kb_search(b, key, l, m)
                } else if c == 0 {
                    Ok(Some(e.1))
                } else {
                    spec_kb_search(b, key, m + 1, r)
                }
            },
        }
    }
}

/// Searching one key block: `Some` is the decoded payload of the entry whose
/// key matches exactly, `None` a key miss.
pub open spec fn spec_key_block_search(b: Seq<u8>, key: Seq<u8>) -> Result<
    Option<EntryPayload>,
    FormatError,
> {
    if !kb_framing_ok(b) {
        Err(FormatError::Truncated)
    } else {
        spec_kb_search(b, key, 0, kb_count(b))
    }
}

/// Decodes entry `i` of the block.
fn kb_entry<'a>(b: &'a [u8], n: usize, i: usize) -> (r: Result<
    (&'a [u8], EntryPayload),
    FormatError,
>)
    requires
        kb_framing_ok(b@),
        n == kb_count(b@),
        i < n,
    ensures
        match r {
            Ok(e) => spec_kb_entry(b@, i as int) == Ok::<(Seq<u8>, EntryPayload), FormatError>(
                (e.0@, e.1),
            ),
            Err(e) => spec_kb_entry(b@, i as int) == Err::<(Seq<u8>, EntryPayload), FormatError>(e),
        },
{
    let blen = b.len();
    let eb = 4 + 4 * n;
    let el = blen - eb;
    let ty = *slice_index_get(b, 4 + 4 * i);
    let lo = read_u24_be(b, 4 + 4 * i + 1) as usize;
    let hi = if i == n - 1 {
        el
    } else {
        read_u24_be(b, 4 + 4 * (i + 1) + 1) as usize
    };
    if ty == KEY_BLOCK_ENTRY_TYPE_NORMAL {
        if lo + 8 <= hi && hi <= el {
            let key = slice_subrange(b, eb + lo, eb + hi - 8);
            let block = *slice_index_get(b, eb + hi - 8);
            let size = read_u24_be(b, eb + hi - 7);
            let position = read_u32_be(b, eb + hi - 4);
            Ok((key, EntryPayload::Normal { block, size, position }))
        } else {
            Err(FormatError::Truncated)
        }
    } else if ty == KEY_BLOCK_ENTRY_TYPE_BLOB {
        if lo + 4 <= hi && hi <= el {
            let key = slice_subrange(b, eb + lo, eb + hi - 4);
            let sequence_number = read_u32_be(b, eb + hi - 4);
            Ok((key, EntryPayload::Blob { sequence_number }))
        } else {
            Err(FormatError::Truncated)
        }
    } else if ty == KEY_BLOCK_ENTRY_TYPE_DELETED {
        if lo <= hi && hi <= el {
            let key = slice_subrange(b, eb + lo, eb + hi);
            Ok((key, EntryPayload::Deleted))
        } else {
            Err(FormatError::Truncated)
        }
    } else {
        Err(FormatError::UnknownEntryType)
    }
}

/// Searches one decompressed key block for an exact key match and decodes
/// the matched entry's payload; `Ok(None)` is a key miss.
pub fn key_block_search(block: &[u8], key: &[u8]) -> (r: Result<Option<EntryPayload>, FormatError>)
    ensures
        r == spec_key_block_search(block@, key@),
{
    let blen = block.len();
    if blen < 4 {
        return Err(FormatError::Truncated);
    }
    let n = read_u24_be(block, 1) as usize;
    if 4 + 4 * n > blen {
        return Err(FormatError::Truncated);
    }
    let mut l: usize = 0;
    let mut r: usize = n;
    while l < r
        invariant
            kb_framing_ok(block@),
            n == kb_count(block@),
            l <= r <= n,
            spec_key_block_search(block@, key@) == spec_kb_search(
                block@,
                key@,
                l as int,
                r as int,
            ),
        decreases r - l,
    {
        let m = (l + r) / 2;
        let (mk, payload) = match kb_entry(block, n, m) {
            Ok(e) => e,
            Err(e) => return Err(e),
        };
        let c = cmp_bytes(key, mk);
        if c < 0 {
            r = m;
        } else if c == 0 {
            return Ok(Some(payload));
        } else {
            l = m + 1;
        }
    }
    Ok(None)
}


/// Every entry of the block decodes.
pub open spec fn kb_entries_ok(b: Seq<u8>) -> bool {
    &&& kb_framing_ok(b)
    &&& forall|i: int| 0 <= i < kb_count(b) ==> spec_kb_entry(b, i) is Ok
}

/// The key of entry `i` of a block whose entries decode.
pub open spec fn kb_key_at(b: Seq<u8>, i: int) -> Seq<u8> {
    spec_kb_entry(b, i)->Ok_0.0
}

/// The payload of entry `i` of a block whose entries decode.
pub open spec fn kb_payload_at(b: Seq<u8>, i: int) -> EntryPayload {
    spec_kb_entry(b, i)->Ok_0.1
}

/// The block's keys are strictly sorted.
pub open spec fn kb_sorted(b: Seq<u8>) -> bool {
    forall|i: int, j: int|
        0 <= i < j < kb_count(b) ==> lex_cmp(kb_key_at(b, i), kb_key_at(b, j)) < 0
}

/// On a sorted block, the search over `[l, r)` finds the entry holding the
/// key whenever one lies in the window.
proof fn lemma_kb_search_found(b: Seq<u8>, key: Seq<u8>, l: int, r: int, t: int)
    requires
        kb_entries_ok(b),
        kb_sorted(b),
        0 <= l <= r <= kb_count(b),
        l <= t < r,
        kb_key_at(b, t) == key,
    ensures
        spec_kb_search(b, key, l, r) == Ok::<Option<EntryPayload>, FormatError>(
            Some(kb_payload_at(b, t)),
        ),
    decreases r - l,
{
    let m = (l + r) / 2;
    let mk = kb_key_at(b, m);
    lemma_lex_eq(key, mk);
    if lex_cmp(key, mk) < 0 {
        if t >= m {
            if t == m {
                assert(false);
            } else {
                lemma_lex_antisym(key, mk);
                assert(lex_cmp(mk, kb_key_at(b, t)) < 0);
                lemma_lex_trans(mk, kb_key_at(b, t), mk);
            }
        }
        lemma_kb_search_found(b, key, l, m, t);
    } else if lex_cmp(key, mk) == 0 {
        if m < t {
            assert(lex_cmp(kb_key_at(b, m), kb_key_at(b, t)) < 0);
        }
        if t < m {
            assert(lex_cmp(kb_key_at(b, t), kb_key_at(b, m)) < 0);
        }
        assert(m == t);
    } else {
        if t <= m {
            if t == m {
                assert(false);
            } else {
                lemma_lex_antisym(key, mk);
                assert(lex_cmp(kb_key_at(b, t), mk) < 0);
            }
        }
        lemma_kb_search_found(b, key, m + 1, r, t);
    }
}

/// The search over `[l, r)` reports a miss when no entry in the window holds
/// the key.
proof fn lemma_kb_search_missing(b: Seq<u8>, key: Seq<u8>, l: int, r: int)
    requires
        kb_entries_ok(b),
        0 <= l <= r <= kb_count(b),
        forall|i: int| l <= i < r ==> kb_key_at(b, i) != key,
    ensures
        spec_kb_search(b, key, l, r) == Ok::<Option<EntryPayload>, FormatError>(
            None::<EntryPayload>,
        ),
    decreases r - l,
{
    if l < r {
        let m = (l + r) / 2;
        let mk = kb_key_at(b, m);
        lemma_lex_eq(key, mk);
        if lex_cmp(key, mk) < 0 {
            lemma_kb_search_missing(b, key, l, m);
        } else {
            lemma_kb_search_missing(b, key, m + 1, r);
        }
    }
}

/// Searching a well-formed, sorted key block returns an exact match if and
/// only if the key exists verbatim among the block's keys, and then decodes
/// that entry's payload; otherwise it reports a key miss.
pub proof fn lemma_key_block_exact(b: Seq<u8>, key: Seq<u8>)
    requires
        kb_entries_ok(b),
        kb_sorted(b),
    ensures
        forall|t: int|
            0 <= t < kb_count(b) && kb_key_at(b, t) == key ==> spec_key_block_search(b, key)
                == Ok::<Option<EntryPayload>, FormatError>(Some(kb_payload_at(b, t))),
        (forall|i: int| 0 <= i < kb_count(b) ==> kb_key_at(b, i) != key)
            ==> spec_key_block_search(b, key) == Ok::<Option<EntryPayload>, FormatError>(
            None::<EntryPayload>,
        ),
{
    assert forall|t: int|
        0 <= t < kb_count(b) && kb_key_at(b, t) == key implies spec_key_block_search(b, key)
        == Ok::<Option<EntryPayload>, FormatError>(Some(kb_payload_at(b, t))) by {
        lemma_kb_search_found(b, key, 0, kb_count(b), t);
    }
    if forall|i: int| 0 <= i < kb_count(b) ==> kb_key_at(b, i) != key {
        lemma_kb_search_missing(b, key, 0, kb_count(b));
    }
}

} // verus!
