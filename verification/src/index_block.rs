use vstd::prelude::*;
use vstd::slice::{slice_index_get, slice_subrange};
use crate::bytes::{u16_be_at, read_u16_be, lex_cmp, cmp_bytes, lemma_lex_eq, lemma_lex_antisym, lemma_lex_trans, lemma_lex_le_trans, lemma_lex_refl};
use crate::error::FormatError;

verus! {

/// Tag byte that marks a decompressed block as an index block.
pub const BLOCK_TYPE_INDEX: u8 = 0;

/// Number of separator entries in an index block (tag byte at 0, count at 1).
pub open spec fn idx_count(b: Seq<u8>) -> int {
    u16_be_at(b, 1) as int
}

/// Where the concatenated entries begin: after the tag, the count and the
/// `count - 1` two-byte cumulative end offsets.
pub open spec fn idx_entries_base(b: Seq<u8>) -> int {
    3 + (idx_count(b) - 1) * 2
}

/// The `j`-th cumulative end offset: where entry `j` (separator key plus its
/// trailing child byte) ends, relative to the entries region.
pub open spec fn idx_off(b: Seq<u8>, j: int) -> int {
    u16_be_at(b, 3 + 2 * j) as int
}

/// Length of the entries region.
pub open spec fn idx_entries_len(b: Seq<u8>) -> int {
    b.len() - idx_entries_base(b)
}

/// The block's framing is present: tag, count and full offset table, with at
/// least two separators.
pub open spec fn idx_framing_ok(b: Seq<u8>) -> bool {
    &&& b.len() >= 3
    &&& idx_count(b) >= 2
    &&& idx_entries_base(b) <= b.len()
}

/// Separator key `i`: entry `i` minus the trailing child byte (the last
/// entry has no child byte and runs to the end of the block).
pub open spec fn spec_idx_key(b: Seq<u8>, i: int) -> Result<Seq<u8>, FormatError> {
    let eb = idx_entries_base(b);
    let n = idx_count(b);
    let lo = if i == 0 { 0int } else { idx_off(b, i - 1) };
    let hi = if i == n - 1 { idx_entries_len(b) } else { idx_off(b, i) - 1 };
    if 0 <= lo && lo <= hi && hi <= idx_entries_len(b) {
        Ok(b.subrange(eb + lo, eb + hi))
    } else {
        Err(FormatError::Truncated)
    }
}

/// Child block index stored at the end of entry `j`: the child covering keys
/// from separator `j` up to separator `j + 1`.
pub open spec fn spec_idx_child(b: Seq<u8>, j: int) -> Result<u8, FormatError> {
    let eb = idx_entries_base(b);
    let pos = idx_off(b, j) - 1;
    if 0 <= pos && pos < idx_entries_len(b) {
        Ok(b[eb + pos])
    } else {
        Err(FormatError::Truncated)
    }
}

/// Binary search for the lower-bound position of `key` among the separators
/// in `[l, r)`: the child left of that position covers the key.
pub open spec fn spec_idx_search(b: Seq<u8>, key: Seq<u8>, l: int, r: int) -> Result<
    Option<u8>,
    FormatError,
>
    decreases r - l,
{
    let n = idx_count(b);
    if l >= r {
        if l == 0 {
            Err(FormatError::Truncated)
        } else {
            match spec_idx_child(b, l - 1) {
                Ok(c) => Ok(Some(c)),
                Err(e) => Err(e),
            }
        }
    } else {
        let m = (l + r) / 2;
        match spec_idx_key(b, m) {
            Err(e) => Err(e),
            Ok(mk) => {
                let c = lex_cmp(key, mk);
                if c < 0 {
                    spec_idx_search(b, key, l, m)
                } else if c == 0 {
                    match spec_idx_child(b, if m == n - 1 { n - 2 } else { m }) {
                        Ok(ch) => Ok(Some(ch)),
                        Err(e) => Err(e),
                    }
                } else {
                    spec_idx_search(b, key, m + 1, r)
                }
            },
        }
    }
}

/// Routing a key through one index block: `None` means the key lies outside
/// the range this block covers.
pub open spec fn spec_index_lookup(b: Seq<u8>, key: Seq<u8>) -> Result<Option<u8>, FormatError> {
    if !idx_framing_ok(b) {
        Err(FormatError::Truncated)
    } else {
        let n = idx_count(b);
        match spec_idx_key(b, 0) {
            Err(e) => Err(e),
            Ok(k0) => {
                let c0 = lex_cmp(key, k0);
                if c0 < 0 {
                    Ok(None)
                } else if c0 == 0 {
                    match spec_idx_child(b, 0) {
                        Ok(c) => Ok(Some(c)),
                        Err(e) => Err(e),
                    }
                } else {
                    match spec_idx_key(b, n - 1) {
                        Err(e) => Err(e),
                        Ok(kl) => {
                            let cl = lex_cmp(kl, key);
                            if cl < 0 {
                                Ok(None)
                            } else if cl == 0 {
                                match spec_idx_child(b, n - 2) {
                                    Ok(c) => Ok(Some(c)),
                                    Err(e) => Err(e),
                                }
                            } else {
                                spec_idx_search(b, key, 0, n)
                            }
                        },
                    }
                }
            },
        }
    }
}

/// Reads separator key `i` out of the block.
fn idx_key<'a>(b: &'a [u8], n: usize, i: usize) -> (r: Result<&'a [u8], FormatError>)
    requires
        idx_framing_ok(b@),
        n == idx_count(b@),
        i < n,
    ensures
        match r {
            Ok(s) => spec_idx_key(b@, i as int) == Ok::<Seq<u8>, FormatError>(s@),
            Err(e) => spec_idx_key(b@, i as int) == Err::<Seq<u8>, FormatError>(e),
        },
{
    let blen = b.len();
    let eb = 3 + (n - 1) * 2;
    let el = blen - eb;
    let lo = if i == 0 {
        0
    } else {
        read_u16_be(b, 3 + 2 * (i - 1)) as usize
    };
    if i == n - 1 {
        if lo > el {
            return Err(FormatError::Truncated);
        }
        Ok(slice_subrange(b, eb + lo, eb + el))
    } else {
        let o = read_u16_be(b, 3 + 2 * i) as usize;
        if o == 0 {
            return Err(FormatError::Truncated);
        }
        let hi = o - 1;
        if lo > hi || hi > el {
            return Err(FormatError::Truncated);
        }
        Ok(slice_subrange(b, eb + lo, eb + hi))
    }
}

/// Reads the child block index stored at the end of entry `j`.
fn idx_child(b: &[u8], n: usize, j: usize) -> (r: Result<u8, FormatError>)
    requires
        idx_framing_ok(b@),
        n == idx_count(b@),
        j < n - 1,
    ensures
        match r {
            Ok(c) => spec_idx_child(b@, j as int) == Ok::<u8, FormatError>(c),
            Err(e) => spec_idx_child(b@, j as int) == Err::<u8, FormatError>(e),
        },
{
    let blen = b.len();
    let eb = 3 + (n - 1) * 2;
    let el = blen - eb;
    let o = read_u16_be(b, 3 + 2 * j) as usize;
    if o == 0 || o > el {
        return Err(FormatError::Truncated);
    }
    Ok(*slice_index_get(b, eb + o - 1))
}

/// Routes a key through one decompressed index block: `Ok(Some(child))` is
/// the block to descend into, `Ok(None)` means the key lies outside every
/// range this block covers.
pub fn index_block_lookup(block: &[u8], key: &[u8]) -> (r: Result<Option<u8>, FormatError>)
    ensures
        r == spec_index_lookup(block@, key@),
{
    let blen = block.len();
    if blen < 3 {
        return Err(FormatError::Truncated);
    }
    let n = read_u16_be(block, 1) as usize;
    if n < 2 {
        return Err(FormatError::Truncated);
    }
    let eb = 3 + (n - 1) * 2;
    if eb > blen {
        return Err(FormatError::Truncated);
    }
    let k0 = match idx_key(block, n, 0) {
        Ok(s) => s,
        Err(e) => return Err(e),
    };
    let c0 = cmp_bytes(key, k0);
    if c0 < 0 {
        return Ok(None);
    }
    if c0 == 0 {
        return match idx_child(block, n, 0) {
            Ok(c) => Ok(Some(c)),
            Err(e) => Err(e),
        };
    }
    let kl = match idx_key(block, n, n - 1) {
        Ok(s) => s,
        Err(e) => return Err(e),
    };
    let cl = cmp_bytes(kl, key);
    if cl < 0 {
        return Ok(None);
    }
    if cl == 0 {
        return match idx_child(block, n, n - 2) {
            Ok(c) => Ok(Some(c)),
            Err(e) => Err(e),
        };
    }
    let ghost last_key = kl@;
    let mut l: usize = 0;
    let mut r: usize = n;
    assert(spec_index_lookup(block@, key@) == spec_idx_search(block@, key@, 0, n as int));
    while l < r
        invariant
            idx_framing_ok(block@),
            n == idx_count(block@),
            l <= r <= n,
            l < n,
            spec_idx_key(block@, n - 1) == Ok::<Seq<u8>, FormatError>(last_key),
            lex_cmp(last_key, key@) > 0,
            spec_index_lookup(block@, key@) == spec_idx_search(block@, key@, l as int, r as int),
        decreases r - l,
    {
        let m = (l + r) / 2;
        let mk = match idx_key(block, n, m) {
            Ok(s) => s,
            Err(e) => return Err(e),
        };
        let c = cmp_bytes(key, mk);
        if c < 0 {
            r = m;
        } else if c == 0 {
            let j = if m == n - 1 {
                n - 2
            } else {
                m
            };
            return match idx_child(block, n, j) {
                Ok(ch) => Ok(Some(ch)),
                Err(e) => Err(e),
            };
        } else {
            proof {
                if m == n - 1 {
                    lemma_lex_antisym(key@, mk@);
                }
            }
            l = m + 1;
        }
    }
    if l == 0 {
        return Err(FormatError::Truncated);
    }
    match idx_child(block, n, l - 1) {
        Ok(c) => Ok(Some(c)),
        Err(e) => Err(e),
    }
}


/// Every separator and child of the block decodes.
pub open spec fn idx_entries_ok(b: Seq<u8>) -> bool {
    &&& idx_framing_ok(b)
    &&& forall|i: int| 0 <= i < idx_count(b) ==> spec_idx_key(b, i) is Ok
    &&& forall|j: int| 0 <= j < idx_count(b) - 1 ==> spec_idx_child(b, j) is Ok
}

/// Separator `i` of a block whose entries decode.
pub open spec fn idx_key_at(b: Seq<u8>, i: int) -> Seq<u8> {
    spec_idx_key(b, i)->Ok_0
}

/// Child `j` of a block whose entries decode: it covers the keys from
/// separator `j` up to separator `j + 1`.
pub open spec fn idx_child_at(b: Seq<u8>, j: int) -> u8 {
    spec_idx_child(b, j)->Ok_0
}

/// The block's separators are strictly sorted.
pub open spec fn idx_sorted(b: Seq<u8>) -> bool {
    forall|i: int, j: int|
        0 <= i < j < idx_count(b) ==> lex_cmp(idx_key_at(b, i), idx_key_at(b, j)) < 0
}

/// On a sorted block, the lower-bound search over a window enclosing the
/// key's home range `[separator t, separator t + 1)` descends to child `t`.
proof fn lemma_idx_search_routes(b: Seq<u8>, key: Seq<u8>, l: int, r: int, t: int)
    requires
        idx_entries_ok(b),
        idx_sorted(b),
        0 <= t <= idx_count(b) - 2,
        lex_cmp(idx_key_at(b, t), key) <= 0,
        lex_cmp(key, idx_key_at(b, t + 1)) < 0,
        0 <= l <= r <= idx_count(b),
        l <= t + 1 <= r,
    ensures
        spec_idx_search(b, key, l, r) == Ok::<Option<u8>, FormatError>(Some(idx_child_at(b, t))),
    decreases r - l,
{
    let n = idx_count(b);
    if l >= r {
        assert(l == t + 1);
    } else {
        let m = (l + r) / 2;
        let mk = idx_key_at(b, m);
        let tk = idx_key_at(b, t);
        let tk1 = idx_key_at(b, t + 1);
        lemma_lex_eq(key, mk);
        lemma_lex_antisym(key, mk);
        lemma_lex_refl(mk);
        if lex_cmp(key, mk) < 0 {
            if m <= t {
                if m < t {
                    assert(lex_cmp(mk, tk) < 0);
                }
                lemma_lex_le_trans(mk, tk, key);
                assert(false);
            }
            lemma_idx_search_routes(b, key, l, m, t);
        } else if lex_cmp(key, mk) == 0 {
            if m < t {
                assert(lex_cmp(mk, tk) < 0);
                lemma_lex_le_trans(mk, tk, key);
                assert(false);
            }
            if m > t {
                if m == t + 1 {
                    assert(lex_cmp(key, mk) < 0);
                } else {
                    assert(lex_cmp(tk1, mk) < 0);
                    lemma_lex_le_trans(tk1, mk, key);
                    lemma_lex_antisym(key, tk1);
                }
                assert(false);
            }
            assert(m == t);
        } else {
            if m > t {
                if m == t + 1 {
                    assert(lex_cmp(key, mk) < 0);
                } else {
                    assert(lex_cmp(tk1, mk) < 0);
                    lemma_lex_trans(key, tk1, mk);
                }
                assert(false);
            }
            lemma_idx_search_routes(b, key, m + 1, r, t);
        }
    }
}

/// Fence-pointer navigation over a well-formed block with strictly sorted
/// separators: a key below every separator or above every separator lies
/// outside the block; a key equal to separator `i` descends to child `i`
/// (child `n - 2` for the last separator); a key strictly between separators
/// `i` and `i + 1` descends to child `i`.
pub proof fn lemma_index_navigation(b: Seq<u8>, key: Seq<u8>)
    requires
        idx_entries_ok(b),
        idx_sorted(b),
    ensures
        lex_cmp(key, idx_key_at(b, 0)) < 0 ==> spec_index_lookup(b, key) == Ok::<
            Option<u8>,
            FormatError,
        >(None::<u8>),
        lex_cmp(key, idx_key_at(b, idx_count(b) - 1)) > 0 ==> spec_index_lookup(b, key) == Ok::<
            Option<u8>,
            FormatError,
        >(None::<u8>),
        forall|i: int|
            0 <= i < idx_count(b) && key == idx_key_at(b, i) ==> spec_index_lookup(b, key) == Ok::<
                Option<u8>,
                FormatError,
            >(
                Some(
                    idx_child_at(
                        b,
                        if i == idx_count(b) - 1 {
                            idx_count(b) - 2
                        } else {
                            i
                        },
                    ),
                ),
            ),
        forall|i: int|
            0 <= i < idx_count(b) - 1 && lex_cmp(idx_key_at(b, i), key) < 0 && lex_cmp(
                key,
                idx_key_at(b, i + 1),
            ) < 0 ==> spec_index_lookup(b, key) == Ok::<Option<u8>, FormatError>(
                Some(idx_child_at(b, i)),
            ),
{
    let n = idx_count(b);
    let k0 = idx_key_at(b, 0);
    let kl = idx_key_at(b, n - 1);
    lemma_lex_eq(key, k0);
    lemma_lex_antisym(key, k0);
    lemma_lex_eq(kl, key);
    lemma_lex_antisym(kl, key);
    assert forall|i: int|
        0 <= i < n && key == idx_key_at(b, i) implies spec_index_lookup(b, key) == Ok::<
        Option<u8>,
        FormatError,
    >(
        Some(
            idx_child_at(
                b,
                if i == n - 1 {
                    n - 2
                } else {
                    i
                },
            ),
        ),
    ) by {
        let ki = idx_key_at(b, i);
        lemma_lex_eq(key, ki);
        lemma_lex_antisym(key, ki);
        if i == 0 {
        } else if i == n - 1 {
            assert(lex_cmp(k0, ki) < 0);
            lemma_lex_le_trans(k0, ki, key);
        } else {
            assert(lex_cmp(k0, ki) < 0);
            lemma_lex_le_trans(k0, ki, key);
            assert(lex_cmp(ki, kl) < 0);
            lemma_lex_le_trans(key, ki, kl);
            assert(lex_cmp(key, idx_key_at(b, i + 1)) < 0);
            lemma_idx_search_routes(b, key, 0, n, i);
        }
    }
    assert forall|i: int|
        0 <= i < n - 1 && lex_cmp(idx_key_at(b, i), key) < 0 && lex_cmp(key, idx_key_at(b, i + 1))
            < 0 implies spec_index_lookup(b, key) == Ok::<Option<u8>, FormatError>(
        Some(idx_child_at(b, i)),
    ) by {
        let ki = idx_key_at(b, i);
        let ki1 = idx_key_at(b, i + 1);
        lemma_lex_antisym(ki, key);
        lemma_lex_antisym(kl, key);
        lemma_lex_refl(k0);
        lemma_lex_refl(kl);
        if i > 0 {
            assert(lex_cmp(k0, ki) < 0);
        }
        lemma_lex_le_trans(k0, ki, key);
        if i + 1 < n - 1 {
            assert(lex_cmp(ki1, kl) < 0);
        }
        lemma_lex_le_trans(key, ki1, kl);
        lemma_idx_search_routes(b, key, 0, n, i);
    }
}

} // verus!
