use vstd::prelude::*;
use std::sync::Arc;
use crate::error::FormatError;
use vstd::slice::slice_index_get;

verus! {

#[verifier::external_type_specification]
#[verifier::external_body]
#[verifier::reject_recursive_types(B)]
#[verifier::reject_recursive_types(S)]
pub struct ExQFilter<B, S>(qfilter::Filter<B, S>);

#[verifier::external_type_specification]
#[verifier::external_body]
pub struct ExStableBuildHasher(qfilter::StableBuildHasher);

/// The set of keys this membership filter reports as possibly present. The
/// filter hashes with a stable hasher, so this is a property of the filter
/// value alone. qfilter documents that the set holds every inserted key (no
/// false negatives) and possibly a bounded share of others (false
/// positives); nothing here relies on that, but it is why a filter miss may
/// safely prune a lookup.
pub uninterp spec fn filter_keys(f: qfilter::Filter) -> Set<Seq<u8>>;

/// The number of items the filter is currently sized for.
pub uninterp spec fn filter_capacity_of(f: qfilter::Filter) -> nat;

/// What the membership-filter bytes of a file deserialize to, described by
/// the key set of the decoded filter; `None` when they do not deserialize.
/// Deserialization is a pure function of the bytes.
pub uninterp spec fn decoded_filter(bytes: Seq<u8>) -> Option<Set<Seq<u8>>>;

/// Every probe of this filter returns: its run structure cannot send the
/// search for a run's end into an endless walk. The library only ever
/// queries filters whose serialized section passed `filter_section_ok`.
pub uninterp spec fn filter_probe_safe(f: qfilter::Filter) -> bool;

/// Relies on pot::from_slice: deserializing a filter either fails or yields
/// a filter determined by the serialized bytes alone. Relies further on
/// qfilter's probe loops for the last clause: the decoded filter's buffer is
/// the byte field of the document, so when `spec_filter_section_ok` holds of
/// the bytes, the buffer carries at least as many runend bits as occupied
/// bits and one block offset below the overflow marker, and every
/// rank-and-select walk `contains` performs then terminates.
#[verifier::external_body]
pub(crate) fn filter_from_bytes(bytes: &[u8]) -> (r: Result<Arc<qfilter::Filter>, FormatError>)
    ensures
        match r {
            Ok(f) => decoded_filter(bytes@) == Some(filter_keys(*f)) && (spec_filter_section_ok(
                bytes@,
            ) ==> filter_probe_safe(*f)),
            Err(e) => decoded_filter(bytes@) is None && e == FormatError::BadFilter,
        },
{
    match pot::from_slice::<qfilter::Filter>(bytes) {
        Ok(f) => Ok(Arc::new(f)),
        Err(_) => Err(FormatError::BadFilter),
    }
}

/// Relies on qfilter::Filter::contains: a pure function of the filter value
/// and the key bytes (the hasher is stable across processes), true exactly
/// for the keys the filter reports as possibly present. On a structurally
/// invalid filter the probe can fail to return, so only filters known to be
/// probe-safe may be asked.
#[verifier::external_body]
pub(crate) fn filter_contains(f: &Arc<qfilter::Filter>, key: &[u8]) -> (r: bool)
    requires
        filter_probe_safe(**f),
    ensures
        r == filter_keys(**f).contains(key@),
{
    f.contains(key)
}

/// Relies on qfilter::Filter::capacity: how many items the filter is sized
/// for, a pure function of the filter value.
#[verifier::external_body]
pub(crate) fn filter_capacity(f: &Arc<qfilter::Filter>) -> (r: u64)
    ensures
        r as nat == filter_capacity_of(**f),
{
    f.capacity()
}

/// Weighs a cached membership filter by its capacity, so that large filters
/// claim a matching share of the cache's weight budget.
#[derive(Clone, Copy, Default)]
pub struct AqmfWeighter;

impl quick_cache::Weighter<u32, Arc<qfilter::Filter>> for AqmfWeighter {
    fn weight(&self, _key: &u32, filter: &Arc<qfilter::Filter>) -> u64 {
        let c = filter_capacity(filter);
        if c < u64::MAX {
            c + 1
        } else {
            u64::MAX
        }
    }
}

/// A process-wide cache of deserialized membership filters, keyed by file
/// sequence number, weighted by `AqmfWeighter`, deduplicating concurrent
/// loads of the same filter.
#[verifier::external_body]
pub struct AqmfCache {
    pub(crate) store: quick_cache::sync::Cache<
        u32,
        Arc<qfilter::Filter>,
        AqmfWeighter,
        std::hash::BuildHasherDefault<rustc_hash::FxHasher>,
    >,
}

impl AqmfCache {
    /// Relies on quick_cache::sync::Cache::with: creates an empty, bounded,
    /// thread-safe weighted cache.
    #[verifier::external_body]
    pub fn with_capacity(estimated_items: usize, weight_capacity: u64) -> (r: Self) {
        AqmfCache {
            store: quick_cache::sync::Cache::with(
                estimated_items,
                weight_capacity,
                AqmfWeighter,
                Default::default(),
                Default::default(),
            ),
        }
    }
}


/// Number of set bits.
pub open spec fn ones(n: nat) -> nat
    decreases n,
{
    if n == 0 {
        0
    } else {
        n % 2 + ones(n / 2)
    }
}

proof fn lemma_ones_le(n: nat)
    ensures
        ones(n) <= n,
    decreases n,
{
    if n > 0 {
        lemma_ones_le(n / 2);
    }
}

/// Counts the set bits of one byte.
fn count_byte_bits(x: u8) -> (r: u32)
    ensures
        r == ones(x as nat),
        r <= 255,
{
    proof {
        lemma_ones_le(x as nat);
    }
    let mut v: u8 = x;
    let mut c: u32 = 0;
    while v > 0
        invariant
            c + ones(v as nat) == ones(x as nat),
            ones(x as nat) <= 255,
        decreases v,
    {
        c = c + (v % 2) as u32;
        v = v / 2;
    }
    c
}

/// Set bits of the eight bytes at `pos`: the population count of one
/// little-endian 64-bit word of the filter's block buffer.
pub open spec fn word_bits(b: Seq<u8>, pos: int) -> nat {
    ones(b[pos] as nat) + ones(b[pos + 1] as nat) + ones(b[pos + 2] as nat) + ones(
        b[pos + 3] as nat,
    ) + ones(b[pos + 4] as nat) + ones(b[pos + 5] as nat) + ones(b[pos + 6] as nat) + ones(
        b[pos + 7] as nat,
    )
}

/// Counts the set bits of the word at `pos`.
fn count_word_bits(b: &[u8], pos: usize) -> (r: u32)
    requires
        pos + 8 <= b@.len(),
    ensures
        r == word_bits(b@, pos as int),
        r <= 2040,
{
    let n = b.len();
    count_byte_bits(*slice_index_get(b, pos)) + count_byte_bits(*slice_index_get(b, pos + 1))
        + count_byte_bits(*slice_index_get(b, pos + 2)) + count_byte_bits(
        *slice_index_get(b, pos + 3),
    ) + count_byte_bits(*slice_index_get(b, pos + 4)) + count_byte_bits(
        *slice_index_get(b, pos + 5),
    ) + count_byte_bits(*slice_index_get(b, pos + 6)) + count_byte_bits(
        *slice_index_get(b, pos + 7),
    )
}

/// Total occupied bits of the first `i` blocks (each block: one offset byte,
/// the occupieds word, the runends word, then the remainders).
pub open spec fn occ_sum(b: Seq<u8>, bb: int, i: int) -> nat
    decreases i,
{
    if i <= 0 {
        0
    } else {
        occ_sum(b, bb, i - 1) + word_bits(b, (i - 1) * bb + 1)
    }
}

/// Total runend bits of the first `i` blocks.
pub open spec fn run_sum(b: Seq<u8>, bb: int, i: int) -> nat
    decreases i,
{
    if i <= 0 {
        0
    } else {
        run_sum(b, bb, i - 1) + word_bits(b, (i - 1) * bb + 9)
    }
}

/// Some block among the first `i` stores a small (non-overflowed) offset.
pub open spec fn low_offset_exists(b: Seq<u8>, bb: int, i: int) -> bool {
    exists|j: int| 0 <= j < i && #[trigger] b[j * bb] < 255
}

/// The block buffer of a deserialized filter admits no diverging probe: the
/// buffer has exactly the size its geometry requires; there are at least as
/// many runend bits as occupied bits, so qfilter's rank-and-select scan for
/// a run's end always finds its target; and at least one block offset is
/// cached below the overflow marker, so the offset recovery walk terminates.
/// An empty filter (no occupied bits) is always safe: probes answer before
/// walking any run.
pub open spec fn buffer_probe_safe(b: Seq<u8>, qv: u64, rv: u64) -> bool {
    let nb = ((1u64 << qv) / 64) as int;
    let bb = 17 + 8 * (rv as int);
    &&& 6 <= qv <= 59
    &&& 1 <= rv <= 58
    &&& qv + rv <= 64
    &&& b.len() == nb * bb + 8
    &&& (occ_sum(b, bb, nb) == 0 || (run_sum(b, bb, nb) >= occ_sum(b, bb, nb)
        && low_offset_exists(b, bb, nb)))
}

/// Checks `buffer_probe_safe` over the buffer bytes.
fn check_buffer(b: &[u8], qv: u64, rv: u64) -> (r: bool)
    requires
        b@.len() < 0x1000000,
    ensures
        r == buffer_probe_safe(b@, qv, rv),
{
    if !(6 <= qv && qv <= 59 && 1 <= rv && rv <= 58 && qv + rv <= 64) {
        return false;
    }
    let nb64 = (1u64 << qv) / 64;
    let bb64 = 17 + 8 * rv;
    let blen = b.len();
    proof {
        assert((1u64 << qv) <= 0x0800000000000000u64) by (bit_vector)
            requires
                qv <= 59,
        ;
        assert((nb64 as int) * (bb64 as int) <= 0x20000000000000 * 481) by (nonlinear_arith)
            requires
                0 <= nb64 as int <= 0x20000000000000,
                0 <= bb64 as int <= 481,
        ;
        assert(nb64 as int <= (nb64 as int) * (bb64 as int)) by (nonlinear_arith)
            requires
                bb64 as int >= 1,
                nb64 as int >= 0,
        ;
    }
    if (blen as u64) != nb64 * bb64 + 8 {
        return false;
    }
    let nb = nb64 as usize;
    let bb = bb64 as usize;
    let ghost bbi = bb as int;
    let mut occ: u64 = 0;
    let mut run: u64 = 0;
    let mut low_off = false;
    let mut i: usize = 0;
    while i < nb
        invariant
            nb * bb + 8 == blen,
            blen == b@.len() < 0x1000000,
            bbi == bb as int,
            17 <= bb <= 481,
            i <= nb,
            nb < 0x1000000,
            occ == occ_sum(b@, bbi, i as int),
            run == run_sum(b@, bbi, i as int),
            occ <= 2040 * i,
            run <= 2040 * i,
            low_off == low_offset_exists(b@, bbi, i as int),
        decreases nb - i,
    {
        proof {
            assert((i as int + 1) * bbi <= (nb as int) * bbi) by (nonlinear_arith)
                requires
                    i as int + 1 <= nb as int,
                    bbi >= 0,
            ;
            assert(i as int * bbi + bbi == (i as int + 1) * bbi) by (nonlinear_arith);
        }
        let base = i * bb;
        let off_byte = *slice_index_get(b, base);
        occ = occ + count_word_bits(b, base + 1) as u64;
        run = run + count_word_bits(b, base + 9) as u64;
        proof {
            if off_byte < 255 {
                assert(b@[(i as int) * bbi] < 255);
                assert(low_offset_exists(b@, bbi, i as int + 1));
            } else if !low_off {
                assert(!low_offset_exists(b@, bbi, i as int + 1)) by {
                    assert forall|j: int| 0 <= j < i as int + 1 implies #[trigger] b@[j * bbi]
                        >= 255 by {
                        if j < i as int {
                            if b@[j * bbi] < 255 {
                                assert(low_offset_exists(b@, bbi, i as int));
                            }
                        }
                    }
                }
            }
        }
        if off_byte < 255 {
            low_off = true;
        }
        i = i + 1;
    }
    occ == 0 || (run >= occ && low_off)
}

/// One pot atom header at `pos`: continuation bytes extend the four argument
/// bits of the first byte, seven bits at a time, at most nine of them.
pub open spec fn atom_arg_rec(b: Seq<u8>, pos: int, arg: u64, offset: nat, remaining: nat) -> Option<
    (u64, int),
>
    decreases remaining,
{
    if pos >= b.len() || remaining == 0 {
        None
    } else {
        let byte = b[pos];
        let data = byte & 0x7f;
        let arg2 = arg | ((data as u64) << offset);
        if data == byte || remaining == 1 {
            Some((arg2, pos + 1))
        } else {
            atom_arg_rec(b, pos + 1, arg2, (offset + 7) as nat, (remaining - 1) as nat)
        }
    }
}

/// A pot atom header at `pos`: the atom's kind (top three bits of the first
/// byte), its argument, and the position just past the header.
pub open spec fn spec_atom_header(b: Seq<u8>, pos: int) -> Option<(u8, u64, int)> {
    if pos < 0 || pos >= b.len() {
        None
    } else {
        let first = b[pos];
        let kind = first >> 5;
        let arg0 = (first & 0xF) as u64;
        if first & 0x10 == 0 {
            Some((kind, arg0, pos + 1))
        } else {
            match atom_arg_rec(b, pos + 1, arg0, 4, 9) {
                Some(p) => Some((kind, p.0, p.1)),
                None => None,
            }
        }
    }
}

/// A fresh one-character pot symbol `c` at `pos`.
pub open spec fn sym_at(b: Seq<u8>, pos: int, c: u8) -> Option<int> {
    match spec_atom_header(b, pos) {
        Some((kind, arg, next)) => if kind == 6 && arg == 2 && next < b.len() && b[next] == c {
            Some(next + 1)
        } else {
            None
        },
        None => None,
    }
}

/// An unsigned-integer atom at `pos`, skipped over.
pub open spec fn uint_skip(b: Seq<u8>, pos: int) -> Option<int> {
    match spec_atom_header(b, pos) {
        Some((kind, arg, next)) => if kind == 2 && arg <= 7 && next + arg + 1 <= b.len() {
            Some(next + arg as int + 1)
        } else {
            None
        },
        None => None,
    }
}

/// A one-byte unsigned-integer atom at `pos` and its value.
pub open spec fn uint_byte(b: Seq<u8>, pos: int) -> Option<(u8, int)> {
    match spec_atom_header(b, pos) {
        Some((kind, arg, next)) => if kind == 2 && arg == 0 && next < b.len() {
            Some((b[next], next + 1))
        } else {
            None
        },
        None => None,
    }
}

/// The shape a serialized membership filter has on disk: a pot document
/// holding one five-entry map with the filter's buffer, length, quotient and
/// remainder widths, and growth bound, in that order. Yields the buffer's
/// range and the two widths.
pub open spec fn spec_filter_doc(b: Seq<u8>) -> Option<(int, int, u8, u8)> {
    if !(b.len() >= 4 && b[0] == 0x50 && b[1] == 0x6F && b[2] == 0x74) {
        None
    } else {
        match spec_atom_header(b, 4) {
            None => None,
            Some((mk, mn, p1)) => if mk != 5 || mn != 5 {
                None
            } else {
                match sym_at(b, p1, 98) {
                    None => None,
                    Some(p2) => match spec_atom_header(b, p2) {
                        None => None,
                        Some((bk, blen, p3)) => if bk != 7 || p3 + blen > b.len() {
                            None
                        } else {
                            match sym_at(b, p3 + blen as int, 108) {
                                None => None,
                                Some(p5) => match uint_skip(b, p5) {
                                    None => None,
                                    Some(p6) => match sym_at(b, p6, 113) {
                                        None => None,
                                        Some(p7) => match uint_byte(b, p7) {
                                            None => None,
                                            Some((qv, p8)) => match sym_at(b, p8, 114) {
                                                None => None,
                                                Some(p9) => match uint_byte(b, p9) {
                                                    None => None,
                                                    Some((rv, p10)) => match sym_at(b, p10, 109) {
                                                        None => None,
                                                        Some(p11) => match spec_atom_header(
                                                            b,
                                                            p11,
                                                        ) {
                                                            None => None,
                                                            Some((xk, xa, p12)) => if (xk == 0 && xa
                                                                == 0) || (xk == 2 && xa <= 7 && p12
                                                                + xa + 1 <= b.len()) {
                                                                Some((p3, blen as int, qv, rv))
                                                            } else {
                                                                None
                                                            },
                                                        },
                                                    },
                                                },
                                            },
                                        },
                                    },
                                },
                            }
                        },
                    },
                }
            },
        }
    }
}

/// The filter section decodes to the expected document shape and its block
/// buffer admits no diverging probe.
pub open spec fn spec_filter_section_ok(b: Seq<u8>) -> bool {
    match spec_filter_doc(b) {
        Some((bs, bl, qv, rv)) => buffer_probe_safe(b.subrange(bs, bs + bl), qv as u64, rv as u64),
        None => false,
    }
}

/// Reads one pot atom header.
fn read_atom_header(b: &[u8], pos: usize) -> (r: Option<(u8, u64, usize)>)
    ensures
        match r {
            Some(t) => spec_atom_header(b@, pos as int) == Some((t.0, t.1, t.2 as int)) && pos
                < t.2 <= b@.len(),
            None => spec_atom_header(b@, pos as int) is None,
        },
{
    let n = b.len();
    if pos >= n {
        return None;
    }
    let first = *slice_index_get(b, pos);
    let kind = first >> 5;
    let arg0 = (first & 0xF) as u64;
    if first & 0x10 == 0 {
        return Some((kind, arg0, pos + 1));
    }
    let mut p = pos + 1;
    let mut arg: u64 = arg0;
    let mut offset: u64 = 4;
    let mut remaining: u64 = 9;
    loop
        invariant
            n == b@.len(),
            pos < n,
            b@[pos as int] & 0x10 != 0,
            kind == b@[pos as int] >> 5,
            arg0 == (b@[pos as int] & 0xF) as u64,
            pos < p,
            p <= n,
            1 <= remaining <= 9,
            offset == 4 + 7 * (9 - remaining),
            atom_arg_rec(b@, pos as int + 1, arg0, 4, 9) == atom_arg_rec(
                b@,
                p as int,
                arg,
                offset as nat,
                remaining as nat,
            ),
        decreases remaining,
    {
        if p >= n {
            proof {
                assert(atom_arg_rec(b@, p as int, arg, offset as nat, remaining as nat)
                    is None);
            }
            return None;
        }
        let byte = *slice_index_get(b, p);
        let data = byte & 0x7f;
        let arg2 = arg | ((data as u64) << offset);
        if data == byte || remaining == 1 {
            proof {
                assert(atom_arg_rec(b@, p as int, arg, offset as nat, remaining as nat) == Some(
                    (arg2, p as int + 1),
                ));
            }
            return Some((kind, arg2, p + 1));
        }
        proof {
            assert(atom_arg_rec(b@, p as int, arg, offset as nat, remaining as nat)
                == atom_arg_rec(
                b@,
                p as int + 1,
                arg2,
                offset as nat + 7,
                (remaining - 1) as nat,
            ));
        }
        arg = arg2;
        p = p + 1;
        offset = offset + 7;
        remaining = remaining - 1;
    }
}

/// Reads a fresh one-character symbol.
fn read_sym(b: &[u8], pos: usize, c: u8) -> (r: Option<usize>)
    ensures
        match r {
            Some(next) => sym_at(b@, pos as int, c) == Some(next as int) && pos < next <= b@.len(),
            None => sym_at(b@, pos as int, c) is None,
        },
{
    let n = b.len();
    match read_atom_header(b, pos) {
        Some((kind, arg, next)) => {
            if kind == 6 && arg == 2 && next < n && *slice_index_get(b, next) == c {
                Some(next + 1)
            } else {
                None
            }
        },
        None => None,
    }
}

/// Skips an unsigned-integer atom.
fn skip_uint(b: &[u8], pos: usize) -> (r: Option<usize>)
    ensures
        match r {
            Some(next) => uint_skip(b@, pos as int) == Some(next as int) && next <= b@.len(),
            None => uint_skip(b@, pos as int) is None,
        },
{
    let n = b.len();
    match read_atom_header(b, pos) {
        Some((kind, arg, next)) => {
            if kind == 2 && arg <= 7 && arg as usize + 1 <= n - next {
                Some(next + arg as usize + 1)
            } else {
                None
            }
        },
        None => None,
    }
}

/// Reads a one-byte unsigned-integer atom.
fn read_uint_byte(b: &[u8], pos: usize) -> (r: Option<(u8, usize)>)
    ensures
        match r {
            Some(t) => uint_byte(b@, pos as int) == Some((t.0, t.1 as int)) && t.1 <= b@.len(),
            None => uint_byte(b@, pos as int) is None,
        },
{
    let n = b.len();
    match read_atom_header(b, pos) {
        Some((kind, arg, next)) => {
            if kind == 2 && arg == 0 && next < n {
                Some((*slice_index_get(b, next), next + 1))
            } else {
                None
            }
        },
        None => None,
    }
}

/// Decides whether a file's membership-filter section is safe to hand to the
/// filter: it must have the shape the filter writer produces, and the block
/// buffer inside it must satisfy `buffer_probe_safe`, so that no probe of
/// the decoded filter can diverge. Sections this check rejects are treated
/// as corrupt.
pub fn filter_section_ok(b: &[u8]) -> (r: bool)
    requires
        b@.len() < 0x1000000,
    ensures
        r == spec_filter_section_ok(b@),
{
    let n = b.len();
    if !(n >= 4 && *slice_index_get(b, 0) == 0x50 && *slice_index_get(b, 1) == 0x6F
        && *slice_index_get(b, 2) == 0x74) {
        return false;
    }
    let (mk, mn, p1) = match read_atom_header(b, 4) {
        Some(t) => t,
        None => return false,
    };
    if mk != 5 || mn != 5 {
        return false;
    }
    let p2 = match read_sym(b, p1, 98) {
        Some(p) => p,
        None => return false,
    };
    let (bk, blen, p3) = match read_atom_header(b, p2) {
        Some(t) => t,
        None => return false,
    };
    if bk != 7 || blen > (n - p3) as u64 {
        return false;
    }
    let blen_us = blen as usize;
    let p4 = p3 + blen_us;
    let p5 = match read_sym(b, p4, 108) {
        Some(p) => p,
        None => return false,
    };
    let p6 = match skip_uint(b, p5) {
        Some(p) => p,
        None => return false,
    };
    let p7 = match read_sym(b, p6, 113) {
        Some(p) => p,
        None => return false,
    };
    let (qv, p8) = match read_uint_byte(b, p7) {
        Some(t) => t,
        None => return false,
    };
    let p9 = match read_sym(b, p8, 114) {
        Some(p) => p,
        None => return false,
    };
    let (rv, p10) = match read_uint_byte(b, p9) {
        Some(t) => t,
        None => return false,
    };
    let p11 = match read_sym(b, p10, 109) {
        Some(p) => p,
        None => return false,
    };
    let (xk, xa, p12) = match read_atom_header(b, p11) {
        Some(t) => t,
        None => return false,
    };
    if !((xk == 0 && xa == 0) || (xk == 2 && xa <= 7 && xa as usize + 1 <= n - p12)) {
        return false;
    }
    let buf = vstd::slice::slice_subrange(b, p3, p4);
    check_buffer(buf, qv as u64, rv as u64)
}

} // verus!
