use vstd::prelude::*;
use vstd::slice::slice_index_get;

verus! {

/// The big-endian 16-bit value stored at `pos`.
pub open spec fn u16_be_at(s: Seq<u8>, pos: int) -> nat {
    (s[pos] as nat) * 0x100 + (s[pos + 1] as nat)
}

/// The big-endian 24-bit value stored at `pos`.
pub open spec fn u24_be_at(s: Seq<u8>, pos: int) -> nat {
    (s[pos] as nat) * 0x10000 + (s[pos + 1] as nat) * 0x100 + (s[pos + 2] as nat)
}

/// The big-endian 32-bit value stored at `pos`.
pub open spec fn u32_be_at(s: Seq<u8>, pos: int) -> nat {
    (s[pos] as nat) * 0x1000000 + (s[pos + 1] as nat) * 0x10000 + (s[pos + 2] as nat) * 0x100
        + (s[pos + 3] as nat)
}

/// Reads a big-endian 16-bit integer out of `bytes` at `pos`.
pub fn read_u16_be(bytes: &[u8], pos: usize) -> (r: u16)
    requires
        pos + 2 <= bytes@.len(),
    ensures
        r as nat == u16_be_at(bytes@, pos as int),
{
    let n = bytes.len();
    let b0 = *slice_index_get(bytes, pos);
    let b1 = *slice_index_get(bytes, pos + 1);
    (b0 as u16) * 0x100 + (b1 as u16)
}

/// Reads a big-endian 24-bit integer out of `bytes` at `pos`.
pub fn read_u24_be(bytes: &[u8], pos: usize) -> (r: u32)
    requires
        pos + 3 <= bytes@.len(),
    ensures
        r as nat == u24_be_at(bytes@, pos as int),
        r < 0x1000000,
{
    let n = bytes.len();
    let b0 = *slice_index_get(bytes, pos);
    let b1 = *slice_index_get(bytes, pos + 1);
    let b2 = *slice_index_get(bytes, pos + 2);
    (b0 as u32) * 0x10000 + (b1 as u32) * 0x100 + (b2 as u32)
}

/// Reads a big-endian 32-bit integer out of `bytes` at `pos`.
pub fn read_u32_be(bytes: &[u8], pos: usize) -> (r: u32)
    requires
        pos + 4 <= bytes@.len(),
    ensures
        r as nat == u32_be_at(bytes@, pos as int),
{
    let n = bytes.len();
    let b0 = *slice_index_get(bytes, pos);
    let b1 = *slice_index_get(bytes, pos + 1);
    let b2 = *slice_index_get(bytes, pos + 2);
    let b3 = *slice_index_get(bytes, pos + 3);
    (b0 as u32) * 0x1000000 + (b1 as u32) * 0x10000 + (b2 as u32) * 0x100 + (b3 as u32)
}

/// Lexicographic byte order: negative when `a` sorts before `b`, zero when
/// they are equal, positive when `a` sorts after `b`.
pub open spec fn lex_cmp(a: Seq<u8>, b: Seq<u8>) -> int
    decreases a.len(),
{
    if a.len() == 0 && b.len() == 0 {
        0
    } else if a.len() == 0 {
        -1
    } else if b.len() == 0 {
        1
    } else if a[0] < b[0] {
        -1
    } else if a[0] > b[0] {
        1
    } else {
        lex_cmp(a.skip(1), b.skip(1))
    }
}

/// Dropping an equal first byte from both sequences keeps their order.
proof fn lemma_lex_step(a: Seq<u8>, b: Seq<u8>, i: int)
    requires
        0 <= i < a.len(),
        0 <= i < b.len(),
        a[i] == b[i],
    ensures
        lex_cmp(a.skip(i), b.skip(i)) == lex_cmp(a.skip(i + 1), b.skip(i + 1)),
{
    assert(a.skip(i).skip(1) =~= a.skip(i + 1));
    assert(b.skip(i).skip(1) =~= b.skip(i + 1));
    assert(a.skip(i)[0] == a[i]);
    assert(b.skip(i)[0] == b[i]);
}

/// Compares two byte strings in lexicographic order.
pub fn cmp_bytes(a: &[u8], b: &[u8]) -> (r: i8)
    ensures
        r as int == lex_cmp(a@, b@),
{
    let alen = a.len();
    let blen = b.len();
    let mut i: usize = 0;
    proof {
        assert(a@.skip(0) =~= a@);
        assert(b@.skip(0) =~= b@);
    }
    loop
        invariant
            i <= alen,
            i <= blen,
            alen == a@.len(),
            blen == b@.len(),
            lex_cmp(a@, b@) == lex_cmp(a@.skip(i as int), b@.skip(i as int)),
        decreases alen - i,
    {
        if i == alen && i == blen {
            return 0;
        }
        if i == alen {
            return -1;
        }
        if i == blen {
            return 1;
        }
        let ab = *slice_index_get(a, i);
        let bb = *slice_index_get(b, i);
        assert(a@.skip(i as int)[0] == a@[i as int]);
        assert(b@.skip(i as int)[0] == b@[i as int]);
        if ab < bb {
            return -1;
        }
        if ab > bb {
            return 1;
        }
        proof {
            lemma_lex_step(a@, b@, i as int);
        }
        i = i + 1;
    }
}

/// Two byte strings are equal exactly when they compare as equal.
pub proof fn lemma_lex_eq(a: Seq<u8>, b: Seq<u8>)
    ensures
        (lex_cmp(a, b) == 0) <==> (a == b),
    decreases a.len(),
{
    if a.len() == 0 && b.len() == 0 {
        assert(a =~= b);
    } else if a.len() == 0 || b.len() == 0 {
        assert(a != b);
    } else if a[0] == b[0] {
        lemma_lex_eq(a.skip(1), b.skip(1));
        if lex_cmp(a, b) == 0 {
            assert(a.skip(1) == b.skip(1));
            assert(a.len() == b.len());
            assert forall|i: int| 0 <= i < a.len() implies a[i] == b[i] by {
                if i >= 1 {
                    assert(a[i] == a.skip(1)[i - 1]);
                    assert(b[i] == b.skip(1)[i - 1]);
                }
            }
            assert(a =~= b);
        }
        if a == b {
            assert(a.skip(1) =~= b.skip(1));
        }
    } else {
        if a == b {
            assert(a[0] == b[0]);
        }
    }
}

/// Swapping the arguments flips the sign of the comparison.
pub proof fn lemma_lex_antisym(a: Seq<u8>, b: Seq<u8>)
    ensures
        lex_cmp(a, b) == -lex_cmp(b, a),
    decreases a.len(),
{
    if a.len() > 0 && b.len() > 0 && a[0] == b[0] {
        lemma_lex_antisym(a.skip(1), b.skip(1));
    }
}

/// A byte string compares as equal to itself.
pub proof fn lemma_lex_refl(a: Seq<u8>)
    ensures
        lex_cmp(a, a) == 0,
{
    lemma_lex_eq(a, a);
}

/// Non-strict transitivity: strict as soon as either side is strict.
pub proof fn lemma_lex_le_trans(a: Seq<u8>, b: Seq<u8>, c: Seq<u8>)
    requires
        lex_cmp(a, b) <= 0,
        lex_cmp(b, c) <= 0,
    ensures
        lex_cmp(a, c) <= 0,
        (lex_cmp(a, b) < 0 || lex_cmp(b, c) < 0) ==> lex_cmp(a, c) < 0,
{
    if lex_cmp(a, b) == 0 {
        lemma_lex_eq(a, b);
    } else if lex_cmp(b, c) == 0 {
        lemma_lex_eq(b, c);
    } else {
        lemma_lex_trans(a, b, c);
    }
}

/// Lexicographic order is transitive.
pub proof fn lemma_lex_trans(a: Seq<u8>, b: Seq<u8>, c: Seq<u8>)
    requires
        lex_cmp(a, b) < 0,
        lex_cmp(b, c) < 0,
    ensures
        lex_cmp(a, c) < 0,
    decreases a.len(),
{
    if a.len() == 0 {
        if c.len() == 0 {
            assert(b.len() > 0);
        }
    } else {
        if a[0] == b[0] && b[0] == c[0] {
            lemma_lex_trans(a.skip(1), b.skip(1), c.skip(1));
        }
    }
}

} // verus!
