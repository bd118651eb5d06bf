use vstd::prelude::*;
use crate::error::FormatError;
use crate::shared::SharedBytes;

verus! {

/// What LZ4 block decompression yields for a compressed frame, a dictionary
/// and an output buffer of the given length: the final content of that
/// buffer paired with the count of bytes the decoder produced, or nothing
/// when the decoder rejects the frame. The outcome depends on these three
/// inputs alone.
pub uninterp spec fn lz4_with_dict(frame: Seq<u8>, dict: Seq<u8>, out_len: nat) -> Option<(Seq<u8>, nat)>;

/// Relies on lzzzz::lz4::decompress_with_dict (LZ4_decompress_safe_usingDict):
/// decompression is a pure function of the frame, the dictionary and the
/// output length; it writes decoded bytes from the start of the output
/// buffer, reports how many it wrote, and fails on a corrupt frame or one
/// that does not fit the buffer.
#[verifier::external_body]
fn lz4_decompress_into(frame: &[u8], out_len: usize, dict: &[u8]) -> (r: Result<
    (Vec<u8>, usize),
    FormatError,
>)
    ensures
        match r {
            Ok(p) => lz4_with_dict(frame@, dict@, out_len as nat) == Some((p.0@, p.1 as nat))
                && p.0@.len() == out_len && p.1 <= out_len,
            Err(e) => lz4_with_dict(frame@, dict@, out_len as nat) is None && e
                == FormatError::BadFrame,
        },
{
    let mut buf = vec![0u8; out_len];
    match lzzzz::lz4::decompress_with_dict(frame, &mut buf, dict) {
        Ok(n) => Ok((buf, n)),
        Err(_) => Err(FormatError::BadFrame),
    }
}

/// The decompressed content of one block frame: defined when the frame
/// decodes and produces exactly the recorded uncompressed length.
pub open spec fn spec_decompress_exact(frame: Seq<u8>, dict: Seq<u8>, out_len: nat) -> Result<
    Seq<u8>,
    FormatError,
> {
    match lz4_with_dict(frame, dict, out_len) {
        Some(p) => if p.1 == out_len {
            Ok(p.0)
        } else {
            Err(FormatError::BadFrame)
        },
        None => Err(FormatError::BadFrame),
    }
}

/// Decompresses one block frame into a fresh, exactly sized, shareable
/// buffer. A frame that fails to decode, or that does not produce exactly
/// `out_len` bytes, is a fatal format error for this lookup.
pub fn decompress_exact(frame: &[u8], out_len: usize, dict: &[u8]) -> (r: Result<
    SharedBytes,
    FormatError,
>)
    ensures
        match r {
            Ok(b) => spec_decompress_exact(frame@, dict@, out_len as nat) == Ok::<_, FormatError>(
                b@,
            ) && b@.len() == out_len,
            Err(e) => spec_decompress_exact(frame@, dict@, out_len as nat) == Err::<Seq<u8>, _>(e),
        },
{
    match lz4_decompress_into(frame, out_len, dict) {
        Ok((buf, n)) => {
            if n == out_len {
                Ok(SharedBytes::from_vec(buf))
            } else {
                Err(FormatError::BadFrame)
            }
        },
        Err(e) => Err(e),
    }
}

/// Decompressing the same frame against the same dictionary and length twice
/// yields byte-identical buffers: the outcome is a pure function of those
/// inputs, so any two successful reads of one block agree.
pub proof fn lemma_decompress_deterministic(
    frame: Seq<u8>,
    dict: Seq<u8>,
    out_len: nat,
    a: Seq<u8>,
    b: Seq<u8>,
)
    requires
        spec_decompress_exact(frame, dict, out_len) == Ok::<_, FormatError>(a),
        spec_decompress_exact(frame, dict, out_len) == Ok::<_, FormatError>(b),
    ensures
        a == b,
{
}

} // verus!
