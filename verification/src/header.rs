use vstd::prelude::*;
use vstd::slice::slice_index_get;
use crate::bytes::{u16_be_at, u24_be_at, u32_be_at, read_u16_be, read_u24_be, read_u32_be};
use crate::error::FormatError;

verus! {

/// The file's magic number: identifies the format and its version.
pub const TABLE_MAGIC: u32 = 0x53535401;

/// Byte ranges of the file's sections, derived from the fixed 12-byte
/// prologue: the membership filter, the two compression dictionaries, the
/// block-offset table and the blocks region.
#[derive(Clone, Copy, Debug, PartialEq, Eq, Structural)]
pub struct Header {
    pub aqmf_start: usize,
    pub aqmf_end: usize,
    pub key_dict_start: usize,
    pub key_dict_end: usize,
    pub value_dict_start: usize,
    pub value_dict_end: usize,
    pub block_offsets_start: usize,
    pub blocks_start: usize,
    pub block_count: u8,
}

/// Parses the fixed prologue of a table file: the magic number must match
/// and every derived section range must lie inside the file.
pub open spec fn spec_parse_header(file: Seq<u8>) -> Result<Header, FormatError> {
    if file.len() < 12 {
        Err(FormatError::Truncated)
    } else if u32_be_at(file, 0) != TABLE_MAGIC {
        Err(FormatError::BadMagic)
    } else {
        let aqmf_len = u24_be_at(file, 4);
        let key_dict_len = u16_be_at(file, 7);
        let value_dict_len = u16_be_at(file, 9);
        let block_count = file[11];
        let aqmf_end = 12 + aqmf_len;
        let key_dict_end = aqmf_end + key_dict_len;
        let value_dict_end = key_dict_end + value_dict_len;
        let blocks_start = value_dict_end + 4 * (block_count as int);
        if blocks_start > file.len() {
            Err(FormatError::Truncated)
        } else {
            Ok(
                Header {
                    aqmf_start: 12 as usize,
                    aqmf_end: aqmf_end as usize,
                    key_dict_start: aqmf_end as usize,
                    key_dict_end: key_dict_end as usize,
                    value_dict_start: key_dict_end as usize,
                    value_dict_end: value_dict_end as usize,
                    block_offsets_start: value_dict_end as usize,
                    blocks_start: blocks_start as usize,
                    block_count: block_count,
                },
            )
        }
    }
}

/// Every section range a successfully parsed header describes lies inside
/// the file, in order.
pub open spec fn header_in_file(file: Seq<u8>, h: Header) -> bool {
    &&& 12 == h.aqmf_start
    &&& h.aqmf_start <= h.aqmf_end == h.key_dict_start
    &&& h.key_dict_start <= h.key_dict_end == h.value_dict_start
    &&& h.value_dict_start <= h.value_dict_end == h.block_offsets_start
    &&& h.blocks_start == h.block_offsets_start + 4 * (h.block_count as int)
    &&& h.blocks_start <= file.len()
}

/// A parsed header never describes a range outside the file.
pub proof fn lemma_header_in_file(file: Seq<u8>, h: Header)
    requires
        spec_parse_header(file) == Ok::<Header, FormatError>(h),
    ensures
        header_in_file(file, h),
{
}

/// The filter section of a parsed file.
pub open spec fn spec_aqmf_bytes(file: Seq<u8>, h: Header) -> Seq<u8> {
    file.subrange(h.aqmf_start as int, h.aqmf_end as int)
}

/// The key-path compression dictionary of a parsed file.
pub open spec fn spec_key_dict(file: Seq<u8>, h: Header) -> Seq<u8> {
    file.subrange(h.key_dict_start as int, h.key_dict_end as int)
}

/// The value-path compression dictionary of a parsed file.
pub open spec fn spec_value_dict(file: Seq<u8>, h: Header) -> Seq<u8> {
    file.subrange(h.value_dict_start as int, h.value_dict_end as int)
}

/// Parses the fixed prologue out of the mapped file bytes.
pub fn parse_header(file: &[u8]) -> (r: Result<Header, FormatError>)
    ensures
        r == spec_parse_header(file@),
{
    let flen = file.len();
    if flen < 12 {
        return Err(FormatError::Truncated);
    }
    let magic = read_u32_be(file, 0);
    if magic != TABLE_MAGIC {
        return Err(FormatError::BadMagic);
    }
    let aqmf_len = read_u24_be(file, 4) as usize;
    let key_dict_len = read_u16_be(file, 7) as usize;
    let value_dict_len = read_u16_be(file, 9) as usize;
    let block_count = *slice_index_get(file, 11);
    let aqmf_end = 12 + aqmf_len;
    let key_dict_end = aqmf_end + key_dict_len;
    let value_dict_end = key_dict_end + value_dict_len;
    let blocks_start = value_dict_end + 4 * (block_count as usize);
    if blocks_start > flen {
        return Err(FormatError::Truncated);
    }
    Ok(
        Header {
            aqmf_start: 12,
            aqmf_end,
            key_dict_start: aqmf_end,
            key_dict_end,
            value_dict_start: key_dict_end,
            value_dict_end,
            block_offsets_start: value_dict_end,
            blocks_start,
            block_count,
        },
    )
}

} // verus!
