use sst_reader::bytes::{cmp_bytes, read_u16_be, read_u24_be, read_u32_be};
use sst_reader::compress::decompress_exact;
use sst_reader::error::FormatError;
use sst_reader::header::parse_header;
use sst_reader::index_block::index_block_lookup;
use sst_reader::key_block::{key_block_search, EntryPayload};

fn be24(x: usize) -> [u8; 3] {
    let b = (x as u32).to_be_bytes();
    [b[1], b[2], b[3]]
}

fn index_block(entries: &[(&[u8], u8)], last_key: &[u8]) -> Vec<u8> {
    let n = entries.len() + 1;
    let mut b = vec![0u8];
    b.extend_from_slice(&(n as u16).to_be_bytes());
    let mut payload: Vec<u8> = Vec::new();
    let mut offs: Vec<u16> = Vec::new();
    for (k, c) in entries {
        payload.extend_from_slice(k);
        payload.push(*c);
        offs.push(payload.len() as u16);
    }
    payload.extend_from_slice(last_key);
    for o in offs {
        b.extend_from_slice(&o.to_be_bytes());
    }
    b.extend_from_slice(&payload);
    b
}

fn key_block(entries: &[(u8, &[u8], Vec<u8>)]) -> Vec<u8> {
    let mut b = vec![1u8];
    b.extend_from_slice(&be24(entries.len()));
    let mut payload: Vec<u8> = Vec::new();
    let mut recs: Vec<(u8, usize)> = Vec::new();
    for (ty, key, trailer) in entries {
        recs.push((*ty, payload.len()));
        payload.extend_from_slice(key);
        payload.extend_from_slice(trailer);
    }
    for (ty, start) in recs {
        b.push(ty);
        b.extend_from_slice(&be24(start));
    }
    b.extend_from_slice(&payload);
    b
}

#[test]
fn errors_carry_a_description() {
    assert_eq!(FormatError::BadMagic.describe(), "invalid magic number or version");
    assert_eq!(FormatError::CyclicIndex.describe(), "index blocks form a cycle");
}

#[test]
fn big_endian_readers() {
    let b = [0x12u8, 0x34, 0x56, 0x78, 0x9A];
    assert_eq!(read_u16_be(&b, 0), 0x1234);
    assert_eq!(read_u16_be(&b, 3), 0x789A);
    assert_eq!(read_u24_be(&b, 1), 0x345678);
    assert_eq!(read_u32_be(&b, 0), 0x12345678);
    assert_eq!(read_u32_be(&b, 1), 0x3456789A);
}

#[test]
fn byte_order_is_lexicographic() {
    assert_eq!(cmp_bytes(b"", b""), 0);
    assert_eq!(cmp_bytes(b"", b"a"), -1);
    assert_eq!(cmp_bytes(b"a", b""), 1);
    assert_eq!(cmp_bytes(b"abc", b"abc"), 0);
    assert_eq!(cmp_bytes(b"ab", b"abc"), -1);
    assert_eq!(cmp_bytes(b"abc", b"ab"), 1);
    assert_eq!(cmp_bytes(b"abd", b"abc"), 1);
    assert_eq!(cmp_bytes(b"aBc", b"abc"), -1);
}

#[test]
fn header_ranges_are_derived_in_order() {
    let mut f = Vec::new();
    f.extend_from_slice(&0x53535401u32.to_be_bytes());
    f.extend_from_slice(&be24(5));
    f.extend_from_slice(&3u16.to_be_bytes());
    f.extend_from_slice(&2u16.to_be_bytes());
    f.push(2);
    f.resize(12 + 5 + 3 + 2 + 8, 0);
    let h = parse_header(&f).unwrap();
    assert_eq!(h.aqmf_start, 12);
    assert_eq!(h.aqmf_end, 17);
    assert_eq!(h.key_dict_start, 17);
    assert_eq!(h.key_dict_end, 20);
    assert_eq!(h.value_dict_start, 20);
    assert_eq!(h.value_dict_end, 22);
    assert_eq!(h.block_offsets_start, 22);
    assert_eq!(h.blocks_start, 30);
    assert_eq!(h.block_count, 2);
}

#[test]
fn header_rejects_bad_magic_and_truncation() {
    let mut f = Vec::new();
    f.extend_from_slice(&0x53535402u32.to_be_bytes());
    f.resize(12, 0);
    assert_eq!(parse_header(&f).unwrap_err(), FormatError::BadMagic);
    assert_eq!(parse_header(&[0x53]).unwrap_err(), FormatError::Truncated);
    let mut g = Vec::new();
    g.extend_from_slice(&0x53535401u32.to_be_bytes());
    g.extend_from_slice(&be24(100));
    g.extend_from_slice(&0u16.to_be_bytes());
    g.extend_from_slice(&0u16.to_be_bytes());
    g.push(0);
    assert_eq!(parse_header(&g).unwrap_err(), FormatError::Truncated);
}

#[test]
fn decompression_round_trips_exactly() {
    let data: Vec<u8> = (0..1000u32).map(|i| (i % 251) as u8).collect();
    let mut frame = Vec::new();
    lzzzz::lz4::compress_to_vec(&data, &mut frame, lzzzz::lz4::ACC_LEVEL_DEFAULT).unwrap();
    let a = decompress_exact(&frame, data.len(), b"").unwrap();
    let b = decompress_exact(&frame, data.len(), b"").unwrap();
    assert_eq!(a.as_slice(), &data[..]);
    assert_eq!(a.len(), data.len());
    assert_eq!(a.as_slice(), b.as_slice());
    assert_eq!(
        decompress_exact(&frame, data.len() + 1, b"").unwrap_err(),
        FormatError::BadFrame
    );
}

#[test]
fn decompression_honours_the_dictionary() {
    let dict = b"the quick brown fox jumps over the lazy dog";
    let data = b"the quick brown fox naps under the lazy dog";
    let mut comp = lzzzz::lz4::Compressor::with_dict(&dict[..]).unwrap();
    let mut frame = Vec::new();
    comp.next_to_vec(data, &mut frame, lzzzz::lz4::ACC_LEVEL_DEFAULT).unwrap();
    let out = decompress_exact(&frame, data.len(), dict).unwrap();
    assert_eq!(out.as_slice(), &data[..]);
}

#[test]
fn index_navigation_boundaries() {
    // Two separators, one child: the smallest meaningful index block.
    let b = index_block(&[(b"d", 7)], b"m");
    assert_eq!(index_block_lookup(&b, b"a").unwrap(), None);
    assert_eq!(index_block_lookup(&b, b"d").unwrap(), Some(7));
    assert_eq!(index_block_lookup(&b, b"f").unwrap(), Some(7));
    assert_eq!(index_block_lookup(&b, b"m").unwrap(), Some(7));
    assert_eq!(index_block_lookup(&b, b"z").unwrap(), None);
}

#[test]
fn index_navigation_picks_the_fenced_child() {
    let b = index_block(&[(b"b", 1), (b"d", 2), (b"m", 3)], b"x");
    assert_eq!(index_block_lookup(&b, b"a").unwrap(), None);
    assert_eq!(index_block_lookup(&b, b"b").unwrap(), Some(1));
    assert_eq!(index_block_lookup(&b, b"c").unwrap(), Some(1));
    assert_eq!(index_block_lookup(&b, b"d").unwrap(), Some(2));
    assert_eq!(index_block_lookup(&b, b"f").unwrap(), Some(2));
    assert_eq!(index_block_lookup(&b, b"m").unwrap(), Some(3));
    assert_eq!(index_block_lookup(&b, b"p").unwrap(), Some(3));
    assert_eq!(index_block_lookup(&b, b"x").unwrap(), Some(3));
    assert_eq!(index_block_lookup(&b, b"y").unwrap(), None);
}

#[test]
fn index_block_without_two_separators_is_rejected() {
    let b = [0u8, 0, 1, 0, 0];
    assert_eq!(index_block_lookup(&b, b"a").unwrap_err(), FormatError::Truncated);
    let c = [0u8, 0, 0];
    assert_eq!(index_block_lookup(&c, b"a").unwrap_err(), FormatError::Truncated);
}

#[test]
fn key_search_handles_single_entry_blocks() {
    let b = key_block(&[(2, b"k", Vec::new())]);
    assert_eq!(key_block_search(&b, b"k").unwrap(), Some(EntryPayload::Deleted));
    assert_eq!(key_block_search(&b, b"a").unwrap(), None);
    assert_eq!(key_block_search(&b, b"z").unwrap(), None);
}

#[test]
fn key_search_handles_empty_blocks() {
    let b = key_block(&[]);
    assert_eq!(key_block_search(&b, b"k").unwrap(), None);
}

#[test]
fn key_search_finds_exactly_the_stored_keys() {
    let mut t = vec![9u8];
    t.extend_from_slice(&be24(3));
    t.extend_from_slice(&77u32.to_be_bytes());
    let b = key_block(&[
        (0, b"alpha", t.clone()),
        (1, b"beta", 42u32.to_be_bytes().to_vec()),
        (2, b"gamma", Vec::new()),
    ]);
    assert_eq!(
        key_block_search(&b, b"alpha").unwrap(),
        Some(EntryPayload::Normal { block: 9, size: 3, position: 77 })
    );
    assert_eq!(
        key_block_search(&b, b"beta").unwrap(),
        Some(EntryPayload::Blob { sequence_number: 42 })
    );
    assert_eq!(key_block_search(&b, b"gamma").unwrap(), Some(EntryPayload::Deleted));
    assert_eq!(key_block_search(&b, b"alph").unwrap(), None);
    assert_eq!(key_block_search(&b, b"alphaa").unwrap(), None);
    assert_eq!(key_block_search(&b, b"delta").unwrap(), None);
}

#[test]
fn key_search_scales_to_large_blocks() {
    // 50_000 fixed-width keys in lexicographic (= numeric big-endian) order.
    let keys: Vec<[u8; 4]> = (0..50_000u32).map(|i| (i * 3).to_be_bytes()).collect();
    let entries: Vec<(u8, &[u8], Vec<u8>)> =
        keys.iter().map(|k| (2u8, &k[..], Vec::new())).collect();
    let b = key_block(&entries);
    assert_eq!(
        key_block_search(&b, &0u32.to_be_bytes()).unwrap(),
        Some(EntryPayload::Deleted)
    );
    assert_eq!(
        key_block_search(&b, &(49_999u32 * 3).to_be_bytes()).unwrap(),
        Some(EntryPayload::Deleted)
    );
    assert_eq!(
        key_block_search(&b, &(25_000u32 * 3).to_be_bytes()).unwrap(),
        Some(EntryPayload::Deleted)
    );
    assert_eq!(key_block_search(&b, &(25_000u32 * 3 + 1).to_be_bytes()).unwrap(), None);
    assert_eq!(key_block_search(&b, &(50_000u32 * 3).to_be_bytes()).unwrap(), None);
}
