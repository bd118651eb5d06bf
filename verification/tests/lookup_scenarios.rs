use sst_reader::{AqmfCache, FormatError, KeyBlockCache, LookupResult, StaticSortedFile, ValueBlockCache};

fn be24(x: usize) -> [u8; 3] {
    let b = (x as u32).to_be_bytes();
    [b[1], b[2], b[3]]
}

fn index_block(entries: &[(&[u8], u8)], last_key: &[u8]) -> Vec<u8> {
    let n = entries.len() + 1;
    let mut b = vec![0u8];
    b.extend_from_slice(&(n as u16).to_be_bytes());
    let mut payload: Vec<u8> = Vec::new();
    let mut offs: Vec<u16> = Vec::new();
    for (k, c) in entries {
        payload.extend_from_slice(k);
        payload.push(*c);
        offs.push(payload.len() as u16);
    }
    payload.extend_from_slice(last_key);
    for o in offs {
        b.extend_from_slice(&o.to_be_bytes());
    }
    b.extend_from_slice(&payload);
    b
}

fn key_block(entries: &[(u8, &[u8], Vec<u8>)]) -> Vec<u8> {
    let mut b = vec![1u8];
    b.extend_from_slice(&be24(entries.len()));
    let mut payload: Vec<u8> = Vec::new();
    let mut recs: Vec<(u8, usize)> = Vec::new();
    for (ty, key, trailer) in entries {
        recs.push((*ty, payload.len()));
        payload.extend_from_slice(key);
        payload.extend_from_slice(trailer);
    }
    for (ty, start) in recs {
        b.push(ty);
        b.extend_from_slice(&be24(start));
    }
    b.extend_from_slice(&payload);
    b
}

fn normal_trailer(block: u8, size: usize, position: usize) -> Vec<u8> {
    let mut t = vec![block];
    t.extend_from_slice(&be24(size));
    t.extend_from_slice(&(position as u32).to_be_bytes());
    t
}

fn build_filter(keys: &[&[u8]]) -> Vec<u8> {
    let mut f = qfilter::Filter::new(64, 0.001).unwrap();
    for k in keys {
        f.insert(*k).unwrap();
    }
    pot::to_vec(&f).unwrap()
}

fn build_file(filter_bytes: &[u8], blocks: &[Vec<u8>]) -> Vec<u8> {
    let mut blob: Vec<u8> = Vec::new();
    let mut offs: Vec<u32> = Vec::new();
    for b in blocks {
        blob.extend_from_slice(&(b.len() as u32).to_be_bytes());
        let mut comp = Vec::new();
        lzzzz::lz4::compress_to_vec(b, &mut comp, lzzzz::lz4::ACC_LEVEL_DEFAULT).unwrap();
        blob.extend_from_slice(&comp);
        offs.push(blob.len() as u32);
    }
    let mut out = Vec::new();
    out.extend_from_slice(&0x53535401u32.to_be_bytes());
    out.extend_from_slice(&be24(filter_bytes.len()));
    out.extend_from_slice(&0u16.to_be_bytes());
    out.extend_from_slice(&0u16.to_be_bytes());
    out.push(blocks.len() as u8);
    out.extend_from_slice(filter_bytes);
    for o in offs {
        out.extend_from_slice(&o.to_be_bytes());
    }
    out.extend_from_slice(&blob);
    out
}

fn build_file_with_dicts(
    filter_bytes: &[u8],
    key_dict: &[u8],
    value_dict: &[u8],
    key_path_blocks: &[Vec<u8>],
    value_blocks: &[Vec<u8>],
) -> Vec<u8> {
    let mut blob: Vec<u8> = Vec::new();
    let mut offs: Vec<u32> = Vec::new();
    let mut push = |dict: &[u8], b: &Vec<u8>, blob: &mut Vec<u8>, offs: &mut Vec<u32>| {
        blob.extend_from_slice(&(b.len() as u32).to_be_bytes());
        let mut comp = Vec::new();
        if dict.is_empty() {
            lzzzz::lz4::compress_to_vec(b, &mut comp, lzzzz::lz4::ACC_LEVEL_DEFAULT).unwrap();
        } else {
            let mut c = lzzzz::lz4::Compressor::with_dict(dict).unwrap();
            c.next_to_vec(b, &mut comp, lzzzz::lz4::ACC_LEVEL_DEFAULT).unwrap();
        }
        blob.extend_from_slice(&comp);
        offs.push(blob.len() as u32);
    };
    for b in key_path_blocks {
        push(key_dict, b, &mut blob, &mut offs);
    }
    for b in value_blocks {
        push(value_dict, b, &mut blob, &mut offs);
    }
    let mut out = Vec::new();
    out.extend_from_slice(&0x53535401u32.to_be_bytes());
    out.extend_from_slice(&be24(filter_bytes.len()));
    out.extend_from_slice(&(key_dict.len() as u16).to_be_bytes());
    out.extend_from_slice(&(value_dict.len() as u16).to_be_bytes());
    out.push((key_path_blocks.len() + value_blocks.len()) as u8);
    out.extend_from_slice(filter_bytes);
    out.extend_from_slice(key_dict);
    out.extend_from_slice(value_dict);
    for o in offs {
        out.extend_from_slice(&o.to_be_bytes());
    }
    out.extend_from_slice(&blob);
    out
}

fn open_bytes(seq: u32, bytes: &[u8]) -> StaticSortedFile {
    let mut m = memmap2::MmapMut::map_anon(bytes.len()).unwrap();
    m.copy_from_slice(bytes);
    StaticSortedFile::new(seq, m.make_read_only().unwrap())
}

fn caches() -> (AqmfCache, KeyBlockCache, ValueBlockCache) {
    (
        AqmfCache::with_capacity(16, 1 << 20),
        KeyBlockCache::with_capacity(16, 1 << 20),
        ValueBlockCache::with_capacity(16, 1 << 20),
    )
}

#[test]
fn single_key_block_small_value() {
    let kb = key_block(&[(0, b"a", normal_trailer(1, 5, 0))]);
    let vb = b"hello".to_vec();
    let file = build_file(&build_filter(&[b"a", b"b"]), &[kb, vb]);
    let f = open_bytes(1, &file);
    let (ac, kc, vc) = caches();
    match f.lookup(b"a", &ac, &kc, &vc).unwrap() {
        LookupResult::Small { value } => assert_eq!(value.as_slice(), b"hello"),
        _ => panic!("expected a small value"),
    }
    match f.lookup(b"b", &ac, &kc, &vc).unwrap() {
        LookupResult::KeyMiss => {}
        _ => panic!("expected a key miss"),
    }
}

#[test]
fn deleted_entry_is_reported() {
    let kb = key_block(&[(2, b"x", Vec::new())]);
    let file = build_file(&build_filter(&[b"x"]), &[kb]);
    let f = open_bytes(2, &file);
    let (ac, kc, vc) = caches();
    match f.lookup(b"x", &ac, &kc, &vc).unwrap() {
        LookupResult::Deleted => {}
        _ => panic!("expected a tombstone"),
    }
}

#[test]
fn filter_prunes_absent_key() {
    let kb = key_block(&[(2, b"a", Vec::new())]);
    let file = build_file(&build_filter(&[b"a"]), &[kb]);
    let f = open_bytes(3, &file);
    let (ac, kc, vc) = caches();
    match f.lookup(b"z", &ac, &kc, &vc).unwrap() {
        LookupResult::QuickFilterMiss => {}
        _ => panic!("expected the filter to prune the lookup"),
    }
}

#[test]
fn two_level_index_routes_by_separators() {
    // Root index block with separators b < d < m < x over three key blocks;
    // "d" and "m" fence the middle child.
    let root = index_block(&[(b"b", 1), (b"d", 2), (b"m", 3)], b"x");
    let kb1 = key_block(&[(2, b"c", Vec::new())]);
    let kb2 = key_block(&[(0, b"f", normal_trailer(4, 3, 0))]);
    let kb3 = key_block(&[(2, b"p", Vec::new())]);
    let vb = b"mid".to_vec();
    let filter = build_filter(&[b"a", b"c", b"f", b"p", b"z"]);
    let file = build_file(&filter, &[root, kb1, kb2, kb3, vb]);
    let f = open_bytes(4, &file);
    let (ac, kc, vc) = caches();
    match f.lookup(b"a", &ac, &kc, &vc).unwrap() {
        LookupResult::RangeMiss => {}
        _ => panic!("a key below every separator must be a range miss"),
    }
    match f.lookup(b"f", &ac, &kc, &vc).unwrap() {
        LookupResult::Small { value } => assert_eq!(value.as_slice(), b"mid"),
        _ => panic!("a key between the middle separators must reach the middle child"),
    }
    match f.lookup(b"z", &ac, &kc, &vc).unwrap() {
        LookupResult::RangeMiss => {}
        _ => panic!("a key above every separator must be a range miss"),
    }
    match f.lookup(b"c", &ac, &kc, &vc).unwrap() {
        LookupResult::Deleted => {}
        _ => panic!("a key in the first child's range must reach the first child"),
    }
    match f.lookup(b"p", &ac, &kc, &vc).unwrap() {
        LookupResult::Deleted => {}
        _ => panic!("a key in the last child's range must reach the last child"),
    }
}

#[test]
fn blob_entry_reports_sequence_number() {
    let kb = key_block(&[(1, b"k", 0xDEADBEEFu32.to_be_bytes().to_vec())]);
    let file = build_file(&build_filter(&[b"k"]), &[kb]);
    let f = open_bytes(5, &file);
    let (ac, kc, vc) = caches();
    match f.lookup(b"k", &ac, &kc, &vc).unwrap() {
        LookupResult::Blob { sequence_number } => assert_eq!(sequence_number, 0xDEADBEEF),
        _ => panic!("expected a blob reference"),
    }
}

#[test]
fn equal_separator_routes_to_its_child() {
    // Equal to the first separator -> child 0; equal to the last -> child n-2.
    let root = index_block(&[(b"b", 1), (b"d", 2), (b"m", 3)], b"x");
    let kb1 = key_block(&[(2, b"b", Vec::new())]);
    let kb2 = key_block(&[(2, b"d", Vec::new())]);
    let kb3 = key_block(&[(2, b"x", Vec::new())]);
    let filter = build_filter(&[b"b", b"d", b"x"]);
    let file = build_file(&filter, &[root, kb1, kb2, kb3]);
    let f = open_bytes(6, &file);
    let (ac, kc, vc) = caches();
    assert!(matches!(f.lookup(b"b", &ac, &kc, &vc).unwrap(), LookupResult::Deleted));
    assert!(matches!(f.lookup(b"x", &ac, &kc, &vc).unwrap(), LookupResult::Deleted));
    // Equal to a middle separator descends into the child it fences.
    match f.lookup(b"d", &ac, &kc, &vc).unwrap() {
        LookupResult::Deleted => {}
        _ => panic!("a key equal to a middle separator must reach its child"),
    }
}

#[test]
fn bad_magic_is_rejected() {
    let kb = key_block(&[(2, b"a", Vec::new())]);
    let mut file = build_file(&build_filter(&[b"a"]), &[kb]);
    file[0] = 0x00;
    let f = open_bytes(7, &file);
    let (ac, kc, vc) = caches();
    assert_eq!(f.lookup(b"a", &ac, &kc, &vc).unwrap_err(), FormatError::BadMagic);
}

#[test]
fn truncated_file_is_rejected() {
    let f = open_bytes(8, &[0x53, 0x53, 0x54, 0x01, 0x00]);
    let (ac, kc, vc) = caches();
    assert_eq!(f.lookup(b"a", &ac, &kc, &vc).unwrap_err(), FormatError::Truncated);
}

#[test]
fn corrupt_filter_is_rejected() {
    let kb = key_block(&[(2, b"a", Vec::new())]);
    let file = build_file(&[0xFF, 0xFF, 0xFF, 0xFF], &[kb]);
    let f = open_bytes(9, &file);
    let (ac, kc, vc) = caches();
    assert_eq!(f.lookup(b"a", &ac, &kc, &vc).unwrap_err(), FormatError::BadFilter);
}

#[test]
fn unknown_block_tag_is_rejected() {
    let mut block = key_block(&[(2, b"a", Vec::new())]);
    block[0] = 9;
    let file = build_file(&build_filter(&[b"a"]), &[block]);
    let f = open_bytes(10, &file);
    let (ac, kc, vc) = caches();
    assert_eq!(f.lookup(b"a", &ac, &kc, &vc).unwrap_err(), FormatError::UnknownBlockType);
}

#[test]
fn unknown_entry_tag_is_rejected() {
    let block = key_block(&[(7, b"a", Vec::new())]);
    let file = build_file(&build_filter(&[b"a"]), &[block]);
    let f = open_bytes(11, &file);
    let (ac, kc, vc) = caches();
    assert_eq!(f.lookup(b"a", &ac, &kc, &vc).unwrap_err(), FormatError::UnknownEntryType);
}

#[test]
fn corrupt_frame_is_rejected() {
    // Record an uncompressed length larger than what the frame produces:
    // the decompression length mismatch is fatal.
    let kb = key_block(&[(2, b"a", Vec::new())]);
    let filter = build_filter(&[b"a"]);
    let mut file = build_file(&filter, &[kb]);
    let blocks_start = 12 + filter.len() + 4;
    let mut ulen = u32::from_be_bytes(file[blocks_start..blocks_start + 4].try_into().unwrap());
    ulen += 1;
    file[blocks_start..blocks_start + 4].copy_from_slice(&ulen.to_be_bytes());
    let f = open_bytes(12, &file);
    let (ac, kc, vc) = caches();
    assert_eq!(f.lookup(b"a", &ac, &kc, &vc).unwrap_err(), FormatError::BadFrame);
}

#[test]
fn cyclic_index_is_rejected() {
    // Block 0 is an index block that routes every covered key back to itself.
    let root = index_block(&[(b"a", 0)], b"z");
    let file = build_file(&build_filter(&[b"m"]), &[root]);
    let f = open_bytes(13, &file);
    let (ac, kc, vc) = caches();
    assert_eq!(f.lookup(b"m", &ac, &kc, &vc).unwrap_err(), FormatError::CyclicIndex);
}

#[test]
fn repeated_lookups_share_one_buffer_content() {
    // The same block read twice, through the cache and through a fresh pair
    // of caches, yields bit-identical value bytes.
    let kb = key_block(&[(0, b"a", normal_trailer(1, 5, 0))]);
    let vb = b"hello".to_vec();
    let file = build_file(&build_filter(&[b"a"]), &[kb, vb]);
    let f = open_bytes(14, &file);
    let (ac, kc, vc) = caches();
    let first = match f.lookup(b"a", &ac, &kc, &vc).unwrap() {
        LookupResult::Small { value } => value.as_slice().to_vec(),
        _ => panic!("expected a small value"),
    };
    let second = match f.lookup(b"a", &ac, &kc, &vc).unwrap() {
        LookupResult::Small { value } => value.as_slice().to_vec(),
        _ => panic!("expected a small value"),
    };
    let (ac2, kc2, vc2) = caches();
    let third = match f.lookup(b"a", &ac2, &kc2, &vc2).unwrap() {
        LookupResult::Small { value } => value.as_slice().to_vec(),
        _ => panic!("expected a small value"),
    };
    assert_eq!(first, second);
    assert_eq!(first, third);
}

#[test]
fn each_path_uses_its_own_dictionary() {
    // The key block is compressed with the key dictionary and the value
    // block with the value dictionary; the lookup must pair each block with
    // the right one to decode both.
    let key_dict = b"aaaaaaaaaaaaaaaaaaaaaaaaaaaaaaaa";
    let value_dict = b"the quick brown fox jumps over the lazy dog";
    let kb = key_block(&[(0, b"a", normal_trailer(1, 9, 4))]);
    let vb = b"the quick brown fox".to_vec();
    let filter = build_filter(&[b"a"]);
    let file = build_file_with_dicts(&filter, key_dict, value_dict, &[kb], &[vb]);
    let f = open_bytes(20, &file);
    let (ac, kc, vc) = caches();
    match f.lookup(b"a", &ac, &kc, &vc).unwrap() {
        LookupResult::Small { value } => assert_eq!(value.as_slice(), b"quick bro"),
        _ => panic!("expected a small value"),
    }
}

#[test]
fn value_slice_outside_its_block_is_rejected() {
    let kb = key_block(&[(0, b"a", normal_trailer(1, 6, 0))]);
    let vb = b"hello".to_vec();
    let file = build_file(&build_filter(&[b"a"]), &[kb, vb]);
    let f = open_bytes(21, &file);
    let (ac, kc, vc) = caches();
    assert_eq!(f.lookup(b"a", &ac, &kc, &vc).unwrap_err(), FormatError::Truncated);
}

#[test]
fn file_without_blocks_is_rejected() {
    let file = build_file(&build_filter(&[b"a"]), &[]);
    let f = open_bytes(22, &file);
    let (ac, kc, vc) = caches();
    assert_eq!(f.lookup(b"a", &ac, &kc, &vc).unwrap_err(), FormatError::Truncated);
}

#[test]
fn nested_index_blocks_route_through_two_levels() {
    // Root index -> two inner index blocks -> four key blocks.
    let root = index_block(&[(b"a", 1), (b"j", 2)], b"z");
    let inner_left = index_block(&[(b"a", 3), (b"e", 4)], b"j");
    let inner_right = index_block(&[(b"j", 5), (b"p", 6)], b"z");
    let kb = |k: &[u8]| key_block(&[(2, k, Vec::new())]);
    let filter = build_filter(&[b"c", b"g", b"n", b"t"]);
    let file = build_file(
        &filter,
        &[root, inner_left, inner_right, kb(b"c"), kb(b"g"), kb(b"n"), kb(b"t")],
    );
    let f = open_bytes(23, &file);
    let (ac, kc, vc) = caches();
    assert!(matches!(f.lookup(b"c", &ac, &kc, &vc).unwrap(), LookupResult::Deleted));
    assert!(matches!(f.lookup(b"g", &ac, &kc, &vc).unwrap(), LookupResult::Deleted));
    assert!(matches!(f.lookup(b"n", &ac, &kc, &vc).unwrap(), LookupResult::Deleted));
    assert!(matches!(f.lookup(b"t", &ac, &kc, &vc).unwrap(), LookupResult::Deleted));
}

#[test]
fn structurally_invalid_filter_is_rejected_not_probed() {
    // A filter section that deserializes fine but whose block buffer marks a
    // bucket occupied while carrying no runend bit at all: probing it would
    // walk forever looking for the run's end. The lookup must reject the
    // section as corrupt instead of ever probing such a filter.
    let mut buffer = vec![0u8; 81];
    buffer[1] = 0x01; // one occupied bit, all runend bits zero
    let mut section: Vec<u8> = Vec::new();
    section.extend_from_slice(&[0x50, 0x6F, 0x74, 0x00]); // pot header
    section.push(0xA5); // map with five entries
    section.extend_from_slice(&[0xC2, 0x62, 0xF1, 0x05]); // "b", 81 bytes
    section.extend_from_slice(&buffer);
    section.extend_from_slice(&[0xC2, 0x6C, 0x40, 0x01]); // "l" = 1
    section.extend_from_slice(&[0xC2, 0x71, 0x40, 0x06]); // "q" = 6
    section.extend_from_slice(&[0xC2, 0x72, 0x40, 0x07]); // "r" = 7
    section.extend_from_slice(&[0xC2, 0x6D, 0x00]); // "m" = none
    let kb = key_block(&[(2, b"a", Vec::new())]);
    let file = build_file(&section, &[kb]);
    let f = open_bytes(24, &file);
    let (ac, kc, vc) = caches();
    assert_eq!(f.lookup(b"a", &ac, &kc, &vc).unwrap_err(), FormatError::BadFilter);
}

#[test]
fn genuine_filter_sections_pass_the_structural_check() {
    let mut f = qfilter::Filter::new(1000, 0.01).unwrap();
    for i in 0..500u32 {
        f.insert(i.to_be_bytes()).unwrap();
    }
    let section = pot::to_vec(&f).unwrap();
    assert!(sst_reader::filter::filter_section_ok(&section));
    let empty = qfilter::Filter::new(64, 0.01).unwrap();
    assert!(sst_reader::filter::filter_section_ok(&pot::to_vec(&empty).unwrap()));
    let mut growable = qfilter::Filter::new_resizeable(100, 10_000, 0.01).unwrap();
    growable.insert(b"k".as_slice()).unwrap();
    assert!(sst_reader::filter::filter_section_ok(&pot::to_vec(&growable).unwrap()));
}
