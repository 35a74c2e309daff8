use kira_nuclearqc::input::cache::{
    cache_path_default, float_bits_eq, hash_bytes, read_normalized_cache, read_u32, read_u64, read_u8,
    write_normalized_cache, write_u32, write_u64, write_u8, CacheMeta, CachedNormalizedData, Fnv64,
};
use kira_nuclearqc::input::{GeneIndex, InputError};
use kira_nuclearqc::pipeline::stage2_normalize::{
    build_cache_meta, build_cache_meta_organelle, cache_lookup, hash_gene_index,
    hash_joined_symbols, SCALE_BITS,
};

fn meta() -> CacheMeta {
    CacheMeta {
        n_cells: 3,
        n_genes: 7,
        hash_mtx: 0x0102_0304_0506_0708,
        hash_features: u64::MAX,
        hash_barcodes: 0,
        hash_gene_index: 0xdead_beef_0000_0001,
        scale_bits: 10_000f32.to_bits(),
        log1p: true,
    }
}

fn data() -> CachedNormalizedData {
    CachedNormalizedData {
        libsizes: vec![3.0f32.to_bits(), 0, 1.5f32.to_bits()],
        nnz: vec![2, 0, 1],
        columns: vec![
            vec![(0, 0.25f32.to_bits()), (6, f32::NAN.to_bits())],
            vec![],
            vec![(u32::MAX, (-0.0f32).to_bits())],
        ],
    }
}

fn encode(meta: &CacheMeta, data: &CachedNormalizedData) -> Vec<u8> {
    let mut out = Vec::new();
    write_normalized_cache(&mut out, meta, data);
    out
}

fn hit(bytes: &[u8], meta: &CacheMeta) -> CachedNormalizedData {
    read_normalized_cache(bytes, meta).unwrap().unwrap()
}

#[test]
fn test_hash_known_values() {
    assert_eq!(hash_bytes(b""), 0xcbf2_9ce4_8422_2325);
    assert_eq!(hash_bytes(b"a"), 0xaf63_dc4c_8601_ec8c);
    assert_eq!(hash_bytes(b"foobar"), 0x8594_4171_f739_67e8);
}

#[test]
fn test_hash_in_pieces_is_the_hash_of_the_whole() {
    let text = b"the quick brown fox jumps over the lazy dog";
    for cut in [0, 1, 7, text.len()] {
        let mut hasher = Fnv64::new();
        hasher.update(&text[..cut]);
        hasher.update(&text[cut..]);
        assert_eq!(hasher.finish(), hash_bytes(text));
    }
}

#[test]
fn test_one_changed_byte_changes_the_hash() {
    let text: Vec<u8> = (0..=255u8).cycle().take(600).collect();
    let base = hash_bytes(&text);
    for at in [0, 1, 255, 256, 599] {
        for with in [0x00u8, 0x01, 0x80, 0xff] {
            let mut changed = text.clone();
            if changed[at] == with {
                continue;
            }
            changed[at] = with;
            assert_ne!(hash_bytes(&changed), base);
        }
    }
}

#[test]
fn test_cache_layout() {
    let bytes = encode(&meta(), &data());
    assert_eq!(&bytes[0..8], b"KIRAQC2\0");
    assert_eq!(&bytes[8..12], &1u32.to_le_bytes());
    assert_eq!(&bytes[12..16], &10_000f32.to_le_bytes());
    assert_eq!(&bytes[16..20], &[1, 0, 0, 0]);
    assert_eq!(&bytes[20..24], &3u32.to_le_bytes());
    assert_eq!(&bytes[24..28], &7u32.to_le_bytes());
    assert_eq!(&bytes[28..36], &0x0102_0304_0506_0708u64.to_le_bytes());
    assert_eq!(&bytes[36..44], &u64::MAX.to_le_bytes());
    assert_eq!(&bytes[44..52], &0u64.to_le_bytes());
    assert_eq!(&bytes[52..60], &0xdead_beef_0000_0001u64.to_le_bytes());
    assert_eq!(&bytes[60..64], &3.0f32.to_le_bytes());
    assert_eq!(&bytes[68..72], &1.5f32.to_le_bytes());
    assert_eq!(&bytes[72..76], &2u32.to_le_bytes());
    assert_eq!(&bytes[84..88], &0u32.to_le_bytes());
    assert_eq!(&bytes[88..92], &0.25f32.to_le_bytes());
    assert_eq!(&bytes[92..96], &6u32.to_le_bytes());
    assert_eq!(&bytes[100..104], &u32::MAX.to_le_bytes());
    assert_eq!(bytes.len(), 60 + 12 + 12 + 3 * 8);
}

#[test]
fn test_cache_round_trip() {
    let bytes = encode(&meta(), &data());
    let back = hit(&bytes, &meta());
    assert_eq!(back.libsizes, data().libsizes);
    assert_eq!(back.nnz, data().nnz);
    assert_eq!(back.columns, data().columns);
    // A second write of what was read gives the same bytes.
    assert_eq!(encode(&meta(), &back), bytes);
    // What follows the values is not looked at.
    let mut longer = bytes.clone();
    longer.extend_from_slice(&[9, 9, 9]);
    assert_eq!(hit(&longer, &meta()).columns, data().columns);
}

#[test]
fn test_empty_cache_round_trip() {
    let meta = CacheMeta { n_cells: 0, ..meta() };
    let empty = CachedNormalizedData { libsizes: vec![], nnz: vec![], columns: vec![] };
    let bytes = encode(&meta, &empty);
    assert_eq!(bytes.len(), 60);
    let back = hit(&bytes, &meta);
    assert!(back.libsizes.is_empty() && back.nnz.is_empty() && back.columns.is_empty());
}

#[test]
fn test_every_field_of_the_fingerprint_counts() {
    let bytes = encode(&meta(), &data());
    let others = [
        CacheMeta { n_cells: 4, ..meta() },
        CacheMeta { n_genes: 8, ..meta() },
        CacheMeta { hash_mtx: meta().hash_mtx ^ 1, ..meta() },
        CacheMeta { hash_features: meta().hash_features - 1, ..meta() },
        CacheMeta { hash_barcodes: 1 << 63, ..meta() },
        CacheMeta { hash_gene_index: meta().hash_gene_index + (1 << 32), ..meta() },
        CacheMeta { scale_bits: 10_000.001f32.to_bits(), ..meta() },
        CacheMeta { log1p: false, ..meta() },
    ];
    for other in others {
        assert!(read_normalized_cache(&bytes, &other).unwrap().is_none(), "{:?}", other);
        assert!(cache_lookup(Some(&bytes), &other).is_none());
    }
    assert!(cache_lookup(Some(&bytes), &meta()).is_some());
    assert!(cache_lookup(None, &meta()).is_none());
}

#[test]
fn test_changed_matrix_byte_invalidates_the_cache() {
    let matrix = b"%%MatrixMarket\n2 2 1\n1 1 5\n".to_vec();
    let mut changed = matrix.clone();
    changed[matrix.len() - 2] = b'6';
    let written = CacheMeta { hash_mtx: hash_bytes(&matrix), ..meta() };
    let wanted = CacheMeta { hash_mtx: hash_bytes(&changed), ..meta() };
    assert_ne!(written.hash_mtx, wanted.hash_mtx);
    let bytes = encode(&written, &data());
    assert!(read_normalized_cache(&bytes, &written).unwrap().is_some());
    assert!(read_normalized_cache(&bytes, &wanted).unwrap().is_none());
}

#[test]
fn test_scales_are_compared_as_numbers() {
    assert!(float_bits_eq(0.0f32.to_bits(), (-0.0f32).to_bits()));
    assert!(float_bits_eq(1.5f32.to_bits(), 1.5f32.to_bits()));
    assert!(float_bits_eq(f32::INFINITY.to_bits(), f32::INFINITY.to_bits()));
    assert!(!float_bits_eq(f32::INFINITY.to_bits(), f32::NEG_INFINITY.to_bits()));
    assert!(!float_bits_eq(f32::NAN.to_bits(), f32::NAN.to_bits()));
    assert!(!float_bits_eq(1.0f32.to_bits(), (-1.0f32).to_bits()));
    assert!(!float_bits_eq(f32::MIN_POSITIVE.to_bits(), 0));
    for (a, b) in [(0.1f32, 0.1f32), (0.1, 0.2), (f32::NAN, 1.0), (-0.0, 0.0), (3.0, -3.0)] {
        assert_eq!(float_bits_eq(a.to_bits(), b.to_bits()), a == b);
    }
    let zero = CacheMeta { scale_bits: 0.0f32.to_bits(), ..meta() };
    let minus_zero = CacheMeta { scale_bits: (-0.0f32).to_bits(), ..meta() };
    assert!(read_normalized_cache(&encode(&zero, &data()), &minus_zero).unwrap().is_some());
    let not_a_number = CacheMeta { scale_bits: f32::NAN.to_bits(), ..meta() };
    let bytes = encode(&not_a_number, &data());
    assert!(read_normalized_cache(&bytes, &not_a_number).unwrap().is_none());
}

#[test]
fn test_magic_and_version() {
    let bytes = encode(&meta(), &data());
    let mut other_magic = bytes.clone();
    other_magic[6] = b'1';
    assert!(read_normalized_cache(&other_magic, &meta()).unwrap().is_none());
    assert!(read_normalized_cache(b"KIRAQC1\0", &meta()).unwrap().is_none());
    let mut other_version = bytes.clone();
    other_version[8] = 2;
    assert!(read_normalized_cache(&other_version, &meta()).unwrap().is_none());
    assert!(read_normalized_cache(&other_version[..12], &meta()).unwrap().is_none());
    // Any byte that is not zero sets the flag.
    let mut flag = bytes.clone();
    flag[16] = 0x40;
    flag[17] = 0xff;
    assert!(read_normalized_cache(&flag, &meta()).unwrap().is_some());
}

#[test]
fn test_a_file_that_ends_early_fails_the_read() {
    let bytes = encode(&meta(), &data());
    for len in [0, 7, 8, 11, 12, 59, 60, 83, 84, 85, 99, bytes.len() - 1] {
        match read_normalized_cache(&bytes[..len], &meta()) {
            Err(InputError::Io(m)) => assert_eq!(m, "failed to fill whole buffer"),
            other => panic!("{len}: unexpected {:?}", other.map(|d| d.is_some())),
        }
        // For the pipeline a cache that cannot be read is a miss.
        assert!(cache_lookup(Some(&bytes[..len]), &meta()).is_none());
    }
    // A fingerprint that does not match is told before the values are read.
    let other = CacheMeta { n_genes: 1, ..meta() };
    assert!(read_normalized_cache(&bytes[..60], &other).unwrap().is_none());
}

#[test]
fn test_cursor_reads_and_writes() {
    let mut out = Vec::new();
    write_u8(&mut out, 0xAB);
    write_u32(&mut out, 0x0102_0304);
    write_u64(&mut out, 0x1122_3344_5566_7788);
    assert_eq!(out, vec![0xAB, 4, 3, 2, 1, 0x88, 0x77, 0x66, 0x55, 0x44, 0x33, 0x22, 0x11]);
    let mut pos = 0usize;
    assert_eq!(read_u8(&out, &mut pos).unwrap(), 0xAB);
    assert_eq!(read_u32(&out, &mut pos).unwrap(), 0x0102_0304);
    assert_eq!(read_u64(&out, &mut pos).unwrap(), 0x1122_3344_5566_7788);
    assert_eq!(pos, 13);
    assert!(read_u8(&out, &mut pos).is_err());
    pos = 10;
    assert!(read_u32(&out, &mut pos).is_err());
    assert!(read_u64(&out, &mut pos).is_err());
    assert_eq!(pos, 10);
    pos = usize::MAX;
    assert!(read_u8(&out, &mut pos).is_err());
    assert!(read_u64(&out, &mut pos).is_err());
}

#[test]
fn test_gene_index_hashes() {
    let index = GeneIndex {
        gene_id_by_feature: vec![Some(0), Some(1)],
        symbols_by_gene_id: vec!["ACTB".to_string(), "\u{3b2}2M".to_string()],
    };
    assert_eq!(hash_gene_index(&index), hash_bytes("ACTB\0\u{3b2}2M\0".as_bytes()));
    assert_eq!(hash_joined_symbols(&index), hash_bytes("ACTB|\u{3b2}2M".as_bytes()));
    let none = GeneIndex { gene_id_by_feature: vec![], symbols_by_gene_id: vec![] };
    assert_eq!(hash_gene_index(&none), hash_bytes(b""));
    assert_eq!(hash_joined_symbols(&none), hash_bytes(b""));
    let one = GeneIndex { gene_id_by_feature: vec![], symbols_by_gene_id: vec!["X".to_string()] };
    assert_eq!(hash_joined_symbols(&one), hash_bytes(b"X"));
}

#[test]
fn test_fingerprints() {
    let index = GeneIndex {
        gene_id_by_feature: vec![Some(0), None, Some(1)],
        symbols_by_gene_id: vec!["A".to_string(), "B".to_string()],
    };
    assert_eq!(SCALE_BITS, 10_000f32.to_bits());
    let meta = build_cache_meta(5, &index, 1, 2, 3, SCALE_BITS, true);
    assert_eq!(
        meta,
        CacheMeta {
            n_cells: 5,
            n_genes: 2,
            hash_mtx: 1,
            hash_features: 2,
            hash_barcodes: 3,
            hash_gene_index: hash_bytes(b"A\0B\0"),
            scale_bits: SCALE_BITS,
            log1p: true,
        }
    );
    let meta = build_cache_meta_organelle(9, &index, 77, SCALE_BITS, false);
    assert_eq!(
        meta,
        CacheMeta {
            n_cells: 9,
            n_genes: 2,
            hash_mtx: 77,
            hash_features: 77,
            hash_barcodes: 77,
            hash_gene_index: hash_bytes(b"A|B"),
            scale_bits: SCALE_BITS,
            log1p: false,
        }
    );
}

#[test]
fn test_cache_path_default() {
    assert_eq!(cache_path_default("/data/run/matrix.mtx"), "/data/run/kira_nuclearqc.normcache");
    assert_eq!(cache_path_default("matrix.mtx.gz"), "kira_nuclearqc.normcache");
    assert_eq!(cache_path_default("run/x.kira-organelle.bin"), "run/kira_nuclearqc.normcache");
    assert_eq!(cache_path_default("run/out/"), "run/kira_nuclearqc.normcache");
    assert_eq!(cache_path_default("/matrix.mtx"), "/kira_nuclearqc.normcache");
    assert_eq!(cache_path_default("/"), "./kira_nuclearqc.normcache");
    assert_eq!(cache_path_default(""), "./kira_nuclearqc.normcache");
}

/// One load with caching over a cache file held in memory: a hit serves the
/// file, a miss serves the fresh values and writes them.
fn load(
    file: &mut Option<Vec<u8>>,
    meta: &CacheMeta,
    fresh: CachedNormalizedData,
) -> CachedNormalizedData {
    match cache_lookup(file.as_deref(), meta) {
        Some(cached) => cached,
        None => {
            *file = Some(encode(meta, &fresh));
            fresh
        }
    }
}

#[test]
fn test_two_loads_serve_the_same_bits() {
    let other = CachedNormalizedData {
        libsizes: vec![0, 0, 0],
        nnz: vec![0, 0, 0],
        columns: vec![vec![], vec![], vec![]],
    };
    let stale = encode(&CacheMeta { hash_features: 1, ..meta() }, &other);
    let truncated = encode(&meta(), &data())[..70].to_vec();
    for before in [None, Some(stale), Some(truncated), Some(vec![1, 2, 3])] {
        let mut file = before;
        let first = load(&mut file, &meta(), data());
        let written = file.clone();
        // The second load would compute other values, and is not asked to.
        let second = load(&mut file, &meta(), other.clone());
        assert_eq!(first.libsizes, second.libsizes);
        assert_eq!(first.nnz, second.nnz);
        assert_eq!(first.columns, second.columns);
        assert_eq!(first.columns, data().columns);
        assert_eq!(file, written);
    }
    // A file that holds the values already is served and left alone.
    let mut file = Some(encode(&meta(), &data()));
    let served = load(&mut file, &meta(), other.clone());
    assert_eq!(served.columns, data().columns);
    assert_eq!(file, Some(encode(&meta(), &data())));
}
