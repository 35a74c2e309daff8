use kira_nuclearqc::input::organelle_bin::{
    crc64_ecma, parse_header, parse_string_table, read_organelle_bin, read_u16, read_u32, read_u32_vec,
    read_u64, read_u64_vec, validate_csc, validate_header, CscView,
};
use kira_nuclearqc::input::{load_input_organelle, InputError, InputSourceKind, Species};
use kira_nuclearqc::pipeline::stage2_normalize::{compute_stats_organelle, organelle_column};

fn invalid(r: Result<kira_nuclearqc::input::organelle_bin::OrganelleBin, InputError>) -> String {
    match r {
        Err(InputError::InvalidInput(m)) => m,
        other => panic!("unexpected: {:?}", other),
    }
}

fn reseal(bytes: &mut [u8]) {
    let mut hdr = bytes[0..256].to_vec();
    hdr[120..128].fill(0);
    let crc = crc64_ecma(&hdr);
    bytes[120..128].copy_from_slice(&crc.to_le_bytes());
}

fn build_bin(genes: &[&str], barcodes: &[&str], col_ptr: &[u64], row_idx: &[u32], values: &[u32]) -> Vec<u8> {
    let genes_table = build_string_table(genes);
    let barcodes_table = build_string_table(barcodes);

    let mut offset = 256usize;
    let genes_offset = offset;
    offset = align64(offset + genes_table.len());
    let barcodes_offset = offset;
    offset = align64(offset + barcodes_table.len());
    let col_ptr_offset = offset;
    offset = align64(offset + col_ptr.len() * 8);
    let row_idx_offset = offset;
    offset = align64(offset + row_idx.len() * 4);
    let values_offset = offset;
    offset = align64(offset + values.len() * 4);

    let mut bytes = vec![0u8; offset];
    let file_bytes = bytes.len() as u64;
    bytes[0..4].copy_from_slice(b"KORG");
    bytes[4..6].copy_from_slice(&1u16.to_le_bytes());
    bytes[6..8].copy_from_slice(&0u16.to_le_bytes());
    bytes[8..12].copy_from_slice(&0x1234_5678u32.to_le_bytes());
    bytes[12..16].copy_from_slice(&256u32.to_le_bytes());
    bytes[16..24].copy_from_slice(&(genes.len() as u64).to_le_bytes());
    bytes[24..32].copy_from_slice(&(barcodes.len() as u64).to_le_bytes());
    bytes[32..40].copy_from_slice(&(row_idx.len() as u64).to_le_bytes());
    bytes[40..48].copy_from_slice(&(genes_offset as u64).to_le_bytes());
    bytes[48..56].copy_from_slice(&(genes_table.len() as u64).to_le_bytes());
    bytes[56..64].copy_from_slice(&(barcodes_offset as u64).to_le_bytes());
    bytes[64..72].copy_from_slice(&(barcodes_table.len() as u64).to_le_bytes());
    bytes[72..80].copy_from_slice(&(col_ptr_offset as u64).to_le_bytes());
    bytes[80..88].copy_from_slice(&(row_idx_offset as u64).to_le_bytes());
    bytes[88..96].copy_from_slice(&(values_offset as u64).to_le_bytes());
    bytes[96..104].copy_from_slice(&0u64.to_le_bytes());
    bytes[104..112].copy_from_slice(&0u64.to_le_bytes());
    bytes[112..120].copy_from_slice(&file_bytes.to_le_bytes());
    bytes[128..136].copy_from_slice(&0u64.to_le_bytes());

    bytes[genes_offset..genes_offset + genes_table.len()].copy_from_slice(&genes_table);
    bytes[barcodes_offset..barcodes_offset + barcodes_table.len()].copy_from_slice(&barcodes_table);
    for (i, v) in col_ptr.iter().enumerate() {
        let p = col_ptr_offset + i * 8;
        bytes[p..p + 8].copy_from_slice(&v.to_le_bytes());
    }
    for (i, v) in row_idx.iter().enumerate() {
        let p = row_idx_offset + i * 4;
        bytes[p..p + 4].copy_from_slice(&v.to_le_bytes());
    }
    for (i, v) in values.iter().enumerate() {
        let p = values_offset + i * 4;
        bytes[p..p + 4].copy_from_slice(&v.to_le_bytes());
    }
    reseal(&mut bytes);
    bytes
}

fn build_test_bin() -> Vec<u8> {
    build_bin(&["GENEA", "GENEB", "GENEC"], &["BC1", "BC2"], &[0, 2, 3], &[0, 2, 1], &[5, 1, 7])
}

fn build_string_table(items: &[&str]) -> Vec<u8> {
    let mut blob = Vec::new();
    let mut offsets = Vec::with_capacity(items.len() + 1);
    offsets.push(0u32);
    for item in items {
        blob.extend_from_slice(item.as_bytes());
        offsets.push(blob.len() as u32);
    }
    let mut out = Vec::new();
    out.extend_from_slice(&(items.len() as u32).to_le_bytes());
    for off in offsets {
        out.extend_from_slice(&off.to_le_bytes());
    }
    out.extend_from_slice(&blob);
    out
}

fn align64(v: usize) -> usize {
    let rem = v % 64;
    if rem == 0 { v } else { v + (64 - rem) }
}

#[test]
fn test_reader_minimal_bin() {
    let file = build_test_bin();

    let bin = read_organelle_bin(&file).unwrap();
    assert_eq!(bin.genes, vec!["GENEA", "GENEB", "GENEC"]);
    assert_eq!(bin.barcodes, vec!["BC1", "BC2"]);
    assert_eq!(bin.csc.col_ptr, vec![0, 2, 3]);
    assert_eq!(bin.csc.row_idx, vec![0, 2, 1]);
    assert_eq!(bin.csc.values, vec![5, 1, 7]);
    assert_eq!(bin.csc.n_genes, 3);
    assert_eq!(bin.csc.n_cells, 2);
    assert_eq!(bin.csc.nnz, 3);
    assert_eq!(bin.header.n_genes, 3);
    assert_eq!(bin.header.file_bytes, file.len() as u64);
}

#[test]
fn test_crc64_known_values() {
    assert_eq!(crc64_ecma(b""), 0);
    assert_eq!(crc64_ecma(b"123456789"), 0x6C40_DF5F_0B49_7347);
    assert_eq!(crc64_ecma(&[0]), 0);
    assert_eq!(crc64_ecma(&[1]), 0x42F0_E1EB_A9EA_3693);
}

#[test]
fn test_little_endian_reads() {
    let bytes = [0x01, 0x02, 0x03, 0x04, 0x05, 0x06, 0x07, 0x08, 0xff];
    assert_eq!(read_u16(&bytes, 0), 0x0201);
    assert_eq!(read_u16(&bytes, 7), 0xff08);
    assert_eq!(read_u32(&bytes, 1), 0x0504_0302);
    assert_eq!(read_u64(&bytes, 0), 0x0807_0605_0403_0201);
    assert_eq!(read_u64(&bytes, 1), 0xff08_0706_0504_0302);
    assert_eq!(read_u32_vec(&bytes, 1, 2).unwrap(), vec![0x0504_0302, 0xff08_0706]);
    assert_eq!(read_u64_vec(&bytes, 0, 1).unwrap(), vec![0x0807_0605_0403_0201]);
    assert_eq!(read_u64_vec(&bytes, 9, 0).unwrap(), Vec::<u64>::new());
    match read_u32_vec(&bytes, 6, 1) {
        Err(InputError::InvalidInput(m)) => assert_eq!(m, "u32 vector out of bounds"),
        other => panic!("unexpected: {:?}", other),
    }
    match read_u64_vec(&bytes, u64::MAX, 1) {
        Err(InputError::InvalidInput(m)) => assert_eq!(m, "u64 vector out of bounds"),
        other => panic!("unexpected: {:?}", other),
    }
    match read_u64_vec(&bytes, 0, u64::MAX) {
        Err(InputError::InvalidInput(m)) => assert_eq!(m, "u64 size overflow"),
        other => panic!("unexpected: {:?}", other),
    }
    match read_u32_vec(&bytes, 0, u64::MAX) {
        Err(InputError::InvalidInput(m)) => assert_eq!(m, "u32 size overflow"),
        other => panic!("unexpected: {:?}", other),
    }
}

#[test]
fn test_any_header_byte_change_fails_the_read() {
    let good = build_test_bin();
    assert!(read_organelle_bin(&good).is_ok());
    let mut mismatches = 0;
    for at in (0..120).chain(128..256) {
        for flip in [0x01u8, 0x80, 0xff] {
            let mut bad = good.clone();
            bad[at] ^= flip;
            let err = invalid(read_organelle_bin(&bad));
            if err == "header_crc64 mismatch" {
                mismatches += 1;
            } else {
                // Only a field that is checked before the checksum gives another error.
                assert!(at < 16 || (96..120).contains(&at) || (128..136).contains(&at), "{at}: {err}");
            }
        }
    }
    assert!(mismatches > 0);
    // The counts and offsets are checked after the checksum: the checksum tells their change.
    for at in 16..96 {
        let mut bad = good.clone();
        bad[at] ^= 0x10;
        assert_eq!(invalid(read_organelle_bin(&bad)), "header_crc64 mismatch");
    }
    for at in 136..256 {
        let mut bad = good.clone();
        bad[at] = 1;
        assert_eq!(invalid(read_organelle_bin(&bad)), "header_crc64 mismatch");
    }
}

#[test]
fn test_header_rules_in_order() {
    let good = build_test_bin();
    assert_eq!(invalid(read_organelle_bin(&good[..255])), "kira-organelle.bin too small");
    assert_eq!(invalid(read_organelle_bin(&[])), "kira-organelle.bin too small");

    let change = |at: usize, with: &[u8]| {
        let mut bad = good.clone();
        bad[at..at + with.len()].copy_from_slice(with);
        reseal(&mut bad);
        invalid(read_organelle_bin(&bad))
    };
    assert_eq!(change(0, b"KORX"), "invalid magic; expected KORG");
    assert_eq!(change(4, &2u16.to_le_bytes()), "unsupported version: 2.0");
    assert_eq!(change(6, &513u16.to_le_bytes()), "unsupported version: 1.513");
    assert_eq!(change(8, &0x7856_3412u32.to_le_bytes()), "unsupported endianness tag");
    assert_eq!(change(12, &128u32.to_le_bytes()), "invalid header_size; expected 256");
    assert_eq!(change(112, &1u64.to_le_bytes()), "file_bytes does not match file length");
    assert_eq!(change(96, &1u64.to_le_bytes()), "unsupported optional blocks in header");
    assert_eq!(change(104, &64u64.to_le_bytes()), "blocks_offset must be zero when n_blocks=0");
    assert_eq!(change(128, &9u64.to_le_bytes()), "data_crc64 not supported in v1");

    let mut bad = good.clone();
    bad[120..128].fill(0);
    assert_eq!(invalid(read_organelle_bin(&bad)), "header_crc64 missing or zero");
    let mut longer = good.clone();
    longer.push(0);
    assert_eq!(invalid(read_organelle_bin(&longer)), "file_bytes does not match file length");

    let header = parse_header(&good).unwrap();
    assert!(validate_header(&header, &good).is_ok());
    assert_eq!(header.col_ptr_offset % 64, 0);
}

#[test]
fn test_string_table_rules() {
    let table = build_string_table(&["ab", "", "\u{e9}t\u{e9}"]);
    let mut file = vec![0xAAu8; 3];
    file.extend_from_slice(&table);
    file.extend_from_slice(&[0xBB; 5]);
    let read = |bytes: &[u8], offset: u64, len: u64, count: u64| match parse_string_table(
        bytes, offset, len, count,
    ) {
        Ok(v) => Ok(v),
        Err(InputError::InvalidInput(m)) => Err(m),
        Err(other) => panic!("unexpected: {:?}", other),
    };
    let len = table.len() as u64;
    assert_eq!(read(&file, 3, len, 3).unwrap(), vec!["ab", "", "\u{e9}t\u{e9}"]);
    // Bytes after the last string are not looked at.
    assert_eq!(read(&file, 3, len + 5, 3).unwrap().len(), 3);
    assert_eq!(read(&file, 3, len + 6, 3).unwrap_err(), "string table out of bounds");
    assert_eq!(read(&file, u64::MAX, 8, 3).unwrap_err(), "string table out of bounds");
    assert_eq!(read(&file, 3, 7, 3).unwrap_err(), "string table out of bounds");
    assert_eq!(read(&file, 3, len, 2).unwrap_err(), "string table count mismatch");
    assert_eq!(read(&file, 3, len, 1 << 32 | 3).unwrap_err(), "string table count mismatch");
    assert_eq!(read(&file, 3, 19, 3).unwrap_err(), "string table offsets out of bounds");
    assert_eq!(read(&file, 3, len - 1, 3).unwrap_err(), "string table blob length mismatch");

    let mut unordered = file.clone();
    unordered[3 + 8..3 + 12].copy_from_slice(&3u32.to_le_bytes());
    assert_eq!(read(&unordered, 3, len, 3).unwrap_err(), "string table offsets not monotonic");

    // The second string would begin inside the two bytes of a character.
    let mut split = file.clone();
    split[3 + 12..3 + 16].copy_from_slice(&3u32.to_le_bytes());
    split[3 + 8..3 + 12].copy_from_slice(&3u32.to_le_bytes());
    assert_eq!(read(&split, 3, len, 3).unwrap_err(), "invalid utf-8 in string table");

    let empty = build_string_table(&[]);
    assert_eq!(read(&empty, 0, 8, 0).unwrap(), Vec::<String>::new());
}

fn csc(n_genes: usize, col_ptr: &[u64], row_idx: &[u32]) -> CscView {
    CscView {
        n_genes,
        n_cells: col_ptr.len().saturating_sub(1),
        nnz: row_idx.len(),
        col_ptr: col_ptr.to_vec(),
        row_idx: row_idx.to_vec(),
        values: vec![1; row_idx.len()],
    }
}

fn fault(view: &CscView) -> String {
    match validate_csc(view) {
        Err(InputError::InvalidInput(m)) => m,
        other => panic!("unexpected: {:?}", other),
    }
}

#[test]
fn test_csc_rules() {
    assert!(validate_csc(&csc(3, &[0, 2, 3], &[0, 2, 1])).is_ok());
    assert!(validate_csc(&csc(0, &[0], &[])).is_ok());
    assert!(validate_csc(&csc(5, &[0, 0, 3, 3], &[1, 3, 4])).is_ok());

    let mut wrong = csc(3, &[0, 2, 3], &[0, 2, 1]);
    wrong.n_cells = 3;
    assert_eq!(fault(&wrong), "col_ptr length mismatch");
    wrong.n_cells = usize::MAX;
    assert_eq!(fault(&wrong), "col_ptr length mismatch");
    let mut wrong = csc(3, &[0, 2, 3], &[0, 2, 1]);
    wrong.values.pop();
    assert_eq!(fault(&wrong), "row_idx/values length mismatch");
    let mut wrong = csc(3, &[0, 2, 3], &[0, 2, 1]);
    wrong.nnz = 2;
    assert_eq!(fault(&wrong), "row_idx/values length mismatch");
    assert_eq!(fault(&csc(3, &[1, 2, 3], &[0, 2, 1])), "col_ptr[0] must be 0");
    assert_eq!(fault(&csc(3, &[0, 2, 2], &[0, 2, 1])), "col_ptr[n_cells] must equal nnz");
    assert_eq!(fault(&csc(3, &[0, 4, 3], &[0, 2, 1])), "col_ptr not monotonic");
    assert_eq!(fault(&csc(3, &[0, 2, 3], &[0, 3, 1])), "row_idx out of bounds");
    assert_eq!(
        fault(&csc(3, &[0, 2, 3], &[2, 2, 1])),
        "row_idx not strictly increasing within column"
    );
    assert_eq!(
        fault(&csc(3, &[0, 3], &[0, 2, 1])),
        "row_idx not strictly increasing within column"
    );
    // Of two faults the one that is met first is told.
    assert_eq!(fault(&csc(3, &[0, 3], &[1, 0, 9])), "row_idx not strictly increasing within column");
    assert_eq!(fault(&csc(3, &[0, 3], &[1, 9, 0])), "row_idx out of bounds");
}

#[test]
fn test_container_faults_after_the_header() {
    let bad = build_bin(&["A", "B"], &["C1"], &[0, 2], &[1, 0], &[3, 4]);
    assert_eq!(invalid(read_organelle_bin(&bad)), "row_idx not strictly increasing within column");
    let bad = build_bin(&["A", "B"], &["C1"], &[0, 1], &[1, 0], &[3, 4]);
    assert_eq!(invalid(read_organelle_bin(&bad)), "col_ptr[n_cells] must equal nnz");
    let mut bad = build_test_bin();
    bad[80..88].copy_from_slice(&(u64::MAX - 3).to_le_bytes());
    reseal(&mut bad);
    assert_eq!(invalid(read_organelle_bin(&bad)), "u32 vector out of bounds");
    let mut bad = build_test_bin();
    bad[24..32].copy_from_slice(&3u64.to_le_bytes());
    reseal(&mut bad);
    assert_eq!(invalid(read_organelle_bin(&bad)), "string table count mismatch");
}

#[test]
fn test_container_statistics() {
    let file = build_bin(
        &["actb", " ", "ACTB", "gapdh"],
        &["C1", "C2", "C3"],
        &[0, 3, 3, 5],
        &[0, 1, 2, 1, 3],
        &[5, 100, 7, 9, 4_000_000_000],
    );
    let bundle = load_input_organelle("in", None, "in/x.bin".to_string(), &file).unwrap();
    assert_eq!(bundle.source, InputSourceKind::OrganelleBin);
    assert_eq!(bundle.species, Species::Unknown);
    assert_eq!(bundle.n_cells, 3);
    assert_eq!(bundle.n_features_raw, 4);
    assert_eq!(bundle.n_genes_indexed, 2);
    assert_eq!(bundle.mtx_path, "in/kira-organelle.bin");
    assert_eq!(bundle.features_path, "in/kira-organelle.bin");
    assert_eq!(bundle.shared_bin_path.as_deref(), Some("in/x.bin"));
    assert_eq!(bundle.barcodes, vec!["C1", "C2", "C3"]);
    assert_eq!(bundle.gene_index.gene_id_by_feature, vec![Some(0), None, Some(0), Some(1)]);
    let bin = bundle.organelle.as_ref().unwrap();
    // The pairs come in entry order, and two rows of one gene are not merged.
    assert_eq!(organelle_column(&bin.csc, &bundle.gene_index, 0), vec![(0, 5), (0, 7)]);
    assert_eq!(organelle_column(&bin.csc, &bundle.gene_index, 1), vec![]);
    assert_eq!(organelle_column(&bin.csc, &bundle.gene_index, 2), vec![(1, 4_000_000_000)]);
    let (libsizes, nnz) = compute_stats_organelle(&bin.csc, &bundle.gene_index);
    assert_eq!(libsizes, vec![12, 0, 4_000_000_000]);
    assert_eq!(nnz, vec![2, 0, 1]);
}

#[test]
fn test_container_with_metadata() {
    let file = build_test_bin();
    let bundle =
        load_input_organelle("in/", Some("barcode\tsample\nBC2\tS\n"), "b".to_string(), &file)
            .unwrap();
    let meta = bundle.meta.unwrap();
    assert_eq!(meta.rows, vec![vec!["".to_string()], vec!["S".to_string()]]);
    match load_input_organelle("in", Some(""), "b".to_string(), &file) {
        Err(InputError::Parse(m)) => assert_eq!(m, "meta file is empty"),
        other => panic!("unexpected: {:?}", other.map(|b| b.n_cells)),
    }
}
