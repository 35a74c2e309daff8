use kira_nuclearqc::input::mtx::{
    assemble_csc, find_matrix_path, read_mtx_csc, CscMatrix, MtxEntry, MtxReader,
};
use kira_nuclearqc::input::{GeneIndex, InputError};
use kira_nuclearqc::pipeline::stage2_normalize::compute_stats;

fn plain_index(n: usize) -> GeneIndex {
    GeneIndex {
        gene_id_by_feature: (0..n).map(Some).collect(),
        symbols_by_gene_id: (0..n).map(|i| format!("GENE{}", i + 1)).collect(),
    }
}

fn mtx_text(rows: usize, cols: usize, entries: &[(usize, usize, i64)]) -> String {
    let mut out = String::new();
    out.push_str("%%MatrixMarket matrix coordinate integer general\n");
    out.push_str("% generated\n");
    out.push_str(&format!("{} {} {}\n", rows, cols, entries.len()));
    for (r, c, v) in entries {
        out.push_str(&format!("{} {} {}\n", r, c, v));
    }
    out
}

fn parse_error(r: Result<CscMatrix, InputError>) -> String {
    match r {
        Err(InputError::Parse(m)) => m,
        other => panic!("unexpected: {:?}", other),
    }
}

#[test]
fn test_small_mtx_stats_and_values() {
    let text = mtx_text(2, 2, &[(1, 1, 1), (2, 1, 2), (2, 2, 3)]);
    let index = plain_index(2);
    let csc = read_mtx_csc(&text, 2, 2, &index).unwrap();
    assert_eq!(csc.n_rows, 2);
    assert_eq!(csc.n_cols, 2);

    let (libsizes, nnz) = compute_stats(&csc);
    let libsizes: Vec<f32> = libsizes.iter().map(|v| *v as f64 as f32).collect();
    assert_eq!(libsizes, vec![3.0, 3.0]);
    assert_eq!(nnz, vec![2, 1]);

    let values: Vec<(u32, f32)> = csc.cols[0].iter().map(|(g, v)| (*g, *v as f32)).collect();
    assert_eq!(values, vec![(0, 1.0), (1, 2.0)]);
    let values: Vec<(u32, f32)> = csc.cols[1].iter().map(|(g, v)| (*g, *v as f32)).collect();
    assert_eq!(values, vec![(1, 3.0)]);
}

#[test]
fn test_columns_do_not_depend_on_line_order() {
    let index = plain_index(4);
    let entries = [(3, 1, 5), (1, 1, 2), (4, 2, 1), (1, 1, 7), (2, 2, -3), (3, 1, -5), (2, 1, 9)];
    let mut reversed = entries;
    reversed.reverse();
    let mut rotated = entries;
    rotated.rotate_left(3);
    let a = read_mtx_csc(&mtx_text(4, 2, &entries), 4, 2, &index).unwrap();
    let b = read_mtx_csc(&mtx_text(4, 2, &reversed), 4, 2, &index).unwrap();
    let c = read_mtx_csc(&mtx_text(4, 2, &rotated), 4, 2, &index).unwrap();
    assert_eq!(a.cols, b.cols);
    assert_eq!(a.cols, c.cols);
    // Duplicates are summed; a sum of zero stays; genes ascend.
    assert_eq!(a.cols, vec![vec![(0, 9), (1, 9), (2, 0)], vec![(1, -3), (3, 1)]]);
}

#[test]
fn test_unmapped_rows_and_zero_values_are_dropped() {
    let index = GeneIndex {
        gene_id_by_feature: vec![Some(1), None, Some(0), Some(1)],
        symbols_by_gene_id: vec!["A".to_string(), "B".to_string()],
    };
    let text = mtx_text(4, 1, &[(1, 1, 4), (2, 1, 100), (3, 1, 0), (4, 1, 6), (3, 1, 2)]);
    let csc = read_mtx_csc(&text, 4, 1, &index).unwrap();
    assert_eq!(csc.cols, vec![vec![(0, 2), (1, 10)]]);
}

#[test]
fn test_rows_beyond_the_gene_index_are_dropped() {
    let index = plain_index(1);
    let text = mtx_text(2, 1, &[(1, 1, 4), (2, 1, 5)]);
    let csc = read_mtx_csc(&text, 2, 1, &index).unwrap();
    assert_eq!(csc.cols, vec![vec![(0, 4)]]);
}

#[test]
fn test_header_and_size_line_errors() {
    let index = plain_index(2);
    assert_eq!(parse_error(read_mtx_csc("", 2, 2, &index)), "matrix.mtx is empty");
    assert_eq!(parse_error(read_mtx_csc("\n2 2 0\n", 2, 2, &index)), "missing MatrixMarket header");
    assert_eq!(
        parse_error(read_mtx_csc(" %%MatrixMarket\n2 2 0\n", 2, 2, &index)),
        "missing MatrixMarket header"
    );
    assert_eq!(
        parse_error(read_mtx_csc("%%MatrixMarket x\n% c\n\n", 2, 2, &index)),
        "missing matrix size line"
    );
    assert_eq!(
        parse_error(read_mtx_csc("%%MatrixMarket\n2 2\n", 2, 2, &index)),
        "invalid matrix size line at line 2"
    );
    assert_eq!(
        parse_error(read_mtx_csc("%%MatrixMarket\n% c\n\nx 2 0\n", 2, 2, &index)),
        "invalid row count at line 4"
    );
    assert_eq!(
        parse_error(read_mtx_csc("%%MatrixMarket\n%\n2 -2 0\n", 2, 2, &index)),
        "invalid column count at line 3"
    );
    assert_eq!(
        parse_error(read_mtx_csc("%%MatrixMarket\n2 2 1.5\n", 2, 2, &index)),
        "invalid nnz count at line 2"
    );
}

#[test]
fn test_dimension_mismatch_is_invalid_input() {
    let index = plain_index(2);
    match read_mtx_csc("%%MatrixMarket\n3 2 0\n", 2, 2, &index) {
        Err(InputError::InvalidInput(m)) => {
            assert_eq!(m, "matrix row count 3 does not match features 2")
        }
        other => panic!("unexpected: {:?}", other),
    }
    match read_mtx_csc("%%MatrixMarket\n2 10 0\n", 2, 2, &index) {
        Err(InputError::InvalidInput(m)) => {
            assert_eq!(m, "matrix column count 10 does not match barcodes 2")
        }
        other => panic!("unexpected: {:?}", other),
    }
}

#[test]
fn test_entry_errors_name_the_line() {
    let index = plain_index(2);
    let head = "%%MatrixMarket\n2 2 3\n";
    assert_eq!(
        parse_error(read_mtx_csc(&format!("{head}1 1 1\n% note\n1 1\n"), 2, 2, &index)),
        "invalid matrix entry at line 5"
    );
    assert_eq!(
        parse_error(read_mtx_csc(&format!("{head}1 1 1\n\n3 1 1\n"), 2, 2, &index)),
        "matrix entry out of bounds at line 5"
    );
    assert_eq!(
        parse_error(read_mtx_csc(&format!("{head}0 1 1\n"), 2, 2, &index)),
        "matrix entry out of bounds at line 3"
    );
    assert_eq!(
        parse_error(read_mtx_csc(&format!("{head}1 3 0\n"), 2, 2, &index)),
        "matrix entry out of bounds at line 3"
    );
    assert_eq!(
        parse_error(read_mtx_csc(&format!("{head}a 1 1\n"), 2, 2, &index)),
        "invalid row index at line 3"
    );
    assert_eq!(
        parse_error(read_mtx_csc(&format!("{head}1 1 1\n% note\n1 1.0 1\n"), 2, 2, &index)),
        "invalid col index at line 5"
    );
    assert_eq!(
        parse_error(read_mtx_csc(
            &format!("{head}\n2 2 2\n1 1 9223372036854775808\n"),
            2,
            2,
            &index
        )),
        "invalid value at line 5"
    );
    // Comments and blank lines before the dimensions count as lines of the text.
    assert_eq!(
        parse_error(read_mtx_csc("%%MatrixMarket\n% c\n\n% d\n2 2 1\n\n9 9 9\n", 2, 2, &index)),
        "matrix entry out of bounds at line 7"
    );
    assert_eq!(
        parse_error(read_mtx_csc("%%MatrixMarket\n% c\n2 2 1\n1 1\n", 2, 2, &index)),
        "invalid matrix entry at line 4"
    );
    // Of two lines that are refused the first is named.
    assert_eq!(
        parse_error(read_mtx_csc(&format!("{head}1 1 1\n1 -1 1\nx 1 1\n"), 2, 2, &index)),
        "invalid col index at line 4"
    );
}

#[test]
fn test_numbers_are_read_as_the_standard_library_reads_them() {
    let index = plain_index(2);
    let csc = read_mtx_csc(
        "%%MatrixMarket\n+2 2 1\n  +1\t\t+2   -9223372036854775808  trailing\n002 01 +9223372036854775807\n",
        2,
        2,
        &index,
    )
    .unwrap();
    assert_eq!(csc.cols, vec![vec![(1, i64::MAX)], vec![(0, i64::MIN)]]);
    let index = plain_index(20);
    for line in ["-1 1 1", "+ 1 1", "1 1 +", "1 1 -", "1 1 --1", "1_0 1 1", "1 1 1e3"] {
        let text = format!("%%MatrixMarket\n20 20 1\n{line}\n");
        assert!(read_mtx_csc(&text, 20, 20, &index).is_err(), "{line}");
    }
}

fn feed_all(lines: &[&str], rows: usize, cols: usize, index: &GeneIndex) -> Result<CscMatrix, InputError> {
    let mut reader = MtxReader::new(rows, cols, index);
    for line in lines {
        reader.feed(line)?;
    }
    reader.finish()
}

#[test]
fn test_reader_takes_the_matrix_line_by_line() {
    let index = plain_index(2);
    let lines = ["%%MatrixMarket matrix coordinate integer general", "% generated", "", "2 2 3", "1 1 1", "% more", "2 1 2", "2 2 3"];
    let by_lines = feed_all(&lines, 2, 2, &index).unwrap();
    let by_text = read_mtx_csc(&lines.join("\n"), 2, 2, &index).unwrap();
    assert_eq!(by_lines.cols, by_text.cols);
    assert_eq!(by_lines.cols, vec![vec![(0, 1), (1, 2)], vec![(1, 3)]]);
    assert_eq!((by_lines.n_rows, by_lines.n_cols), (2, 2));
    // The first line that is no comment is taken for the dimensions, whatever it is.
    assert_eq!(
        parse_error(feed_all(&["%%MatrixMarket", "1 1"], 2, 2, &index)),
        "invalid matrix size line at line 2"
    );
    match feed_all(&["%%MatrixMarket", "1 1 1"], 2, 2, &index) {
        Err(InputError::InvalidInput(m)) => {
            assert_eq!(m, "matrix row count 1 does not match features 2")
        }
        other => panic!("unexpected: {:?}", other),
    }
}

#[test]
fn test_reader_errors_come_at_the_line_that_is_refused() {
    let index = plain_index(2);
    let mut reader = MtxReader::new(2, 2, &index);
    assert!(reader.feed("%%MatrixMarket").is_ok());
    assert!(reader.feed("2 2 9").is_ok());
    assert!(reader.feed("1 1 4").is_ok());
    match reader.feed("1 x 4") {
        Err(InputError::Parse(m)) => assert_eq!(m, "invalid col index at line 4"),
        other => panic!("unexpected: {:?}", other),
    }
    let mut reader = MtxReader::new(2, 2, &index);
    match reader.feed("MatrixMarket") {
        Err(InputError::Parse(m)) => assert_eq!(m, "missing MatrixMarket header"),
        other => panic!("unexpected: {:?}", other),
    }
    let mut reader = MtxReader::new(2, 2, &index);
    assert!(reader.feed("%%MatrixMarket").is_ok());
    match reader.feed("2 3 0") {
        Err(InputError::InvalidInput(m)) => {
            assert_eq!(m, "matrix column count 3 does not match barcodes 2")
        }
        other => panic!("unexpected: {:?}", other),
    }
}

#[test]
fn test_reader_that_ends_early() {
    let index = plain_index(2);
    assert_eq!(parse_error(feed_all(&[], 2, 2, &index)), "matrix.mtx is empty");
    assert_eq!(
        parse_error(feed_all(&["%%MatrixMarket", "%", " "], 2, 2, &index)),
        "missing matrix size line"
    );
    let empty = feed_all(&["%%MatrixMarket", "2 2 0"], 2, 2, &index).unwrap();
    assert_eq!(empty.cols, vec![vec![], vec![]]);
}

#[test]
fn test_sum_out_of_range_is_refused_whatever_the_order() {
    let index = plain_index(1);
    let big = i64::MAX;
    let fits = [(1, 1, big), (1, 1, 1), (1, 1, -1)];
    let csc = read_mtx_csc(&mtx_text(1, 1, &fits), 1, 1, &index).unwrap();
    assert_eq!(csc.cols, vec![vec![(0, big)]]);
    let over = [(1, 1, big), (1, 1, 1)];
    match read_mtx_csc(&mtx_text(1, 1, &over), 1, 1, &index) {
        Err(InputError::InvalidInput(m)) => assert_eq!(m, "matrix value sum out of range"),
        other => panic!("unexpected: {:?}", other),
    }
}

#[test]
fn test_assemble_refuses_entries_outside_the_matrix() {
    let index = plain_index(2);
    let entries = [MtxEntry { row: 0, col: 2, value: 1 }];
    match assemble_csc(&entries, 2, 2, &index) {
        Err(InputError::InvalidInput(m)) => assert_eq!(m, "matrix entry out of bounds"),
        other => panic!("unexpected: {:?}", other),
    }
    let empty = assemble_csc(&[], 2, 3, &index).unwrap();
    assert_eq!(empty.cols, vec![vec![], vec![], vec![]]);
}

#[test]
fn test_find_matrix_path() {
    assert_eq!(find_matrix_path("dir", &[true, true]).unwrap(), "dir/matrix.mtx");
    assert_eq!(find_matrix_path("dir/", &[false, true]).unwrap(), "dir/matrix.mtx.gz");
    match find_matrix_path("dir", &[false, false]) {
        Err(InputError::MissingInput(m)) => assert_eq!(m, "missing matrix.mtx or matrix.mtx.gz"),
        other => panic!("unexpected: {:?}", other),
    }
}

#[test]
fn test_a_line_that_counts_for_nothing_can_be_left_out() {
    let index = GeneIndex {
        gene_id_by_feature: vec![Some(0), None, Some(1)],
        symbols_by_gene_id: vec!["A".to_string(), "B".to_string()],
    };
    let head = "%%MatrixMarket matrix coordinate integer general\n3 2 5\n";
    let with = format!("{head}1 1 4\n2 1 9\n3 2 1\n2 2 7\n3 1 0\n1 2 2\n");
    let without = format!("{head}1 1 4\n3 2 1\n1 2 2\n");
    let a = read_mtx_csc(&with, 3, 2, &index).unwrap();
    let b = read_mtx_csc(&without, 3, 2, &index).unwrap();
    assert_eq!(a.cols, b.cols);
    assert_eq!(a.cols, vec![vec![(0, 4)], vec![(0, 2), (1, 1)]]);
    // Every gene of a column is a gene of the index.
    for col in &a.cols {
        for (gene, _) in col {
            assert!((*gene as usize) < index.symbols_by_gene_id.len());
        }
    }
}

#[test]
fn test_counts_that_cancel_keep_their_pair() {
    let index = plain_index(1);
    let csc = read_mtx_csc(&mtx_text(1, 1, &[(1, 1, 5), (1, 1, -5)]), 1, 1, &index).unwrap();
    assert_eq!(csc.cols, vec![vec![(0, 0)]]);
}
