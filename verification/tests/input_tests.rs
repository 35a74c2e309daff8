use kira_nuclearqc::input::barcodes::parse_barcodes;
use kira_nuclearqc::input::features::{normalize_symbol, parse_features, Feature};
use kira_nuclearqc::input::meta::load_meta;
use kira_nuclearqc::input::prefix::detect_prefix;
use kira_nuclearqc::input::{
    build_features_from_symbols, build_gene_index, classify_species, detect_species,
    find_barcodes_path, find_features_path, load_input, load_input_tenx, report_gene_index,
    resolve_shared_bin, shared_bin_name, GeneIndex, InputError, InputSourceKind, Species,
};

fn feature(id: &str, raw: &str, norm: &str) -> Feature {
    Feature {
        id: id.to_string(),
        symbol_raw: raw.to_string(),
        symbol_norm: norm.to_string(),
        feature_type: None,
    }
}

fn features_of(symbols: &[&str]) -> Vec<Feature> {
    symbols.iter().enumerate().map(|(i, s)| feature(&i.to_string(), s, s)).collect()
}

#[test]
fn test_gene_symbol_normalization() {
    assert_eq!(normalize_symbol("  ensG000001.12 "), "ENSG000001");
    assert_eq!(normalize_symbol(" HLA-a "), "HLA-A");
    assert_eq!(normalize_symbol(""), "");
}

#[test]
fn test_symbol_normalization_listed_cases() {
    assert_eq!(normalize_symbol("ENSG000001.12"), "ENSG000001");
    assert_eq!(normalize_symbol("Hla-a"), "HLA-A");
    assert_eq!(normalize_symbol("   \t "), "");
}

#[test]
fn test_symbol_normalization_keeps_what_is_no_versioned_accession() {
    // The part before the dot does not begin with ENS.
    assert_eq!(normalize_symbol("abc.12"), "ABC.12");
    // The part after the last dot is not a number.
    assert_eq!(normalize_symbol("ENSG01.1a"), "ENSG01.1A");
    // Only the last dot counts.
    assert_eq!(normalize_symbol("ensg1.2.3"), "ENSG1.2");
    // Nothing after the dot is digits only, too.
    assert_eq!(normalize_symbol("ENSG7."), "ENSG7");
    // Whitespace beyond ASCII is trimmed as well.
    assert_eq!(normalize_symbol("\u{a0}actb\u{3000}"), "ACTB");
}

#[test]
fn test_duplicate_symbol_handling() {
    let features = vec![feature("1", "GeneA", "GENEA"), feature("2", "GeneA", "GENEA")];

    let index = build_gene_index(&features);
    assert_eq!(index.symbols_by_gene_id, vec!["GENEA".to_string()]);
    assert_eq!(index.gene_id_by_feature, vec![Some(0), Some(0)]);
}

#[test]
fn test_gene_index_first_seen_wins_and_empty_is_unmapped() {
    let features = features_of(&["B", "", "A", "B", "C", "A"]);
    let index = build_gene_index(&features);
    assert_eq!(index.symbols_by_gene_id, vec!["B", "A", "C"]);
    assert_eq!(
        index.gene_id_by_feature,
        vec![Some(0), None, Some(1), Some(0), Some(2), Some(1)]
    );
    for id in index.gene_id_by_feature.iter().flatten() {
        assert!(*id < index.symbols_by_gene_id.len());
    }
}

#[test]
fn test_gene_index_of_no_features() {
    let index = build_gene_index(&[]);
    assert!(index.symbols_by_gene_id.is_empty());
    assert!(index.gene_id_by_feature.is_empty());
}

#[test]
fn test_species_detection() {
    let human_features = vec![
        feature("1", "HLA-A", "HLA-A"),
        feature("2", "HLA-B", "HLA-B"),
        feature("3", "HLA-C", "HLA-C"),
        feature("4", "HLA-DRA", "HLA-DRA"),
        feature("5", "HLA-DRB1", "HLA-DRB1"),
    ];

    let mouse_features = vec![
        feature("1", "H2-K1", "H2-K1"),
        feature("2", "H2-D1", "H2-D1"),
        feature("3", "H2-AB1", "H2-AB1"),
        feature("4", "H2-AA", "H2-AA"),
        feature("5", "H2-EB1", "H2-EB1"),
    ];

    let unknown_features = vec![feature("1", "GENE1", "GENE1"), feature("2", "GENE2", "GENE2")];

    assert_eq!(detect_species(&human_features), Species::Human);
    assert_eq!(detect_species(&mouse_features), Species::Mouse);
    assert_eq!(detect_species(&unknown_features), Species::Unknown);
}

#[test]
fn test_species_thresholds() {
    // Three hits and a lead of two are enough, and both are needed.
    assert_eq!(classify_species(3, 1), Species::Human);
    assert_eq!(classify_species(3, 0), Species::Human);
    assert_eq!(classify_species(2, 0), Species::Unknown);
    assert_eq!(classify_species(3, 2), Species::Unknown);
    assert_eq!(classify_species(4, 3), Species::Unknown);
    assert_eq!(classify_species(1, 3), Species::Mouse);
    assert_eq!(classify_species(5, 7), Species::Mouse);
    assert_eq!(classify_species(0, 2), Species::Unknown);
    assert_eq!(classify_species(6, 6), Species::Unknown);
    assert_eq!(classify_species(usize::MAX, usize::MAX - 1), Species::Unknown);
    assert_eq!(classify_species(usize::MAX, usize::MAX - 2), Species::Human);
}

#[test]
fn test_species_detection_counts_rows_not_symbols() {
    let mixed = features_of(&["HLA-A", "HLA-A", "HLA-A", "H2-K1"]);
    assert_eq!(detect_species(&mixed), Species::Human);
    let close = features_of(&["HLA-A", "HLA-B", "HLA-C", "H2-K1", "H2-D1"]);
    assert_eq!(detect_species(&close), Species::Unknown);
}

#[test]
fn test_feature_parsing_v2_v3() {
    let v2 = parse_features("GENE1\tActb\nGENE2\tGapdh\n").unwrap();
    assert_eq!(v2.len(), 2);
    assert_eq!(v2[0].feature_type, None);
    assert_eq!(v2[0].id, "GENE1");
    assert_eq!(v2[0].symbol_raw, "Actb");
    assert_eq!(v2[0].symbol_norm, "ACTB");

    let v3 = parse_features(
        "ENSG0001\tHLA-A\tGene Expression\nENSG0002\tHLA-B\tGene Expression\n",
    )
    .unwrap();
    assert_eq!(v3.len(), 2);
    assert_eq!(v3[0].feature_type.as_deref(), Some("Gene Expression"));
}

#[test]
fn test_feature_parsing_errors() {
    match parse_features("") {
        Err(InputError::Parse(m)) => assert_eq!(m, "features file is empty"),
        other => panic!("unexpected: {:?}", other),
    }
    match parse_features("\n  \n") {
        Err(InputError::Parse(m)) => assert_eq!(m, "features file is empty"),
        other => panic!("unexpected: {:?}", other),
    }
    match parse_features("G1\tA\n\nonly-one-column\nG3\tC\n") {
        Err(InputError::Parse(m)) => assert_eq!(m, "features line 3 has <2 columns"),
        other => panic!("unexpected: {:?}", other),
    }
}

#[test]
fn test_feature_parsing_trims_and_skips_blank_lines() {
    let features = parse_features(" G1 \t actb \r\n\r\nG2\tENSG5.7\textra\tmore").unwrap();
    assert_eq!(features.len(), 2);
    assert_eq!(features[0].id, "G1");
    assert_eq!(features[0].symbol_raw, "actb");
    assert_eq!(features[0].symbol_norm, "ACTB");
    assert_eq!(features[1].symbol_norm, "ENSG5");
    assert_eq!(features[1].feature_type.as_deref(), Some("extra"));
}

#[test]
fn test_barcodes_parse_order() {
    let barcodes = parse_barcodes("AA-1\nBB-1\nCC-1\n").unwrap();
    assert_eq!(barcodes, vec!["AA-1", "BB-1", "CC-1"]);
}

#[test]
fn test_barcodes_blank_lines_and_empty_file() {
    let barcodes = parse_barcodes("  AA-1 \r\n\n\t\nBB-1").unwrap();
    assert_eq!(barcodes, vec!["AA-1", "BB-1"]);
    match parse_barcodes("\n\n") {
        Err(InputError::Parse(m)) => assert_eq!(m, "barcodes file is empty"),
        other => panic!("unexpected: {:?}", other),
    }
}

#[test]
fn test_metadata_join() {
    let barcodes = vec!["AA-1".to_string(), "BB-1".to_string(), "CC-1".to_string()];
    let meta =
        load_meta("barcode\tsample\tcondition\nAA-1\tS1\tC1\nCC-1\tS2\tC2\n", &barcodes).unwrap();

    assert_eq!(meta.columns, vec!["sample".to_string(), "condition".to_string()]);
    assert_eq!(meta.rows.len(), 3);
    assert_eq!(meta.rows[0], vec!["S1".to_string(), "C1".to_string()]);
    assert_eq!(meta.rows[1], vec!["".to_string(), "".to_string()]);
    assert_eq!(meta.rows[2], vec!["S2".to_string(), "C2".to_string()]);
}

#[test]
fn test_metadata_barcode_column_elsewhere_and_first_row_wins() {
    let barcodes = vec!["X".to_string(), "Y".to_string()];
    let text = "sample\tBarcodes\tnote\nS1\tX\tfirst\nS2\tX\tsecond\nS3\n\t\t\nS4\tY\n";
    let meta = load_meta(text, &barcodes).unwrap();
    assert_eq!(meta.columns, vec!["sample", "note"]);
    assert_eq!(meta.rows[0], vec!["S1", "first"]);
    // A short line gives empty values for the fields it lacks.
    assert_eq!(meta.rows[1], vec!["S4", ""]);
}

#[test]
fn test_metadata_without_barcode_name_uses_first_column() {
    let barcodes = vec!["b".to_string()];
    let meta = load_meta("id\tsample\na\tS1\nb\tS2\n", &barcodes).unwrap();
    assert_eq!(meta.columns, vec!["sample"]);
    assert_eq!(meta.rows, vec![vec!["S2".to_string()]]);
}

#[test]
fn test_metadata_empty_file() {
    match load_meta("", &[]) {
        Err(InputError::Parse(m)) => assert_eq!(m, "meta file is empty"),
        other => panic!("unexpected: {:?}", other),
    }
}

#[test]
fn test_detect_prefix_present() {
    let names = vec!["GSM123_matrix.mtx".to_string()];
    let prefix = detect_prefix(&names);
    assert_eq!(prefix.as_deref(), Some("GSM123"));
}

#[test]
fn test_detect_prefix_absent() {
    let names =
        vec!["matrix.mtx".to_string(), "features.tsv".to_string(), "barcodes.tsv".to_string()];
    let prefix = detect_prefix(&names);
    assert_eq!(prefix, None);
}

#[test]
fn test_detect_prefix_takes_the_first_in_order() {
    let names = vec![
        "zeta_barcodes.tsv.gz".to_string(),
        "_matrix.mtx".to_string(),
        "alpha_features.tsv".to_string(),
        "alpha2_matrix.mtx.gz".to_string(),
        "notes.txt".to_string(),
    ];
    assert_eq!(detect_prefix(&names).as_deref(), Some("alpha"));
    // An upper-case letter comes before every lower-case one.
    let names = vec!["b_matrix.mtx".to_string(), "B_matrix.mtx".to_string()];
    assert_eq!(detect_prefix(&names).as_deref(), Some("B"));
}

#[test]
fn test_resolve_shared_bin_filename_prefixed() {
    let names = vec!["GSM1_matrix.mtx".to_string()];
    let res = resolve_shared_bin("/data", detect_prefix(&names), false);
    assert_eq!(res.name, "GSM1.kira-organelle.bin");
    assert_eq!(res.path, "/data/GSM1.kira-organelle.bin");
    assert_eq!(res.prefix.as_deref(), Some("GSM1"));
    assert!(!res.exists);
}

#[test]
fn test_resolve_shared_bin_filename_default() {
    let names = vec!["matrix.mtx".to_string()];
    let res = resolve_shared_bin("/data/", detect_prefix(&names), true);
    assert_eq!(res.name, "kira-organelle.bin");
    assert_eq!(res.path, "/data/kira-organelle.bin");
    assert!(res.exists);
    assert_eq!(shared_bin_name(None), "kira-organelle.bin");
    assert_eq!(shared_bin_name(Some("p")), "p.kira-organelle.bin");
}

#[test]
fn test_find_input_paths() {
    assert_eq!(
        find_features_path("in", &[false, false, true, true]).unwrap(),
        "in/genes.tsv"
    );
    assert_eq!(find_features_path("in", &[true]).unwrap(), "in/features.tsv");
    match find_features_path("in", &[false, false, false, false]) {
        Err(InputError::MissingInput(m)) => assert_eq!(m, "missing features.tsv(.gz) or genes.tsv"),
        other => panic!("unexpected: {:?}", other),
    }
    assert_eq!(find_barcodes_path("", &[false, true]).unwrap(), "barcodes.tsv.gz");
    match find_barcodes_path("in", &[]) {
        Err(InputError::MissingInput(m)) => {
            assert_eq!(m, "missing barcodes.tsv or barcodes.tsv.gz")
        }
        other => panic!("unexpected: {:?}", other),
    }
}

#[test]
fn test_error_text() {
    assert_eq!(InputError::Io("gone".to_string()).to_string(), "IO error: gone");
    assert_eq!(InputError::MissingInput("m".to_string()).to_string(), "missing input: m");
    assert_eq!(InputError::InvalidInput("i".to_string()).to_string(), "invalid input: i");
    assert_eq!(InputError::Parse("p".to_string()).to_string(), "parse error: p");
}

#[test]
fn test_features_from_symbols() {
    let symbols = vec!["actb".to_string(), " ENSG1.2 ".to_string()];
    let features = build_features_from_symbols(&symbols);
    assert_eq!(features.len(), 2);
    assert_eq!(features[0].id, "0");
    assert_eq!(features[1].id, "1");
    assert_eq!(features[1].symbol_raw, " ENSG1.2 ");
    assert_eq!(features[1].symbol_norm, "ENSG1");
    assert_eq!(features[0].feature_type, None);
}

#[test]
fn test_load_input_builds_the_bundle() {
    let bundle = load_input(
        "d/matrix.mtx".to_string(),
        "d/features.tsv".to_string(),
        "d/barcodes.tsv".to_string(),
        "G1\tHLA-A\nG2\tHLA-B\nG3\tHLA-C\nG4\thla-a\nG5\t \tGene Expression\n",
        "C1\nC2\n",
        Some("barcode\tsample\nC2\tS2\n"),
    )
    .unwrap();
    assert_eq!(bundle.n_cells, 2);
    assert_eq!(bundle.n_features_raw, 5);
    assert_eq!(bundle.n_genes_indexed, 3);
    assert_eq!(bundle.species, Species::Human);
    assert_eq!(bundle.gene_index.gene_id_by_feature, vec![Some(0), Some(1), Some(2), Some(0), None]);
    assert_eq!(bundle.barcodes, vec!["C1", "C2"]);
    assert_eq!(bundle.source, InputSourceKind::TenX);
    assert!(bundle.organelle.is_none());
    assert!(bundle.shared_bin_path.is_none());
    assert_eq!(bundle.mtx_path, "d/matrix.mtx");
    let meta = bundle.meta.unwrap();
    assert_eq!(meta.rows, vec![vec!["".to_string()], vec!["S2".to_string()]]);
}

#[test]
fn test_load_input_reports_the_first_error() {
    let r = load_input_tenx(
        "m".to_string(),
        "f".to_string(),
        "b".to_string(),
        "G1\n",
        "",
        None,
    );
    match r {
        Err(InputError::Parse(m)) => assert_eq!(m, "features line 1 has <2 columns"),
        other => panic!("unexpected: {:?}", other.map(|b| b.n_cells)),
    }
    let r = load_input_tenx("m".to_string(), "f".to_string(), "b".to_string(), "G1\tA\n", "", None);
    match r {
        Err(InputError::Parse(m)) => assert_eq!(m, "barcodes file is empty"),
        other => panic!("unexpected: {:?}", other.map(|b| b.n_cells)),
    }
}

#[test]
fn test_report_lists_aliased_and_unmapped_rows() {
    let features = features_of(&["TP53", "", "ACTB", "TP53", "ACTB", "", "GAPDH", "TP53"]);
    let index = build_gene_index(&features);
    let report = report_gene_index(&index);
    assert_eq!(report.aliased_rows, vec![3, 4, 7]);
    assert_eq!(report.unmapped_rows, vec![1, 5]);
    // Every row is the first of its gene, aliased, or unmapped.
    assert_eq!(
        index.symbols_by_gene_id.len() + report.aliased_rows.len() + report.unmapped_rows.len(),
        features.len()
    );
    // The symbol of an aliased row is found through its identifier.
    let gene = index.gene_id_by_feature[4].unwrap();
    assert_eq!(index.symbols_by_gene_id[gene], "ACTB");
}

#[test]
fn test_report_of_distinct_symbols_is_empty() {
    let index = build_gene_index(&features_of(&["A", "B", "C"]));
    let report = report_gene_index(&index);
    assert!(report.aliased_rows.is_empty());
    assert!(report.unmapped_rows.is_empty());
    let report = report_gene_index(&build_gene_index(&[]));
    assert!(report.aliased_rows.is_empty());
    assert!(report.unmapped_rows.is_empty());
}

#[test]
fn test_report_takes_any_index() {
    // Identifiers beyond the symbol table are identifiers like any other.
    let index = GeneIndex {
        gene_id_by_feature: vec![Some(usize::MAX), None, Some(7), Some(usize::MAX), Some(7), Some(0)],
        symbols_by_gene_id: vec![],
    };
    let report = report_gene_index(&index);
    assert_eq!(report.aliased_rows, vec![3, 4]);
    assert_eq!(report.unmapped_rows, vec![1]);
}
