use std::path::PathBuf;

use kira_nuclearqc::cli::{extract_meta, meta_column, parse_args, resolve_output_dir};
use kira_nuclearqc::input::load_input;
use kira_nuclearqc::input::meta::CellMeta;
use kira_nuclearqc::model::thresholds::NuclearScoringMode;
use kira_nuclearqc::pipeline::stage7_report::{ReportMode, RunMode};

fn args(list: &[&str]) -> Vec<String> {
    list.iter().map(|s| s.to_string()).collect()
}

#[test]
fn main_test_parse_args_default_run_mode_standalone() {
    let args = vec![
        "run".to_string(),
        "--input".to_string(),
        "data".to_string(),
        "--out".to_string(),
        "out".to_string(),
    ];
    let parsed = parse_args(&args).unwrap();
    assert_eq!(parsed.run_mode, RunMode::Standalone);
}

#[test]
fn main_test_parse_args_pipeline_run_mode() {
    let args = vec![
        "run".to_string(),
        "--input".to_string(),
        "data".to_string(),
        "--out".to_string(),
        "out".to_string(),
        "--run-mode".to_string(),
        "pipeline".to_string(),
    ];
    let parsed = parse_args(&args).unwrap();
    assert_eq!(parsed.run_mode, RunMode::Pipeline);
}

#[test]
fn main_test_resolve_output_dir_pipeline() {
    let out = resolve_output_dir("/tmp/out", RunMode::Pipeline);
    assert_eq!(PathBuf::from(out), PathBuf::from("/tmp/out/kira-nuclearqc"));
}

#[test]
fn main_test_resolve_output_dir_standalone() {
    let out = resolve_output_dir("/tmp/out", RunMode::Standalone);
    assert_eq!(PathBuf::from(out), PathBuf::from("/tmp/out"));
}

#[test]
fn main_inline_test_parse_args_default_run_mode_standalone() {
    let args = vec![
        "run".to_string(),
        "--input".to_string(),
        "data".to_string(),
        "--out".to_string(),
        "out".to_string(),
    ];
    let parsed = parse_args(&args).unwrap();
    assert_eq!(parsed.run_mode, RunMode::Standalone);
}

#[test]
fn main_inline_test_parse_args_pipeline_run_mode() {
    let args = vec![
        "run".to_string(),
        "--input".to_string(),
        "data".to_string(),
        "--out".to_string(),
        "out".to_string(),
        "--run-mode".to_string(),
        "pipeline".to_string(),
    ];
    let parsed = parse_args(&args).unwrap();
    assert_eq!(parsed.run_mode, RunMode::Pipeline);
}

#[test]
fn main_inline_test_resolve_output_dir_pipeline() {
    let out = resolve_output_dir("/tmp/out", RunMode::Pipeline);
    assert_eq!(PathBuf::from(out), PathBuf::from("/tmp/out/kira-nuclearqc"));
}

#[test]
fn main_inline_test_resolve_output_dir_standalone() {
    let out = resolve_output_dir("/tmp/out", RunMode::Standalone);
    assert_eq!(PathBuf::from(out), PathBuf::from("/tmp/out"));
}

#[test]
fn test_resolve_output_dir_exact_text() {
    assert_eq!(resolve_output_dir("/tmp/out", RunMode::Pipeline), "/tmp/out/kira-nuclearqc");
    assert_eq!(resolve_output_dir("/tmp/out/", RunMode::Pipeline), "/tmp/out/kira-nuclearqc");
    assert_eq!(resolve_output_dir("", RunMode::Pipeline), "kira-nuclearqc");
    assert_eq!(resolve_output_dir("out", RunMode::Standalone), "out");
}

#[test]
fn test_parse_args_all_options() {
    let parsed = parse_args(&args(&[
        "run",
        "--strict-nuclear",
        "--input",
        "in",
        "--mode",
        "sample",
        "--meta",
        "meta.tsv",
        "--normalize",
        "--out",
        "o1",
        "--cache-normalized",
        "--run-mode",
        "standalone",
        "--out",
        "o2",
    ]))
    .unwrap();
    assert_eq!(parsed.input_dir, "in");
    assert_eq!(parsed.out_dir, "o2");
    assert_eq!(parsed.report_mode, ReportMode::Sample);
    assert_eq!(parsed.meta_path.as_deref(), Some("meta.tsv"));
    assert!(parsed.normalize);
    assert!(parsed.cache_normalized);
    assert_eq!(parsed.scoring_mode, NuclearScoringMode::StrictBulk);
    assert_eq!(parsed.run_mode, RunMode::Standalone);
}

#[test]
fn test_parse_args_defaults() {
    let parsed = parse_args(&args(&["run", "--input", "--out", "--out", "x"])).unwrap();
    // An option takes the argument after it, whatever it looks like.
    assert_eq!(parsed.input_dir, "--out");
    assert_eq!(parsed.out_dir, "x");
    assert_eq!(parsed.report_mode, ReportMode::Cell);
    assert_eq!(parsed.meta_path, None);
    assert!(!parsed.normalize);
    assert!(!parsed.cache_normalized);
    assert_eq!(parsed.scoring_mode, NuclearScoringMode::ImmuneAware);
}

#[test]
fn test_parse_args_complaints() {
    let complaint = |list: &[&str]| parse_args(&args(list)).unwrap_err();
    assert_eq!(complaint(&[]), "missing command");
    assert_eq!(complaint(&["walk"]), "unsupported command");
    assert_eq!(complaint(&["run"]), "missing --input");
    assert_eq!(complaint(&["run", "--input", "a"]), "missing --out");
    assert_eq!(complaint(&["run", "--out", "a"]), "missing --input");
    assert_eq!(complaint(&["run", "--input"]), "missing value for --input");
    assert_eq!(complaint(&["run", "--out"]), "missing value for --out");
    assert_eq!(complaint(&["run", "--mode"]), "missing value for --mode");
    assert_eq!(complaint(&["run", "--meta"]), "missing value for --meta");
    assert_eq!(complaint(&["run", "--run-mode"]), "missing value for --run-mode");
    assert_eq!(complaint(&["run", "--mode", "row"]), "invalid --mode (use cell|sample)");
    assert_eq!(
        complaint(&["run", "--run-mode", "fast"]),
        "invalid --run-mode (use standalone|pipeline)"
    );
    assert_eq!(complaint(&["run", "--input", "a", "-x", "--out"]), "unknown argument: -x");
}

#[test]
fn test_meta_columns_by_name() {
    let meta = CellMeta {
        columns: vec!["Sample".to_string(), "x".to_string(), "SAMPLE".to_string()],
        rows: vec![
            vec!["a".to_string(), "b".to_string(), "c".to_string()],
            vec!["d".to_string()],
        ],
    };
    // Of two columns of one name the last counts; a short row gives the empty text.
    assert_eq!(meta_column(&meta, "sample"), Some(vec!["c".to_string(), "".to_string()]));
    assert_eq!(meta_column(&meta, "x"), Some(vec!["b".to_string(), "".to_string()]));
    assert_eq!(meta_column(&meta, "condition"), None);
}

#[test]
fn test_extract_meta_of_a_bundle() {
    let load = |meta: Option<&str>| {
        load_input(
            "m".to_string(),
            "f".to_string(),
            "b".to_string(),
            "G1\tA\n",
            "C1\nC2\n",
            meta,
        )
        .unwrap()
    };
    let bundle = load(Some("barcode\tCondition\tspecies\nC1\tctl\thuman\nC2\ttrt\tmouse\n"));
    let (sample, condition, species) = extract_meta(&bundle);
    assert_eq!(sample, None);
    assert_eq!(condition, Some(vec!["ctl".to_string(), "trt".to_string()]));
    assert_eq!(species, Some(vec!["human".to_string(), "mouse".to_string()]));
    let (sample, condition, species) = extract_meta(&load(None));
    assert_eq!((sample, condition, species), (None, None, None));
}
