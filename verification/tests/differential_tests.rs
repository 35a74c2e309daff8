use std::collections::BTreeMap;

use kira_nuclearqc::input::cache::hash_bytes;
use kira_nuclearqc::input::features::{normalize_symbol, Feature};
use kira_nuclearqc::input::mtx::read_mtx_csc;
use kira_nuclearqc::input::organelle_bin::crc64_ecma;
use kira_nuclearqc::input::{build_gene_index, detect_species, GeneIndex, Species};
use kira_nuclearqc::report::json::escape_json;

/// A small generator of numbers that gives the same numbers on every run.
struct Numbers(u64);

impl Numbers {
    fn next(&mut self) -> u64 {
        self.0 = self.0.wrapping_mul(6364136223846793005).wrapping_add(1442695040888963407);
        self.0 >> 33
    }

    fn below(&mut self, n: u64) -> u64 {
        self.next() % n
    }
}

fn plain_normalize(raw: &str) -> String {
    let trimmed = raw.trim();
    if trimmed.is_empty() {
        return String::new();
    }
    let upper = trimmed.to_ascii_uppercase();
    if let Some((left, right)) = upper.rsplit_once('.') {
        if left.starts_with("ENS") && right.chars().all(|c| c.is_ascii_digit()) {
            return left.to_string();
        }
    }
    upper
}

#[test]
fn test_symbol_normalization_on_many_texts() {
    let pieces = ["ens", "ENSG", "g", "0", "12", ".", " ", "\t", "a", "Z", "-", "\u{e9}", "\u{a0}", "ENS"];
    let mut numbers = Numbers(7);
    for _ in 0..3000 {
        let mut text = String::new();
        for _ in 0..numbers.below(7) {
            text.push_str(pieces[numbers.below(pieces.len() as u64) as usize]);
        }
        assert_eq!(normalize_symbol(&text), plain_normalize(&text), "{:?}", text);
    }
}

#[test]
fn test_text_matrix_on_many_matrices() {
    let mut numbers = Numbers(11);
    for round in 0..200 {
        let rows = 1 + numbers.below(6) as usize;
        let cols = 1 + numbers.below(5) as usize;
        let n_genes = 1 + numbers.below(4) as usize;
        let index = GeneIndex {
            gene_id_by_feature: (0..rows)
                .map(|_| {
                    let g = numbers.below(n_genes as u64 + 1) as usize;
                    if g == n_genes { None } else { Some(g) }
                })
                .collect(),
            symbols_by_gene_id: (0..n_genes).map(|g| format!("G{g}")).collect(),
        };
        let mut text = String::from("%%MatrixMarket matrix coordinate integer general\n%\n");
        let n = numbers.below(30) as usize;
        text.push_str(&format!("{rows} {cols} {n}\n"));
        let mut expected: Vec<BTreeMap<u32, i64>> = vec![BTreeMap::new(); cols];
        for _ in 0..n {
            let r = 1 + numbers.below(rows as u64) as usize;
            let c = 1 + numbers.below(cols as u64) as usize;
            let v = numbers.below(7) as i64 - 3;
            text.push_str(&format!("{r}\t{c}  {v}\n"));
            if numbers.below(5) == 0 {
                text.push_str("% between\n\n");
            }
            if v == 0 {
                continue;
            }
            if let Some(gene) = index.gene_id_by_feature[r - 1] {
                *expected[c - 1].entry(gene as u32).or_insert(0) += v;
            }
        }
        let expected: Vec<Vec<(u32, i64)>> =
            expected.into_iter().map(|m| m.into_iter().collect()).collect();
        let csc = read_mtx_csc(&text, rows, cols, &index).unwrap();
        assert_eq!(csc.cols, expected, "round {round}: {text}");
    }
}

#[test]
fn test_gene_index_on_many_feature_lists() {
    let symbols = ["A", "B", "C", "", "HLA-A", "HLA-B", "HLA-C", "H2-K1", "H2-D1", "H2-AA"];
    let mut numbers = Numbers(3);
    for _ in 0..300 {
        let features: Vec<Feature> = (0..numbers.below(25))
            .map(|i| {
                let s = symbols[numbers.below(symbols.len() as u64) as usize];
                Feature {
                    id: i.to_string(),
                    symbol_raw: s.to_string(),
                    symbol_norm: s.to_string(),
                    feature_type: None,
                }
            })
            .collect();
        let index = build_gene_index(&features);
        let mut seen: Vec<String> = Vec::new();
        let mut ids = Vec::new();
        for f in &features {
            if f.symbol_norm.is_empty() {
                ids.push(None);
            } else if let Some(at) = seen.iter().position(|s| *s == f.symbol_norm) {
                ids.push(Some(at));
            } else {
                seen.push(f.symbol_norm.clone());
                ids.push(Some(seen.len() - 1));
            }
        }
        assert_eq!(index.symbols_by_gene_id, seen);
        assert_eq!(index.gene_id_by_feature, ids);
        let human = features.iter().filter(|f| f.symbol_norm.starts_with("HLA-")).count();
        let mouse = features.iter().filter(|f| f.symbol_norm.starts_with("H2-")).count();
        let expected = if human >= 3 && human >= mouse + 2 {
            Species::Human
        } else if mouse >= 3 && mouse >= human + 2 {
            Species::Mouse
        } else {
            Species::Unknown
        };
        assert_eq!(detect_species(&features), expected);
    }
}

fn plain_crc64(bytes: &[u8]) -> u64 {
    let mut crc = 0u64;
    for &b in bytes {
        crc ^= (b as u64) << 56;
        for _ in 0..8 {
            crc = if crc & 0x8000_0000_0000_0000 != 0 {
                (crc << 1) ^ 0x42F0_E1EB_A9EA_3693
            } else {
                crc << 1
            };
        }
    }
    crc
}

fn plain_fnv(bytes: &[u8]) -> u64 {
    let mut h = 0xcbf29ce484222325u64;
    for &b in bytes {
        h ^= b as u64;
        h = h.wrapping_mul(0x100000001b3);
    }
    h
}

#[test]
fn test_checksum_and_hash_on_many_byte_strings() {
    let mut numbers = Numbers(5);
    for _ in 0..300 {
        let bytes: Vec<u8> = (0..numbers.below(300)).map(|_| numbers.next() as u8).collect();
        assert_eq!(crc64_ecma(&bytes), plain_crc64(&bytes));
        assert_eq!(hash_bytes(&bytes), plain_fnv(&bytes));
    }
}

#[test]
fn test_json_escaping_on_many_texts() {
    let pieces = ["a", "\"", "\\", "\n", "\r", "\t", "\u{e9}", " ", "\u{0}", "/"];
    let mut numbers = Numbers(9);
    for _ in 0..500 {
        let mut text = String::new();
        for _ in 0..numbers.below(8) {
            text.push_str(pieces[numbers.below(pieces.len() as u64) as usize]);
        }
        let mut expected = String::new();
        for ch in text.chars() {
            match ch {
                '"' => expected.push_str("\\\""),
                '\\' => expected.push_str("\\\\"),
                '\n' => expected.push_str("\\n"),
                '\r' => expected.push_str("\\r"),
                '\t' => expected.push_str("\\t"),
                _ => expected.push(ch),
            }
        }
        assert_eq!(escape_json(&text), expected);
    }
}
