use kira_nuclearqc::input::{GeneIndex, Species};
use kira_nuclearqc::panels::defs::{builtin_panels, PanelGroup};
use kira_nuclearqc::panels::{gene_to_panels, Panel, PanelSet};
use kira_nuclearqc::panels::loader::{load_panels, map_panel};
use kira_nuclearqc::panels::mapping::{
    build_symbol_map, lookup_symbol, map_symbol, mouse_mapping, normalize_symbol,
};

fn fake_gene_index(symbols: &[&str]) -> GeneIndex {
    let symbols_by_gene_id: Vec<String> = symbols.iter().map(|s| s.to_string()).collect();
    let gene_id_by_feature = (0..symbols.len()).map(Some).collect();
    GeneIndex { gene_id_by_feature, symbols_by_gene_id }
}

#[test]
fn test_panel_defs_loaded() {
    let defs = builtin_panels();
    assert!(!defs.is_empty());
    assert_eq!(defs[0].id, "housekeeping_core");
    assert_eq!(defs[0].group, PanelGroup::Housekeeping);
    assert!(defs[0].genes.iter().all(|g| g.chars().all(|c| !c.is_lowercase())));
}

#[test]
fn test_species_mapping_human_vs_mouse() {
    let gene_index = fake_gene_index(&["ACTB", "H2-K1", "H2-D1", "H2-AB1"]);
    let map = build_symbol_map(&gene_index);

    assert_eq!(map_symbol(Species::Human, "ACTB", &map), Some(0));
    assert_eq!(map_symbol(Species::Human, "HLA-A", &map), None);

    assert_eq!(map_symbol(Species::Mouse, "HLA-A", &map), Some(1));
    assert_eq!(map_symbol(Species::Mouse, "HLA-B", &map), Some(2));
    assert_eq!(map_symbol(Species::Mouse, "HLA-DRB1", &map), Some(3));
}

#[test]
fn test_missing_genes_reported() {
    let gene_index = fake_gene_index(&["ACTB"]);
    let (panels, audits) = load_panels(Species::Human, &gene_index);
    assert!(!panels.panels.is_empty());

    let hk = audits.iter().find(|a| a.panel_id == "housekeeping_core").unwrap();
    assert!(hk.panel_size_defined > hk.panel_size_mappable);
    assert!(hk.missing_genes.len() >= 1);
}

#[test]
fn test_panel_set_order_stable() {
    let gene_index = fake_gene_index(&["ACTB", "GAPDH", "RPLP0", "B2M"]);
    let (panels_a, _) = load_panels(Species::Human, &gene_index);
    let (panels_b, _) = load_panels(Species::Human, &gene_index);

    assert_eq!(panels_a.panels.len(), panels_b.panels.len());
    for (a, b) in panels_a.panels.iter().zip(panels_b.panels.iter()) {
        assert_eq!(a.id, b.id);
    }
}

#[test]
fn test_builtin_panel_table() {
    let defs = builtin_panels();
    let ids: Vec<&str> = defs.iter().map(|d| d.id).collect();
    assert_eq!(
        ids,
        vec![
            "housekeeping_core",
            "tf_basic",
            "chromatin_core",
            "stress_response",
            "developmental_core",
            "proliferation_core",
            "immune_activation",
            "differentiation_flux",
            "clonal_engagement",
            "replication_stress_genes",
            "dna_repair_hr",
            "dna_repair_nhej",
            "chromatin_compaction",
            "chromatin_open_state",
            "replication_fork_stability",
            "checkpoint_activation",
        ]
    );
    assert_eq!(defs[6].name, "Immune Activation");
    assert_eq!(defs[6].group, PanelGroup::Program);
    assert_eq!(defs[6].genes, vec!["CD69", "CD83", "HLA-DRA", "HLA-DRB1", "CD74"]);
    assert_eq!(defs[15].genes, vec!["ATM", "ATR", "CHEK1", "CHEK2", "TP53", "CDKN1A"]);
    let sizes: Vec<usize> = defs.iter().map(|d| d.genes.len()).collect();
    assert_eq!(sizes, vec![4, 4, 4, 4, 4, 4, 5, 3, 5, 10, 9, 7, 7, 7, 8, 6]);
}

#[test]
fn test_lookup_and_symbol_form() {
    let map = build_symbol_map(&fake_gene_index(&["A", "B", "A"]));
    // Of two places of one symbol the last counts.
    assert_eq!(lookup_symbol(&map, "A"), Some(2));
    assert_eq!(lookup_symbol(&map, "B"), Some(1));
    assert_eq!(lookup_symbol(&map, "a"), None);
    assert_eq!(normalize_symbol("  hla-Dra\n"), "HLA-DRA");
    assert_eq!(map_symbol(Species::Unknown, " b ", &map), Some(1));
}

#[test]
fn test_mouse_table() {
    assert_eq!(mouse_mapping("TP53"), Some("Trp53"));
    assert_eq!(mouse_mapping("HLA-DRB1"), Some("H2-AB1"));
    assert_eq!(mouse_mapping("ATR"), Some("Atr"));
    assert_eq!(mouse_mapping("atr"), None);
    assert_eq!(mouse_mapping("HLA-E"), None);
    // The own symbol goes before the mouse symbol.
    let map = build_symbol_map(&fake_gene_index(&["H2-K1", "HLA-A"]));
    assert_eq!(map_symbol(Species::Mouse, "hla-a", &map), Some(1));
    // A mouse symbol in mixed case is not a symbol of an upper-case index.
    let map = build_symbol_map(&fake_gene_index(&["TRP53", "Trp53"]));
    assert_eq!(map_symbol(Species::Mouse, "TP53", &map), Some(1));
    assert_eq!(map_symbol(Species::Human, "TP53", &map), None);
}

#[test]
fn test_map_panel_splits_mapped_and_missing() {
    let defs = builtin_panels();
    let map = build_symbol_map(&fake_gene_index(&["GAPDH", "X", "B2M"]));
    let (panel, audit) = map_panel(&defs[0], Species::Human, &map);
    assert_eq!(panel.id, "housekeeping_core");
    assert_eq!(panel.name, "Housekeeping Core");
    assert_eq!(panel.group, PanelGroup::Housekeeping);
    assert_eq!(panel.genes, vec![0, 2]);
    assert_eq!(panel.missing, vec!["ACTB", "RPLP0"]);
    assert_eq!(audit.panel_id, "housekeeping_core");
    assert_eq!(audit.panel_size_defined, 4);
    assert_eq!(audit.panel_size_mappable, 2);
    assert_eq!(audit.missing_genes, vec!["ACTB", "RPLP0"]);
}

#[test]
fn test_load_panels_keeps_the_order_of_the_definitions() {
    let (set, audits) = load_panels(Species::Mouse, &fake_gene_index(&["H2-AA", "MYC"]));
    let defs = builtin_panels();
    assert_eq!(set.panels.len(), defs.len());
    assert_eq!(audits.len(), defs.len());
    for (i, def) in defs.iter().enumerate() {
        assert_eq!(set.panels[i].id, def.id);
        assert_eq!(audits[i].panel_id, def.id);
        assert_eq!(audits[i].panel_size_defined, def.genes.len());
        assert_eq!(audits[i].panel_size_mappable, set.panels[i].genes.len());
        assert_eq!(set.panels[i].genes.len() + set.panels[i].missing.len(), def.genes.len());
    }
    // HLA-DRA stands for H2-AA in mouse.
    assert_eq!(set.panels[6].genes, vec![0]);
    assert_eq!(set.panels[1].genes, vec![1]);
}

#[test]
fn test_gene_to_panels() {
    let panel = |genes: &[u32]| Panel {
        id: "p",
        name: "P",
        group: PanelGroup::Program,
        genes: genes.to_vec(),
        missing: vec![],
    };
    let set = PanelSet { panels: vec![panel(&[2, 0, 2]), panel(&[]), panel(&[9, 2, 1])] };
    assert_eq!(
        gene_to_panels(&set, 4),
        vec![vec![0], vec![2], vec![0, 0, 2], vec![]]
    );
    assert_eq!(gene_to_panels(&set, 0), Vec::<Vec<usize>>::new());
    assert_eq!(gene_to_panels(&PanelSet { panels: vec![] }, 2), vec![vec![], vec![]]);
}
