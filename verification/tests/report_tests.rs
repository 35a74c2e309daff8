use kira_nuclearqc::model::axes::AxisFlags;
use kira_nuclearqc::model::flags::{flag_order, has_flag, ordered_flags, Flag};
use kira_nuclearqc::model::regimes::NuclearRegime;
use kira_nuclearqc::panels::defs::PanelGroup;
use kira_nuclearqc::panels::{Panel, PanelSet};
use kira_nuclearqc::pipeline::stage6_classify::Classification;
use kira_nuclearqc::pipeline::stage7_report::{
    find_panel, flag_name, format_flags, group_panel_indices, majority_regime, panel_group_name,
    program_panel_indices, regime_counts, regime_index, regime_name, regime_names,
};
use kira_nuclearqc::report::json::{
    escape_json, push_kv_bool, push_kv_str, push_str_key, push_str_val,
};

#[test]
fn test_flag_order_holds_every_flag_once() {
    let order = flag_order();
    assert_eq!(order.len(), 16);
    assert_eq!(order[0], Flag::LowExprGenes);
    assert_eq!(order[8], Flag::LowConfidence);
    assert_eq!(order[9], Flag::HighReplicationStress);
    assert_eq!(order[13], Flag::HighTrConflict);
    assert_eq!(order[14], Flag::ModelLimitation);
    assert_eq!(order[15], Flag::BiologicalSilence);
    for (i, a) in order.iter().enumerate() {
        for b in &order[i + 1..] {
            assert_ne!(a, b);
        }
    }
}

#[test]
fn test_flags_are_put_in_reporting_order() {
    let flags = [Flag::BiologicalSilence, Flag::LowTfSignal, Flag::LowExprGenes, Flag::LowTfSignal];
    assert_eq!(
        ordered_flags(&flags),
        vec![Flag::LowExprGenes, Flag::LowTfSignal, Flag::BiologicalSilence]
    );
    assert_eq!(ordered_flags(&[]), vec![]);
    assert!(has_flag(&flags, Flag::LowTfSignal));
    assert!(!has_flag(&flags, Flag::ModelLimitation));
    assert_eq!(format_flags(&flags), "LOW_EXPR_GENES,LOW_TF_SIGNAL,BIOLOGICAL_SILENCE");
    assert_eq!(format_flags(&[Flag::HighTrConflict]), "HIGH_TR_CONFLICT");
    assert_eq!(format_flags(&[]), "");
    assert_eq!(format_flags(&flag_order()).split(',').count(), 16);
}

#[test]
fn test_names() {
    assert_eq!(flag_name(Flag::AmbientRnaRisk), "AMBIENT_RNA_RISK");
    assert_eq!(flag_name(Flag::CellCycleConfounder), "CELL_CYCLE_CONFOUNDER");
    assert_eq!(flag_name(Flag::NhejDominantRepair), "NHEJ_DOMINANT_REPAIR");
    assert_eq!(regime_name(NuclearRegime::TranscriptionallyCollapsed), "TranscriptionallyCollapsed");
    assert_eq!(
        regime_names(),
        vec![
            "PlasticAdaptive",
            "StressAdaptive",
            "CommittedState",
            "RigidDegenerative",
            "TranscriptionallyCollapsed",
            "TransientAdaptive",
            "Unclassified",
        ]
    );
    assert_eq!(panel_group_name(PanelGroup::Tf), "tf");
    assert_eq!(panel_group_name(PanelGroup::Confounder), "confounder");
    assert_eq!(panel_group_name(PanelGroup::Housekeeping), "housekeeping");
}

#[test]
fn test_majority_regime() {
    let names = regime_names();
    assert_eq!(majority_regime(&[0, 0, 0, 0, 0, 0, 0], &names), "Unclassified");
    assert_eq!(majority_regime(&[], &names), "Unclassified");
    assert_eq!(majority_regime(&[1, 5, 2, 5, 0, 0, 4], &names), "StressAdaptive");
    assert_eq!(majority_regime(&[0, 0, 0, 0, 0, 7, 0], &names), "TransientAdaptive");
    assert_eq!(majority_regime(&[0, 0, 3], &names), "CommittedState");
    // A count beyond the names is not looked at.
    assert_eq!(majority_regime(&[1, 9], &names[..1]), "PlasticAdaptive");
}

#[test]
fn test_program_panel_indices() {
    let panel = |group| Panel { id: "p", name: "P", group, genes: vec![], missing: vec![] };
    let set = PanelSet {
        panels: vec![
            panel(PanelGroup::Program),
            panel(PanelGroup::Tf),
            panel(PanelGroup::Program),
            panel(PanelGroup::Confounder),
        ],
    };
    assert_eq!(program_panel_indices(&set), vec![0, 2]);
    assert_eq!(program_panel_indices(&PanelSet { panels: vec![] }), Vec::<usize>::new());
}

#[test]
fn test_json_escaping() {
    assert_eq!(escape_json("plain \u{e9}"), "plain \u{e9}");
    assert_eq!(escape_json("a\"b\\c\nd\re\tf"), "a\\\"b\\\\c\\nd\\re\\tf");
    assert_eq!(escape_json(""), "");
    let mut out = String::from("{");
    push_kv_str(&mut out, "k\"", "v\n");
    out.push(',');
    push_kv_bool(&mut out, "t", true);
    out.push(',');
    push_kv_bool(&mut out, "f", false);
    out.push(',');
    push_str_key(&mut out, "key");
    out.push(':');
    push_str_val(&mut out, "\\");
    assert_eq!(out, "{\"k\\\"\":\"v\\n\",\"t\":true,\"f\":false,\"key\":\"\\\\\"");
}

#[test]
fn test_plain_values() {
    assert!(!AxisFlags::default().low_tf_signal);
    let c = Classification { regime: NuclearRegime::Unclassified, flags: vec![Flag::LowConfidence] };
    assert_eq!(c.clone().flags, vec![Flag::LowConfidence]);
    assert_eq!(c.regime, NuclearRegime::Unclassified);
}

#[test]
fn test_find_panel_and_groups() {
    let panel = |id, group| Panel { id, name: "P", group, genes: vec![], missing: vec![] };
    let set = PanelSet {
        panels: vec![
            panel("a", PanelGroup::Tf),
            panel("b", PanelGroup::Stress),
            panel("a", PanelGroup::Tf),
            panel("c", PanelGroup::Chromatin),
        ],
    };
    assert_eq!(find_panel(&set, "a"), Some(0));
    assert_eq!(find_panel(&set, "c"), Some(3));
    assert_eq!(find_panel(&set, "d"), None);
    assert_eq!(group_panel_indices(&set, PanelGroup::Tf), vec![0, 2]);
    assert_eq!(group_panel_indices(&set, PanelGroup::Stress), vec![1]);
    assert_eq!(group_panel_indices(&set, PanelGroup::Program), Vec::<usize>::new());
}

#[test]
fn test_regime_counts() {
    let cell = |regime| Classification { regime, flags: vec![] };
    let cells = vec![
        cell(NuclearRegime::Unclassified),
        cell(NuclearRegime::StressAdaptive),
        cell(NuclearRegime::Unclassified),
        cell(NuclearRegime::TransientAdaptive),
    ];
    assert_eq!(regime_counts(&cells), vec![0, 1, 0, 0, 0, 1, 2]);
    assert_eq!(regime_counts(&[]), vec![0; 7]);
    let names = regime_names();
    for regime in [
        NuclearRegime::PlasticAdaptive,
        NuclearRegime::StressAdaptive,
        NuclearRegime::CommittedState,
        NuclearRegime::RigidDegenerative,
        NuclearRegime::TranscriptionallyCollapsed,
        NuclearRegime::TransientAdaptive,
        NuclearRegime::Unclassified,
    ] {
        assert_eq!(names[regime_index(regime)], regime_name(regime));
    }
    assert_eq!(majority_regime(&regime_counts(&cells), &names), "Unclassified");
}
