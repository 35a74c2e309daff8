//! Names and orders used by the reports.

use vstd::prelude::*;
use crate::model::flags::{flag_sequence, flags_in_order, ordered_flags, Flag};
use crate::model::regimes::NuclearRegime;
use crate::panels::defs::{str_views, PanelGroup};
use crate::panels::{Panel, PanelSet};
use crate::pipeline::stage6_classify::Classification;
use crate::text::str_eq;

verus! {

/// Whether the table of metrics has a row per cell or per sample.
#[derive(Debug, Clone, Copy, PartialEq, Eq, Structural)]
pub enum ReportMode {
    Cell,
    Sample,
}

/// Whether the tool runs on its own or as a step of a pipeline.
#[derive(Debug, Clone, Copy, PartialEq, Eq, Structural)]
pub enum RunMode {
    Standalone,
    Pipeline,
}

/// What a pipeline run records about its input.
#[derive(Debug, Clone)]
pub struct PipelineContext {
    pub input_dir: String,
    pub input_source: String,
    pub shared_bin: Option<String>,
    pub run_mode: String,
}

/// The name of a regime in the reports.
pub open spec fn regime_text(r: NuclearRegime) -> Seq<char> {
    match r {
        NuclearRegime::PlasticAdaptive => "PlasticAdaptive"@,
        NuclearRegime::StressAdaptive => "StressAdaptive"@,
        NuclearRegime::CommittedState => "CommittedState"@,
        NuclearRegime::RigidDegenerative => "RigidDegenerative"@,
        NuclearRegime::TranscriptionallyCollapsed => "TranscriptionallyCollapsed"@,
        NuclearRegime::TransientAdaptive => "TransientAdaptive"@,
        NuclearRegime::Unclassified => "Unclassified"@,
    }
}

/// The regimes in the order of the reports.
pub open spec fn regime_sequence() -> Seq<NuclearRegime> {
    seq![
        NuclearRegime::PlasticAdaptive,
        NuclearRegime::StressAdaptive,
        NuclearRegime::CommittedState,
        NuclearRegime::RigidDegenerative,
        NuclearRegime::TranscriptionallyCollapsed,
        NuclearRegime::TransientAdaptive,
        NuclearRegime::Unclassified,
    ]
}

/// The name of a regime in the reports.
pub fn regime_name(r: NuclearRegime) -> (name: &'static str)
    ensures
        name@ == regime_text(r),
{
    match r {
        NuclearRegime::PlasticAdaptive => "PlasticAdaptive",
        NuclearRegime::StressAdaptive => "StressAdaptive",
        NuclearRegime::CommittedState => "CommittedState",
        NuclearRegime::RigidDegenerative => "RigidDegenerative",
        NuclearRegime::TranscriptionallyCollapsed => "TranscriptionallyCollapsed",
        NuclearRegime::TransientAdaptive => "TransientAdaptive",
        NuclearRegime::Unclassified => "Unclassified",
    }
}

/// The names of the regimes in the order of the reports.
pub fn regime_names() -> (names: Vec<&'static str>)
    ensures
        str_views(names@) == regime_sequence().map_values(|r: NuclearRegime| regime_text(r)),
{
    let mut names: Vec<&'static str> = Vec::new();
    names.push(regime_name(NuclearRegime::PlasticAdaptive));
    names.push(regime_name(NuclearRegime::StressAdaptive));
    names.push(regime_name(NuclearRegime::CommittedState));
    names.push(regime_name(NuclearRegime::RigidDegenerative));
    names.push(regime_name(NuclearRegime::TranscriptionallyCollapsed));
    names.push(regime_name(NuclearRegime::TransientAdaptive));
    names.push(regime_name(NuclearRegime::Unclassified));
    proof {
        assert(str_views(names@) =~= regime_sequence().map_values(
            |r: NuclearRegime| regime_text(r),
        ));
    }
    names
}

/// The name of a flag in the reports.
pub open spec fn flag_text(flag: Flag) -> Seq<char> {
    match flag {
        Flag::LowExprGenes => "LOW_EXPR_GENES"@,
        Flag::LowPanelCoverage => "LOW_PANEL_COVERAGE"@,
        Flag::MissingKeyPanels => "MISSING_KEY_PANELS"@,
        Flag::HighProgramDominance => "HIGH_PROGRAM_DOMINANCE"@,
        Flag::HighStressBias => "HIGH_STRESS_BIAS"@,
        Flag::LowTfSignal => "LOW_TF_SIGNAL"@,
        Flag::AmbientRnaRisk => "AMBIENT_RNA_RISK"@,
        Flag::CellCycleConfounder => "CELL_CYCLE_CONFOUNDER"@,
        Flag::LowConfidence => "LOW_CONFIDENCE"@,
        Flag::ModelLimitation => "MODEL_LIMITATION"@,
        Flag::BiologicalSilence => "BIOLOGICAL_SILENCE"@,
        Flag::HighReplicationStress => "HIGH_REPLICATION_STRESS"@,
        Flag::HrDominantRepair => "HR_DOMINANT_REPAIR"@,
        Flag::NhejDominantRepair => "NHEJ_DOMINANT_REPAIR"@,
        Flag::ChromatinHypercompact => "CHROMATIN_HYPERCOMPACT"@,
        Flag::HighTrConflict => "HIGH_TR_CONFLICT"@,
    }
}

/// The name of a flag in the reports.
pub fn flag_name(flag: Flag) -> (name: &'static str)
    ensures
        name@ == flag_text(flag),
{
    match flag {
        Flag::LowExprGenes => "LOW_EXPR_GENES",
        Flag::LowPanelCoverage => "LOW_PANEL_COVERAGE",
        Flag::MissingKeyPanels => "MISSING_KEY_PANELS",
        Flag::HighProgramDominance => "HIGH_PROGRAM_DOMINANCE",
        Flag::HighStressBias => "HIGH_STRESS_BIAS",
        Flag::LowTfSignal => "LOW_TF_SIGNAL",
        Flag::AmbientRnaRisk => "AMBIENT_RNA_RISK",
        Flag::CellCycleConfounder => "CELL_CYCLE_CONFOUNDER",
        Flag::LowConfidence => "LOW_CONFIDENCE",
        Flag::ModelLimitation => "MODEL_LIMITATION",
        Flag::BiologicalSilence => "BIOLOGICAL_SILENCE",
        Flag::HighReplicationStress => "HIGH_REPLICATION_STRESS",
        Flag::HrDominantRepair => "HR_DOMINANT_REPAIR",
        Flag::NhejDominantRepair => "NHEJ_DOMINANT_REPAIR",
        Flag::ChromatinHypercompact => "CHROMATIN_HYPERCOMPACT",
        Flag::HighTrConflict => "HIGH_TR_CONFLICT",
    }
}

/// The name of a panel group in the reports.
pub open spec fn panel_group_text(group: PanelGroup) -> Seq<char> {
    match group {
        PanelGroup::Housekeeping => "housekeeping"@,
        PanelGroup::Tf => "tf"@,
        PanelGroup::Chromatin => "chromatin"@,
        PanelGroup::Stress => "stress"@,
        PanelGroup::Developmental => "developmental"@,
        PanelGroup::Proliferation => "proliferation"@,
        PanelGroup::Program => "program"@,
        PanelGroup::Confounder => "confounder"@,
    }
}

/// The name of a panel group in the reports.
pub fn panel_group_name(group: PanelGroup) -> (name: &'static str)
    ensures
        name@ == panel_group_text(group),
{
    match group {
        PanelGroup::Housekeeping => "housekeeping",
        PanelGroup::Tf => "tf",
        PanelGroup::Chromatin => "chromatin",
        PanelGroup::Stress => "stress",
        PanelGroup::Developmental => "developmental",
        PanelGroup::Proliferation => "proliferation",
        PanelGroup::Program => "program",
        PanelGroup::Confounder => "confounder",
    }
}

/// The names of flags, with a comma between each two.
pub open spec fn joined_flags(flags: Seq<Flag>) -> Seq<char>
    decreases flags.len(),
{
    if flags.len() == 0 {
        Seq::empty()
    } else if flags.len() == 1 {
        flag_text(flags[0])
    } else {
        joined_flags(flags.drop_last()) + seq![','] + flag_text(flags.last())
    }
}

/// The flags of a cell as one text: their names in reporting order, with a
/// comma between each two.
pub fn format_flags(flags: &[Flag]) -> (out: String)
    ensures
        out@ == joined_flags(flags_in_order(flag_sequence(), flags@)),
{
    let ordered: Vec<Flag> = ordered_flags(flags);
    let mut out: String = String::new();
    let mut i: usize = 0;
    proof {
        assert(ordered@.take(0) =~= Seq::<Flag>::empty());
    }
    while i < ordered.len()
        invariant
            i <= ordered@.len(),
            out@ == joined_flags(ordered@.take(i as int)),
        decreases ordered@.len() - i,
    {
        let ghost before = out@;
        proof {
            assert(ordered@.take(i + 1).drop_last() =~= ordered@.take(i as int));
            assert(ordered@.take(i + 1).last() == ordered@[i as int]);
        }
        if i > 0 {
            out.push(',');
        }
        out.append(flag_name(ordered[i]));
        proof {
            if i == 0 {
                assert(before =~= Seq::<char>::empty());
                assert(ordered@.take(1)[0] == ordered@[0]);
                assert(out@ =~= flag_text(ordered@[0]));
            } else {
                assert(out@ =~= before + seq![','] + flag_text(ordered@[i as int]));
            }
        }
        i += 1;
    }
    proof {
        assert(ordered@.take(i as int) =~= ordered@);
    }
    out
}

/// The places of the panels of a group among the first `n` panels, in
/// ascending order.
pub open spec fn group_places(groups: Seq<PanelGroup>, group: PanelGroup, n: int) -> Seq<usize>
    decreases n,
{
    if n <= 0 {
        Seq::empty()
    } else {
        let before = group_places(groups, group, n - 1);
        if groups[n - 1] == group {
            before.push((n - 1) as usize)
        } else {
            before
        }
    }
}

/// The groups of the panels of a set, panel by panel.
pub open spec fn panel_groups(panels: Seq<Panel>) -> Seq<PanelGroup> {
    panels.map_values(|p: Panel| p.group)
}

/// The places of the panels of a group, in ascending order.
pub fn group_panel_indices(panel_set: &PanelSet, group: PanelGroup) -> (out: Vec<usize>)
    ensures
        out@ == group_places(
            panel_groups(panel_set.panels@),
            group,
            panel_set.panels@.len() as int,
        ),
{
    let ghost groups = panel_groups(panel_set.panels@);
    let mut out: Vec<usize> = Vec::new();
    let mut idx: usize = 0;
    while idx < panel_set.panels.len()
        invariant
            idx <= panel_set.panels@.len(),
            groups == panel_groups(panel_set.panels@),
            out@ == group_places(groups, group, idx as int),
        decreases panel_set.panels@.len() - idx,
    {
        proof {
            assert(groups[idx as int] == panel_set.panels@[idx as int].group);
        }
        if panel_set.panels[idx].group == group {
            out.push(idx);
        }
        idx += 1;
    }
    out
}

/// The places of the panels of the program group, in ascending order.
pub fn program_panel_indices(panel_set: &PanelSet) -> (out: Vec<usize>)
    ensures
        out@ == group_places(
            panel_groups(panel_set.panels@),
            PanelGroup::Program,
            panel_set.panels@.len() as int,
        ),
{
    group_panel_indices(panel_set, PanelGroup::Program)
}

/// The place of the first panel at or after `from` with the given
/// identifier, or the number of panels where there is none.
pub open spec fn first_panel_with_id(ids: Seq<Seq<char>>, id: Seq<char>, from: int) -> int
    decreases ids.len() - from,
{
    if from < 0 || from >= ids.len() {
        ids.len() as int
    } else if ids[from] == id {
        from
    } else {
        first_panel_with_id(ids, id, from + 1)
    }
}

/// The identifiers of the panels of a set, panel by panel.
pub open spec fn panel_ids(panels: Seq<Panel>) -> Seq<Seq<char>> {
    panels.map_values(|p: Panel| p.id@)
}

/// The place of the first panel with the given identifier.
pub fn find_panel(panel_set: &PanelSet, id: &str) -> (r: Option<usize>)
    ensures
        match r {
            Some(at) => at < panel_set.panels@.len() && first_panel_with_id(
                panel_ids(panel_set.panels@),
                id@,
                0,
            ) == at,
            None => first_panel_with_id(panel_ids(panel_set.panels@), id@, 0)
                == panel_set.panels@.len(),
        },
{
    let ghost ids = panel_ids(panel_set.panels@);
    let mut i: usize = 0;
    while i < panel_set.panels.len()
        invariant
            i <= panel_set.panels@.len(),
            ids == panel_ids(panel_set.panels@),
            first_panel_with_id(ids, id@, 0) == first_panel_with_id(ids, id@, i as int),
        decreases panel_set.panels@.len() - i,
    {
        proof {
            assert(ids[i as int] == panel_set.panels@[i as int].id@);
        }
        if str_eq(panel_set.panels[i].id, id) {
            return Some(i);
        }
        i += 1;
    }
    None
}

/// How many of the first `n` cells have the regime.
pub open spec fn regime_count(regimes: Seq<NuclearRegime>, regime: NuclearRegime, n: int) -> nat
    decreases n,
{
    if n <= 0 {
        0
    } else {
        regime_count(regimes, regime, n - 1) + (if regimes[n - 1] == regime {
            1nat
        } else {
            0
        })
    }
}

/// The regimes of classified cells, cell by cell.
pub open spec fn regimes_of(classifications: Seq<Classification>) -> Seq<NuclearRegime> {
    classifications.map_values(|c: Classification| c.regime)
}

/// The place of a regime in the order of the reports.
pub open spec fn regime_place(r: NuclearRegime) -> int {
    match r {
        NuclearRegime::PlasticAdaptive => 0,
        NuclearRegime::StressAdaptive => 1,
        NuclearRegime::CommittedState => 2,
        NuclearRegime::RigidDegenerative => 3,
        NuclearRegime::TranscriptionallyCollapsed => 4,
        NuclearRegime::TransientAdaptive => 5,
        NuclearRegime::Unclassified => 6,
    }
}

/// The place of a regime in the order of the reports.
pub fn regime_index(r: NuclearRegime) -> (at: usize)
    ensures
        at == regime_place(r),
        regime_sequence()[at as int] == r,
{
    match r {
        NuclearRegime::PlasticAdaptive => 0,
        NuclearRegime::StressAdaptive => 1,
        NuclearRegime::CommittedState => 2,
        NuclearRegime::RigidDegenerative => 3,
        NuclearRegime::TranscriptionallyCollapsed => 4,
        NuclearRegime::TransientAdaptive => 5,
        NuclearRegime::Unclassified => 6,
    }
}

/// The number of cells of every regime, in the order of the reports.
pub fn regime_counts(classifications: &[Classification]) -> (counts: Vec<usize>)
    ensures
        counts@.len() == 7,
        forall|k: int|
            0 <= k < 7 ==> (#[trigger] counts@[k]) == regime_count(
                regimes_of(classifications@),
                regime_sequence()[k],
                classifications@.len() as int,
            ),
{
    let ghost regimes = regimes_of(classifications@);
    let mut counts: Vec<usize> = Vec::new();
    let mut k: usize = 0;
    while k < 7
        invariant
            k <= 7,
            counts@.len() == k,
            forall|j: int| 0 <= j < k ==> (#[trigger] counts@[j]) == 0,
        decreases 7 - k,
    {
        counts.push(0);
        k += 1;
    }
    let mut i: usize = 0;
    while i < classifications.len()
        invariant
            i <= classifications.len(),
            regimes == regimes_of(classifications@),
            counts@.len() == 7,
            forall|j: int|
                0 <= j < 7 ==> (#[trigger] counts@[j]) == regime_count(
                    regimes,
                    regime_sequence()[j],
                    i as int,
                ),
            forall|j: int| 0 <= j < 7 ==> (#[trigger] counts@[j]) <= i,
        decreases classifications.len() - i,
    {
        let at: usize = regime_index(classifications[i].regime);
        let ghost before = counts@;
        proof {
            assert(regimes[i as int] == classifications@[i as int].regime);
            assert(before[at as int] <= i);
        }
        let bumped: usize = counts[at] + 1;
        counts.set(at, bumped);
        proof {
            assert forall|j: int| 0 <= j < 7 implies (#[trigger] counts@[j]) == regime_count(
                regimes,
                regime_sequence()[j],
                i + 1,
            ) && counts@[j] <= i + 1 by {
                assert(before[j] == regime_count(regimes, regime_sequence()[j], i as int));
                assert(before[j] <= i);
                if j != at {
                    assert(counts@[j] == before[j]);
                    assert(regime_place(regime_sequence()[j]) == j);
                }
            }
        }
        i += 1;
    }
    counts
}

/// The count that stands at place `i`, or zero beyond the counts.
pub open spec fn count_at(counts: Seq<usize>, i: int) -> nat {
    if 0 <= i < counts.len() {
        counts[i] as nat
    } else {
        0
    }
}

/// The place, among the first `n` regimes, of the regime with the greatest
/// count of at least one, the earliest of them where several have it; -1
/// where no count is above zero.
pub open spec fn leading_place(counts: Seq<usize>, n: int) -> int
    decreases n,
{
    if n <= 0 {
        -1
    } else {
        let before = leading_place(counts, n - 1);
        let best = if before < 0 {
            0
        } else {
            count_at(counts, before)
        };
        if count_at(counts, n - 1) > best {
            n - 1
        } else {
            before
        }
    }
}

/// The regime that most cells have. `counts` holds the number of cells of
/// each regime, in the order of `order`; a regime beyond the counts has
/// none. Of several regimes with the greatest count the first wins, and
/// where no regime has a cell the answer is `Unclassified`.
pub fn majority_regime(counts: &[usize], order: &[&'static str]) -> (name: &'static str)
    ensures
        name@ == (if leading_place(counts@, order@.len() as int) < 0 {
            "Unclassified"@
        } else {
            order@[leading_place(counts@, order@.len() as int)]@
        }),
{
    let mut best: &'static str = "Unclassified";
    let mut best_count: usize = 0;
    let mut i: usize = 0;
    while i < order.len()
        invariant
            i <= order@.len(),
            -1 <= leading_place(counts@, i as int) < i || i == 0,
            leading_place(counts@, i as int) < 0 ==> best_count == 0 && best@ == "Unclassified"@,
            leading_place(counts@, i as int) >= 0 ==> best_count == count_at(
                counts@,
                leading_place(counts@, i as int),
            ) && best@ == order@[leading_place(counts@, i as int)]@,
        decreases order@.len() - i,
    {
        let count: usize = if i < counts.len() {
            counts[i]
        } else {
            0
        };
        if count > best_count {
            best = order[i];
            best_count = count;
        }
        i += 1;
    }
    best
}

} // verus!
