//! The flags that a cell can carry, and the order in which they are reported.

use vstd::prelude::*;

verus! {

/// A caveat raised for a cell.
#[derive(Debug, Clone, Copy, PartialEq, Eq, Structural)]
pub enum Flag {
    LowExprGenes,
    LowPanelCoverage,
    MissingKeyPanels,
    HighProgramDominance,
    HighStressBias,
    LowTfSignal,
    AmbientRnaRisk,
    CellCycleConfounder,
    LowConfidence,
    ModelLimitation,
    BiologicalSilence,
    HighReplicationStress,
    HrDominantRepair,
    NhejDominantRepair,
    ChromatinHypercompact,
    HighTrConflict,
}

/// The flags in the order in which they are reported.
pub open spec fn flag_sequence() -> Seq<Flag> {
    seq![
        Flag::LowExprGenes,
        Flag::LowPanelCoverage,
        Flag::MissingKeyPanels,
        Flag::HighProgramDominance,
        Flag::HighStressBias,
        Flag::LowTfSignal,
        Flag::AmbientRnaRisk,
        Flag::CellCycleConfounder,
        Flag::LowConfidence,
        Flag::HighReplicationStress,
        Flag::HrDominantRepair,
        Flag::NhejDominantRepair,
        Flag::ChromatinHypercompact,
        Flag::HighTrConflict,
        Flag::ModelLimitation,
        Flag::BiologicalSilence,
    ]
}

/// The flags in the order in which they are reported.
pub fn flag_order() -> (order: Vec<Flag>)
    ensures
        order@ == flag_sequence(),
{
    let mut order: Vec<Flag> = Vec::new();
    order.push(Flag::LowExprGenes);
    order.push(Flag::LowPanelCoverage);
    order.push(Flag::MissingKeyPanels);
    order.push(Flag::HighProgramDominance);
    order.push(Flag::HighStressBias);
    order.push(Flag::LowTfSignal);
    order.push(Flag::AmbientRnaRisk);
    order.push(Flag::CellCycleConfounder);
    order.push(Flag::LowConfidence);
    order.push(Flag::HighReplicationStress);
    order.push(Flag::HrDominantRepair);
    order.push(Flag::NhejDominantRepair);
    order.push(Flag::ChromatinHypercompact);
    order.push(Flag::HighTrConflict);
    order.push(Flag::ModelLimitation);
    order.push(Flag::BiologicalSilence);
    proof {
        assert(order@ =~= flag_sequence());
    }
    order
}

/// The flags of `present`, each once, in the reporting order of `order`.
pub open spec fn flags_in_order(order: Seq<Flag>, present: Seq<Flag>) -> Seq<Flag>
    decreases order.len(),
{
    if order.len() == 0 {
        Seq::empty()
    } else {
        let before = flags_in_order(order.drop_last(), present);
        if present.contains(order.last()) {
            before.push(order.last())
        } else {
            before
        }
    }
}

/// Tests whether a flag is among the given ones.
pub fn has_flag(flags: &[Flag], flag: Flag) -> (r: bool)
    ensures
        r == flags@.contains(flag),
{
    let mut i: usize = 0;
    while i < flags.len()
        invariant
            i <= flags.len(),
            forall|k: int| 0 <= k < i ==> flags@[k] != flag,
        decreases flags.len() - i,
    {
        if flags[i] == flag {
            return true;
        }
        i += 1;
    }
    false
}

/// Puts flags in the reporting order, each once.
pub fn ordered_flags(flags: &[Flag]) -> (ordered: Vec<Flag>)
    ensures
        ordered@ == flags_in_order(flag_sequence(), flags@),
{
    let order: Vec<Flag> = flag_order();
    let mut ordered: Vec<Flag> = Vec::new();
    let mut i: usize = 0;
    proof {
        assert(order@.take(0) =~= Seq::<Flag>::empty());
    }
    while i < order.len()
        invariant
            i <= order@.len(),
            order@ == flag_sequence(),
            ordered@ == flags_in_order(order@.take(i as int), flags@),
        decreases order@.len() - i,
    {
        proof {
            assert(order@.take(i + 1).drop_last() =~= order@.take(i as int));
        }
        if has_flag(flags, order[i]) {
            ordered.push(order[i]);
        }
        i += 1;
    }
    proof {
        assert(order@.take(i as int) =~= order@);
    }
    ordered
}

} // verus!
