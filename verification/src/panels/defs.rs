//! The built-in gene panels.

use vstd::prelude::*;

verus! {

/// The kind of signal that a panel stands for.
#[derive(Debug, Clone, Copy, PartialEq, Eq, Structural)]
pub enum PanelGroup {
    Housekeeping,
    Tf,
    Chromatin,
    Stress,
    Developmental,
    Proliferation,
    Program,
    Confounder,
}

/// The definition of a panel: its identifier, its name, its group, and the
/// symbols of its genes.
#[derive(Debug, Clone)]
pub struct PanelDef {
    pub id: &'static str,
    pub name: &'static str,
    pub group: PanelGroup,
    pub genes: Vec<&'static str>,
}

/// A panel definition with its texts as sequences of characters.
pub struct PanelDefView {
    pub id: Seq<char>,
    pub name: Seq<char>,
    pub group: PanelGroup,
    pub genes: Seq<Seq<char>>,
}

/// The texts of a sequence of string slices.
pub open spec fn str_views(v: Seq<&'static str>) -> Seq<Seq<char>> {
    v.map_values(|s: &'static str| s@)
}

impl View for PanelDef {
    type V = PanelDefView;

    open spec fn view(&self) -> PanelDefView {
        PanelDefView {
            id: self.id@,
            name: self.name@,
            group: self.group,
            genes: str_views(self.genes@),
        }
    }
}

/// The views of a sequence of panel definitions.
pub open spec fn panel_def_views(v: Seq<PanelDef>) -> Seq<PanelDefView> {
    v.map_values(|d: PanelDef| d@)
}

/// The panel `housekeeping_core`.
pub open spec fn panel_housekeeping_core() -> PanelDefView {
    PanelDefView {
        id: "housekeeping_core"@,
        name: "Housekeeping Core"@,
        group: PanelGroup::Housekeeping,
        genes: seq!["ACTB"@, "GAPDH"@, "RPLP0"@, "B2M"@],
    }
}

/// The panel `tf_basic`.
pub open spec fn panel_tf_basic() -> PanelDefView {
    PanelDefView {
        id: "tf_basic"@,
        name: "TF Basic"@,
        group: PanelGroup::Tf,
        genes: seq!["POU5F1"@, "SOX2"@, "NANOG"@, "MYC"@],
    }
}

/// The panel `chromatin_core`.
pub open spec fn panel_chromatin_core() -> PanelDefView {
    PanelDefView {
        id: "chromatin_core"@,
        name: "Chromatin Core"@,
        group: PanelGroup::Chromatin,
        genes: seq!["SMARCA4"@, "SMARCB1"@, "EZH2"@, "ARID1A"@],
    }
}

/// The panel `stress_response`.
pub open spec fn panel_stress_response() -> PanelDefView {
    PanelDefView {
        id: "stress_response"@,
        name: "Stress Response"@,
        group: PanelGroup::Stress,
        genes: seq!["FOS"@, "JUN"@, "ATF3"@, "HSP90AA1"@],
    }
}

/// The panel `developmental_core`.
pub open spec fn panel_developmental_core() -> PanelDefView {
    PanelDefView {
        id: "developmental_core"@,
        name: "Developmental Core"@,
        group: PanelGroup::Developmental,
        genes: seq!["SOX9"@, "PAX6"@, "GATA3"@, "TBX5"@],
    }
}

/// The panel `proliferation_core`.
pub open spec fn panel_proliferation_core() -> PanelDefView {
    PanelDefView {
        id: "proliferation_core"@,
        name: "Proliferation Core"@,
        group: PanelGroup::Proliferation,
        genes: seq!["MKI67"@, "TOP2A"@, "PCNA"@, "MCM2"@],
    }
}

/// The panel `immune_activation`.
pub open spec fn panel_immune_activation() -> PanelDefView {
    PanelDefView {
        id: "immune_activation"@,
        name: "Immune Activation"@,
        group: PanelGroup::Program,
        genes: seq!["CD69"@, "CD83"@, "HLA-DRA"@, "HLA-DRB1"@, "CD74"@],
    }
}

/// The panel `differentiation_flux`.
pub open spec fn panel_differentiation_flux() -> PanelDefView {
    PanelDefView {
        id: "differentiation_flux"@,
        name: "Differentiation Flux"@,
        group: PanelGroup::Program,
        genes: seq!["BCL6"@, "IRF4"@, "MYC"@],
    }
}

/// The panel `clonal_engagement`.
pub open spec fn panel_clonal_engagement() -> PanelDefView {
    PanelDefView {
        id: "clonal_engagement"@,
        name: "Clonal Engagement"@,
        group: PanelGroup::Program,
        genes: seq!["HNRNPA1"@, "SRSF1"@, "HNRNPC"@, "RPLP0"@, "RPL13A"@],
    }
}

/// The panel `replication_stress_genes`.
pub open spec fn panel_replication_stress_genes() -> PanelDefView {
    PanelDefView {
        id: "replication_stress_genes"@,
        name: "Replication Stress"@,
        group: PanelGroup::Confounder,
        genes: seq!["ATR"@, "CHEK1"@, "CHEK2"@, "RPA1"@, "RPA2"@, "RPA3"@, "RAD17"@, "CLSPN"@, "TIMELESS"@, "TIPIN"@],
    }
}

/// The panel `dna_repair_hr`.
pub open spec fn panel_dna_repair_hr() -> PanelDefView {
    PanelDefView {
        id: "dna_repair_hr"@,
        name: "DNA Repair HR"@,
        group: PanelGroup::Confounder,
        genes: seq!["BRCA1"@, "BRCA2"@, "RAD51"@, "RAD51B"@, "RAD51C"@, "RAD51D"@, "PALB2"@, "BARD1"@, "RAD52"@],
    }
}

/// The panel `dna_repair_nhej`.
pub open spec fn panel_dna_repair_nhej() -> PanelDefView {
    PanelDefView {
        id: "dna_repair_nhej"@,
        name: "DNA Repair NHEJ"@,
        group: PanelGroup::Confounder,
        genes: seq!["LIG4"@, "XRCC4"@, "XRCC5"@, "XRCC6"@, "PRKDC"@, "NHEJ1"@, "PNKP"@],
    }
}

/// The panel `chromatin_compaction`.
pub open spec fn panel_chromatin_compaction() -> PanelDefView {
    PanelDefView {
        id: "chromatin_compaction"@,
        name: "Chromatin Compaction"@,
        group: PanelGroup::Confounder,
        genes: seq!["CBX1"@, "CBX3"@, "CBX5"@, "SUV39H1"@, "SUV39H2"@, "SETDB1"@, "EHMT2"@],
    }
}

/// The panel `chromatin_open_state`.
pub open spec fn panel_chromatin_open_state() -> PanelDefView {
    PanelDefView {
        id: "chromatin_open_state"@,
        name: "Chromatin Open State"@,
        group: PanelGroup::Confounder,
        genes: seq!["SMARCA4"@, "SMARCB1"@, "ARID1A"@, "ARID1B"@, "KDM6A"@, "KAT2B"@, "EP300"@],
    }
}

/// The panel `replication_fork_stability`.
pub open spec fn panel_replication_fork_stability() -> PanelDefView {
    PanelDefView {
        id: "replication_fork_stability"@,
        name: "Replication Fork Stability"@,
        group: PanelGroup::Confounder,
        genes: seq!["MCM2"@, "MCM3"@, "MCM4"@, "MCM5"@, "MCM6"@, "MCM7"@, "CDC45"@, "GINS1"@],
    }
}

/// The panel `checkpoint_activation`.
pub open spec fn panel_checkpoint_activation() -> PanelDefView {
    PanelDefView {
        id: "checkpoint_activation"@,
        name: "Checkpoint Activation"@,
        group: PanelGroup::Confounder,
        genes: seq!["ATM"@, "ATR"@, "CHEK1"@, "CHEK2"@, "TP53"@, "CDKN1A"@],
    }
}

/// The built-in panels, in their fixed order.
pub open spec fn builtin_panel_table() -> Seq<PanelDefView> {
    seq![
        panel_housekeeping_core(),
        panel_tf_basic(),
        panel_chromatin_core(),
        panel_stress_response(),
        panel_developmental_core(),
        panel_proliferation_core(),
        panel_immune_activation(),
        panel_differentiation_flux(),
        panel_clonal_engagement(),
        panel_replication_stress_genes(),
        panel_dna_repair_hr(),
        panel_dna_repair_nhej(),
        panel_chromatin_compaction(),
        panel_chromatin_open_state(),
        panel_replication_fork_stability(),
        panel_checkpoint_activation(),
    ]
}

/// Makes a panel definition from its parts.
pub fn panel_def(id: &'static str, name: &'static str, group: PanelGroup, genes: Vec<&'static str>)
    -> (def: PanelDef)
    ensures
        def.id == id,
        def.name == name,
        def.group == group,
        def.genes == genes,
{
    PanelDef { id, name, group, genes }
}

/// Builds the definition of the panel `housekeeping_core`.
fn make_panel_housekeeping_core() -> (def: PanelDef)
    ensures
        def@ == panel_housekeeping_core(),
{
    let mut genes: Vec<&'static str> = Vec::new();
    genes.push("ACTB");
    genes.push("GAPDH");
    genes.push("RPLP0");
    genes.push("B2M");
    proof {
        assert(str_views(genes@) =~= panel_housekeeping_core().genes);
    }
    panel_def("housekeeping_core", "Housekeeping Core", PanelGroup::Housekeeping, genes)
}

/// Builds the definition of the panel `tf_basic`.
fn make_panel_tf_basic() -> (def: PanelDef)
    ensures
        def@ == panel_tf_basic(),
{
    let mut genes: Vec<&'static str> = Vec::new();
    genes.push("POU5F1");
    genes.push("SOX2");
    genes.push("NANOG");
    genes.push("MYC");
    proof {
        assert(str_views(genes@) =~= panel_tf_basic().genes);
    }
    panel_def("tf_basic", "TF Basic", PanelGroup::Tf, genes)
}

/// Builds the definition of the panel `chromatin_core`.
fn make_panel_chromatin_core() -> (def: PanelDef)
    ensures
        def@ == panel_chromatin_core(),
{
    let mut genes: Vec<&'static str> = Vec::new();
    genes.push("SMARCA4");
    genes.push("SMARCB1");
    genes.push("EZH2");
    genes.push("ARID1A");
    proof {
        assert(str_views(genes@) =~= panel_chromatin_core().genes);
    }
    panel_def("chromatin_core", "Chromatin Core", PanelGroup::Chromatin, genes)
}

/// Builds the definition of the panel `stress_response`.
fn make_panel_stress_response() -> (def: PanelDef)
    ensures
        def@ == panel_stress_response(),
{
    let mut genes: Vec<&'static str> = Vec::new();
    genes.push("FOS");
    genes.push("JUN");
    genes.push("ATF3");
    genes.push("HSP90AA1");
    proof {
        assert(str_views(genes@) =~= panel_stress_response().genes);
    }
    panel_def("stress_response", "Stress Response", PanelGroup::Stress, genes)
}

/// Builds the definition of the panel `developmental_core`.
fn make_panel_developmental_core() -> (def: PanelDef)
    ensures
        def@ == panel_developmental_core(),
{
    let mut genes: Vec<&'static str> = Vec::new();
    genes.push("SOX9");
    genes.push("PAX6");
    genes.push("GATA3");
    genes.push("TBX5");
    proof {
        assert(str_views(genes@) =~= panel_developmental_core().genes);
    }
    panel_def("developmental_core", "Developmental Core", PanelGroup::Developmental, genes)
}

/// Builds the definition of the panel `proliferation_core`.
fn make_panel_proliferation_core() -> (def: PanelDef)
    ensures
        def@ == panel_proliferation_core(),
{
    let mut genes: Vec<&'static str> = Vec::new();
    genes.push("MKI67");
    genes.push("TOP2A");
    genes.push("PCNA");
    genes.push("MCM2");
    proof {
        assert(str_views(genes@) =~= panel_proliferation_core().genes);
    }
    panel_def("proliferation_core", "Proliferation Core", PanelGroup::Proliferation, genes)
}

/// Builds the definition of the panel `immune_activation`.
fn make_panel_immune_activation() -> (def: PanelDef)
    ensures
        def@ == panel_immune_activation(),
{
    let mut genes: Vec<&'static str> = Vec::new();
    genes.push("CD69");
    genes.push("CD83");
    genes.push("HLA-DRA");
    genes.push("HLA-DRB1");
    genes.push("CD74");
    proof {
        assert(str_views(genes@) =~= panel_immune_activation().genes);
    }
    panel_def("immune_activation", "Immune Activation", PanelGroup::Program, genes)
}

/// Builds the definition of the panel `differentiation_flux`.
fn make_panel_differentiation_flux() -> (def: PanelDef)
    ensures
        def@ == panel_differentiation_flux(),
{
    let mut genes: Vec<&'static str> = Vec::new();
    genes.push("BCL6");
    genes.push("IRF4");
    genes.push("MYC");
    proof {
        assert(str_views(genes@) =~= panel_differentiation_flux().genes);
    }
    panel_def("differentiation_flux", "Differentiation Flux", PanelGroup::Program, genes)
}

/// Builds the definition of the panel `clonal_engagement`.
fn make_panel_clonal_engagement() -> (def: PanelDef)
    ensures
        def@ == panel_clonal_engagement(),
{
    let mut genes: Vec<&'static str> = Vec::new();
    genes.push("HNRNPA1");
    genes.push("SRSF1");
    genes.push("HNRNPC");
    genes.push("RPLP0");
    genes.push("RPL13A");
    proof {
        assert(str_views(genes@) =~= panel_clonal_engagement().genes);
    }
    panel_def("clonal_engagement", "Clonal Engagement", PanelGroup::Program, genes)
}

/// Builds the definition of the panel `replication_stress_genes`.
fn make_panel_replication_stress_genes() -> (def: PanelDef)
    ensures
        def@ == panel_replication_stress_genes(),
{
    let mut genes: Vec<&'static str> = Vec::new();
    genes.push("ATR");
    genes.push("CHEK1");
    genes.push("CHEK2");
    genes.push("RPA1");
    genes.push("RPA2");
    genes.push("RPA3");
    genes.push("RAD17");
    genes.push("CLSPN");
    genes.push("TIMELESS");
    genes.push("TIPIN");
    proof {
        assert(str_views(genes@) =~= panel_replication_stress_genes().genes);
    }
    panel_def("replication_stress_genes", "Replication Stress", PanelGroup::Confounder, genes)
}

/// Builds the definition of the panel `dna_repair_hr`.
fn make_panel_dna_repair_hr() -> (def: PanelDef)
    ensures
        def@ == panel_dna_repair_hr(),
{
    let mut genes: Vec<&'static str> = Vec::new();
    genes.push("BRCA1");
    genes.push("BRCA2");
    genes.push("RAD51");
    genes.push("RAD51B");
    genes.push("RAD51C");
    genes.push("RAD51D");
    genes.push("PALB2");
    genes.push("BARD1");
    genes.push("RAD52");
    proof {
        assert(str_views(genes@) =~= panel_dna_repair_hr().genes);
    }
    panel_def("dna_repair_hr", "DNA Repair HR", PanelGroup::Confounder, genes)
}

/// Builds the definition of the panel `dna_repair_nhej`.
fn make_panel_dna_repair_nhej() -> (def: PanelDef)
    ensures
        def@ == panel_dna_repair_nhej(),
{
    let mut genes: Vec<&'static str> = Vec::new();
    genes.push("LIG4");
    genes.push("XRCC4");
    genes.push("XRCC5");
    genes.push("XRCC6");
    genes.push("PRKDC");
    genes.push("NHEJ1");
    genes.push("PNKP");
    proof {
        assert(str_views(genes@) =~= panel_dna_repair_nhej().genes);
    }
    panel_def("dna_repair_nhej", "DNA Repair NHEJ", PanelGroup::Confounder, genes)
}

/// Builds the definition of the panel `chromatin_compaction`.
fn make_panel_chromatin_compaction() -> (def: PanelDef)
    ensures
        def@ == panel_chromatin_compaction(),
{
    let mut genes: Vec<&'static str> = Vec::new();
    genes.push("CBX1");
    genes.push("CBX3");
    genes.push("CBX5");
    genes.push("SUV39H1");
    genes.push("SUV39H2");
    genes.push("SETDB1");
    genes.push("EHMT2");
    proof {
        assert(str_views(genes@) =~= panel_chromatin_compaction().genes);
    }
    panel_def("chromatin_compaction", "Chromatin Compaction", PanelGroup::Confounder, genes)
}

/// Builds the definition of the panel `chromatin_open_state`.
fn make_panel_chromatin_open_state() -> (def: PanelDef)
    ensures
        def@ == panel_chromatin_open_state(),
{
    let mut genes: Vec<&'static str> = Vec::new();
    genes.push("SMARCA4");
    genes.push("SMARCB1");
    genes.push("ARID1A");
    genes.push("ARID1B");
    genes.push("KDM6A");
    genes.push("KAT2B");
    genes.push("EP300");
    proof {
        assert(str_views(genes@) =~= panel_chromatin_open_state().genes);
    }
    panel_def("chromatin_open_state", "Chromatin Open State", PanelGroup::Confounder, genes)
}

/// Builds the definition of the panel `replication_fork_stability`.
fn make_panel_replication_fork_stability() -> (def: PanelDef)
    ensures
        def@ == panel_replication_fork_stability(),
{
    let mut genes: Vec<&'static str> = Vec::new();
    genes.push("MCM2");
    genes.push("MCM3");
    genes.push("MCM4");
    genes.push("MCM5");
    genes.push("MCM6");
    genes.push("MCM7");
    genes.push("CDC45");
    genes.push("GINS1");
    proof {
        assert(str_views(genes@) =~= panel_replication_fork_stability().genes);
    }
    panel_def("replication_fork_stability", "Replication Fork Stability", PanelGroup::Confounder, genes)
}

/// Builds the definition of the panel `checkpoint_activation`.
fn make_panel_checkpoint_activation() -> (def: PanelDef)
    ensures
        def@ == panel_checkpoint_activation(),
{
    let mut genes: Vec<&'static str> = Vec::new();
    genes.push("ATM");
    genes.push("ATR");
    genes.push("CHEK1");
    genes.push("CHEK2");
    genes.push("TP53");
    genes.push("CDKN1A");
    proof {
        assert(str_views(genes@) =~= panel_checkpoint_activation().genes);
    }
    panel_def("checkpoint_activation", "Checkpoint Activation", PanelGroup::Confounder, genes)
}

/// The built-in panels, in their fixed order.
pub fn builtin_panels() -> (defs: Vec<PanelDef>)
    ensures
        panel_def_views(defs@) == builtin_panel_table(),
{
    let mut defs: Vec<PanelDef> = Vec::new();
    defs.push(make_panel_housekeeping_core());
    defs.push(make_panel_tf_basic());
    defs.push(make_panel_chromatin_core());
    defs.push(make_panel_stress_response());
    defs.push(make_panel_developmental_core());
    defs.push(make_panel_proliferation_core());
    defs.push(make_panel_immune_activation());
    defs.push(make_panel_differentiation_flux());
    defs.push(make_panel_clonal_engagement());
    defs.push(make_panel_replication_stress_genes());
    defs.push(make_panel_dna_repair_hr());
    defs.push(make_panel_dna_repair_nhej());
    defs.push(make_panel_chromatin_compaction());
    defs.push(make_panel_chromatin_open_state());
    defs.push(make_panel_replication_fork_stability());
    defs.push(make_panel_checkpoint_activation());
    proof {
        assert(panel_def_views(defs@) =~= builtin_panel_table());
    }
    defs
}

} // verus!
