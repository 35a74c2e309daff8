//! Mapping of the built-in panels onto a gene index.

use vstd::prelude::*;
use crate::input::{string_views, GeneIndex, Species};
use crate::panels::defs::{
    builtin_panel_table, builtin_panels, panel_def_views, str_views, PanelDef, PanelDefView,
    PanelGroup,
};
use crate::panels::mapping::{
    build_symbol_map, map_symbol, mapped_symbol, symbol_places, SymbolMap,
};
use crate::panels::{Panel, PanelAudit, PanelSet};

verus! {

/// A mapped panel as mathematical values.
pub struct PanelView {
    pub id: Seq<char>,
    pub name: Seq<char>,
    pub group: PanelGroup,
    pub genes: Seq<u32>,
    pub missing: Seq<Seq<char>>,
}

/// A panel audit as mathematical values.
pub struct PanelAuditView {
    pub panel_id: Seq<char>,
    pub panel_size_defined: nat,
    pub panel_size_mappable: nat,
    pub missing_genes: Seq<Seq<char>>,
}

impl View for Panel {
    type V = PanelView;

    open spec fn view(&self) -> PanelView {
        PanelView {
            id: self.id@,
            name: self.name@,
            group: self.group,
            genes: self.genes@,
            missing: string_views(self.missing@),
        }
    }
}

impl View for PanelAudit {
    type V = PanelAuditView;

    open spec fn view(&self) -> PanelAuditView {
        PanelAuditView {
            panel_id: self.panel_id@,
            panel_size_defined: self.panel_size_defined as nat,
            panel_size_mappable: self.panel_size_mappable as nat,
            missing_genes: string_views(self.missing_genes@),
        }
    }
}

/// The views of a sequence of panels.
pub open spec fn panel_views(v: Seq<Panel>) -> Seq<PanelView> {
    v.map_values(|p: Panel| p@)
}

/// The views of a sequence of audits.
pub open spec fn audit_views(v: Seq<PanelAudit>) -> Seq<PanelAuditView> {
    v.map_values(|a: PanelAudit| a@)
}

/// The identifiers of the panel genes that map, in panel order.
pub open spec fn mapped_genes(
    species: Species,
    genes: Seq<Seq<char>>,
    symbols: Map<Seq<char>, u32>,
) -> Seq<u32>
    decreases genes.len(),
{
    if genes.len() == 0 {
        Seq::empty()
    } else {
        let before = mapped_genes(species, genes.drop_last(), symbols);
        match mapped_symbol(species, genes.last(), symbols) {
            Some(id) => before.push(id),
            None => before,
        }
    }
}

/// The panel genes that do not map, in panel order.
pub open spec fn missing_genes(
    species: Species,
    genes: Seq<Seq<char>>,
    symbols: Map<Seq<char>, u32>,
) -> Seq<Seq<char>>
    decreases genes.len(),
{
    if genes.len() == 0 {
        Seq::empty()
    } else {
        let before = missing_genes(species, genes.drop_last(), symbols);
        match mapped_symbol(species, genes.last(), symbols) {
            Some(_) => before,
            None => before.push(genes.last()),
        }
    }
}

/// A panel definition mapped onto the symbols of a gene index.
pub open spec fn mapped_panel(def: PanelDefView, species: Species, symbols: Map<Seq<char>, u32>)
    -> PanelView {
    PanelView {
        id: def.id,
        name: def.name,
        group: def.group,
        genes: mapped_genes(species, def.genes, symbols),
        missing: missing_genes(species, def.genes, symbols),
    }
}

/// The audit of a panel definition mapped onto the symbols of a gene index.
pub open spec fn panel_audit(def: PanelDefView, species: Species, symbols: Map<Seq<char>, u32>)
    -> PanelAuditView {
    PanelAuditView {
        panel_id: def.id,
        panel_size_defined: def.genes.len(),
        panel_size_mappable: mapped_genes(species, def.genes, symbols).len(),
        missing_genes: missing_genes(species, def.genes, symbols),
    }
}

/// Maps one panel definition: every gene of the panel is looked up, and
/// goes to the mapped genes or to the missing ones.
pub fn map_panel(def: &PanelDef, species: Species, symbol_map: &SymbolMap) -> (r: (Panel, PanelAudit))
    ensures
        r.0@ == mapped_panel(def@, species, symbol_map@),
        r.1@ == panel_audit(def@, species, symbol_map@),
{
    let mut genes: Vec<u32> = Vec::new();
    let mut missing: Vec<String> = Vec::new();
    let mut reported: Vec<String> = Vec::new();
    let ghost names = str_views(def.genes@);
    let mut i: usize = 0;
    proof {
        assert(names.take(0) =~= Seq::<Seq<char>>::empty());
        assert(string_views(missing@) =~= Seq::<Seq<char>>::empty());
        assert(string_views(reported@) =~= Seq::<Seq<char>>::empty());
    }
    while i < def.genes.len()
        invariant
            i <= def.genes@.len(),
            names == str_views(def.genes@),
            genes@ == mapped_genes(species, names.take(i as int), symbol_map@),
            string_views(missing@) == missing_genes(species, names.take(i as int), symbol_map@),
            string_views(reported@) == string_views(missing@),
        decreases def.genes@.len() - i,
    {
        let symbol: &'static str = def.genes[i];
        proof {
            assert(names.take(i + 1).drop_last() =~= names.take(i as int));
            assert(names.take(i + 1).last() == symbol@);
        }
        match map_symbol(species, symbol, symbol_map) {
            Some(gene_id) => {
                genes.push(gene_id);
            },
            None => {
                let ghost before = string_views(missing@);
                missing.push(symbol.to_owned());
                reported.push(symbol.to_owned());
                proof {
                    assert(string_views(missing@) =~= before.push(symbol@));
                    assert(string_views(reported@) =~= before.push(symbol@));
                }
            },
        }
        i += 1;
    }
    proof {
        assert(names.take(i as int) =~= names);
    }
    let audit = PanelAudit {
        panel_id: def.id.to_owned(),
        panel_size_defined: def.genes.len(),
        panel_size_mappable: genes.len(),
        missing_genes: reported,
    };
    let panel = Panel { id: def.id, name: def.name, group: def.group, genes, missing };
    (panel, audit)
}

/// The built-in panels mapped onto the symbols of a gene index.
pub open spec fn loaded_panels(species: Species, symbols: Map<Seq<char>, u32>) -> Seq<PanelView> {
    builtin_panel_table().map_values(|def: PanelDefView| mapped_panel(def, species, symbols))
}

/// The audits of the built-in panels mapped onto the symbols of a gene
/// index.
pub open spec fn loaded_audits(species: Species, symbols: Map<Seq<char>, u32>) -> Seq<
    PanelAuditView,
> {
    builtin_panel_table().map_values(|def: PanelDefView| panel_audit(def, species, symbols))
}

/// Maps the built-in panels onto a gene index, in their fixed order, and
/// says of each how much of it could be mapped.
pub fn load_panels(species: Species, gene_index: &GeneIndex) -> (r: (PanelSet, Vec<PanelAudit>))
    ensures
        panel_views(r.0.panels@) == loaded_panels(species, symbol_places(gene_index.symbols())),
        audit_views(r.1@) == loaded_audits(species, symbol_places(gene_index.symbols())),
{
    let defs: Vec<PanelDef> = builtin_panels();
    let symbol_map: SymbolMap = build_symbol_map(gene_index);
    let ghost table = builtin_panel_table();
    let ghost symbols = symbol_places(gene_index.symbols());
    let mut panels: Vec<Panel> = Vec::new();
    let mut audits: Vec<PanelAudit> = Vec::new();
    let mut i: usize = 0;
    while i < defs.len()
        invariant
            i <= defs@.len(),
            panel_def_views(defs@) == table,
            symbol_map@ == symbols,
            panels@.len() == i,
            audits@.len() == i,
            forall|k: int|
                0 <= k < i ==> (#[trigger] panels@[k])@ == mapped_panel(table[k], species, symbols),
            forall|k: int|
                0 <= k < i ==> (#[trigger] audits@[k])@ == panel_audit(table[k], species, symbols),
        decreases defs@.len() - i,
    {
        proof {
            assert(table[i as int] == defs@[i as int]@);
        }
        let (panel, audit) = map_panel(&defs[i], species, &symbol_map);
        panels.push(panel);
        audits.push(audit);
        i += 1;
    }
    proof {
        assert(panel_views(panels@) =~= loaded_panels(species, symbols));
        assert(audit_views(audits@) =~= loaded_audits(species, symbols));
    }
    (PanelSet { panels }, audits)
}

} // verus!
