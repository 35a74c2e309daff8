//! Gene panels and their mapping onto a gene index.

use vstd::prelude::*;
use crate::panels::defs::PanelGroup;

pub mod defs;
pub mod loader;
pub mod mapping;

verus! {

/// A panel mapped onto a gene index: the identifiers of the genes that the
/// index has, and the symbols of those that it lacks.
#[derive(Debug, Clone)]
pub struct Panel {
    pub id: &'static str,
    pub name: &'static str,
    pub group: PanelGroup,
    pub genes: Vec<u32>,
    pub missing: Vec<String>,
}

/// The mapped panels, in the order of their definitions.
#[derive(Debug, Clone)]
pub struct PanelSet {
    pub panels: Vec<Panel>,
}

/// How much of a panel could be mapped.
#[derive(Debug, Clone)]
pub struct PanelAudit {
    pub panel_id: String,
    pub panel_size_defined: usize,
    pub panel_size_mappable: usize,
    pub missing_genes: Vec<String>,
}

/// The genes of the panels of a set, panel by panel.
pub open spec fn panel_genes(panels: Seq<Panel>) -> Seq<Seq<u32>> {
    panels.map_values(|p: Panel| p.genes@)
}

/// The place `p`, once for each time that gene `g` stands among `genes`.
pub open spec fn hits_in_panel(genes: Seq<u32>, g: int, p: usize) -> Seq<usize>
    decreases genes.len(),
{
    if genes.len() == 0 {
        Seq::empty()
    } else {
        hits_in_panel(genes.drop_last(), g, p) + (if genes.last() == g {
            seq![p]
        } else {
            Seq::empty()
        })
    }
}

/// The places of the panels that hold gene `g`, in panel order, each as
/// often as the panel names the gene.
pub open spec fn panels_of_gene(panels: Seq<Seq<u32>>, g: int) -> Seq<usize>
    decreases panels.len(),
{
    if panels.len() == 0 {
        Seq::empty()
    } else {
        panels_of_gene(panels.drop_last(), g) + hits_in_panel(
            panels.last(),
            g,
            (panels.len() - 1) as usize,
        )
    }
}

/// For every gene identifier below `n_genes`, the places of the panels
/// that hold the gene. Genes of a panel that are no gene identifier below
/// `n_genes` are passed over.
pub fn gene_to_panels(panel_set: &PanelSet, n_genes: usize) -> (out: Vec<Vec<usize>>)
    ensures
        out@.len() == n_genes,
        forall|g: int|
            0 <= g < n_genes ==> (#[trigger] out@[g])@ == panels_of_gene(
                panel_genes(panel_set.panels@),
                g,
            ),
{
    let ghost all = panel_genes(panel_set.panels@);
    let mut out: Vec<Vec<usize>> = Vec::new();
    let mut g: usize = 0;
    while g < n_genes
        invariant
            g <= n_genes,
            out@.len() == g,
            forall|k: int| 0 <= k < g ==> (#[trigger] out@[k])@ == Seq::<usize>::empty(),
        decreases n_genes - g,
    {
        out.push(Vec::new());
        g += 1;
    }
    let mut p: usize = 0;
    proof {
        assert(all.take(0) =~= Seq::<Seq<u32>>::empty());
    }
    while p < panel_set.panels.len()
        invariant
            p <= panel_set.panels@.len(),
            all == panel_genes(panel_set.panels@),
            out@.len() == n_genes,
            forall|k: int|
                0 <= k < n_genes ==> (#[trigger] out@[k])@ == panels_of_gene(all.take(p as int), k),
        decreases panel_set.panels@.len() - p,
    {
        let genes: &Vec<u32> = &panel_set.panels[p].genes;
        let mut i: usize = 0;
        proof {
            assert(all[p as int] == genes@);
            assert(genes@.take(0) =~= Seq::<u32>::empty());
            assert forall|k: int| 0 <= k < n_genes implies (#[trigger] out@[k])@ == panels_of_gene(
                all.take(p as int),
                k,
            ) + hits_in_panel(genes@.take(0), k, p) by {}
        }
        while i < genes.len()
            invariant
                i <= genes@.len(),
                out@.len() == n_genes,
                forall|k: int|
                    0 <= k < n_genes ==> (#[trigger] out@[k])@ == panels_of_gene(
                        all.take(p as int),
                        k,
                    ) + hits_in_panel(genes@.take(i as int), k, p),
            decreases genes@.len() - i,
        {
            let gene: usize = genes[i] as usize;
            let ghost before = out@;
            proof {
                assert(genes@.take(i + 1).drop_last() =~= genes@.take(i as int));
                assert(genes@.take(i + 1).last() == genes@[i as int]);
            }
            if gene < n_genes {
                out[gene].push(p);
            }
            proof {
                assert forall|k: int| 0 <= k < n_genes implies (#[trigger] out@[k])@
                    == panels_of_gene(all.take(p as int), k) + hits_in_panel(
                    genes@.take(i + 1),
                    k,
                    p,
                ) by {
                    let shorter = panels_of_gene(all.take(p as int), k) + hits_in_panel(
                        genes@.take(i as int),
                        k,
                        p,
                    );
                    assert(before[k]@ == shorter);
                    if k == gene {
                        assert(out@[k]@ =~= shorter.push(p));
                        assert(shorter.push(p) =~= panels_of_gene(all.take(p as int), k) + (
                        hits_in_panel(genes@.take(i as int), k, p) + seq![p]));
                    } else {
                        assert(out@[k] == before[k]);
                        assert(hits_in_panel(genes@.take(i as int), k, p) + Seq::<usize>::empty()
                            =~= hits_in_panel(genes@.take(i as int), k, p));
                    }
                }
            }
            i += 1;
        }
        proof {
            assert(genes@.take(i as int) =~= genes@);
            assert(all.take(p + 1).drop_last() =~= all.take(p as int));
            assert(all.take(p + 1).last() == genes@);
        }
        p += 1;
    }
    proof {
        assert(all.take(p as int) =~= all);
    }
    out
}

} // verus!
