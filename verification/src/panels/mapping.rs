//! Mapping of panel symbols onto gene identifiers.

use vstd::prelude::*;
use vstd::hash_map::StringHashMap;
use crate::input::features::{ascii_upper_seq, chars_ascii_upper};
use crate::input::{GeneIndex, Species};
use crate::text::{chars_of, str_eq, string_of, trim, trim_chars};

verus! {

/// The symbols of a gene index with their identifiers, to look gene
/// identifiers up by symbol.
pub struct SymbolMap {
    pub places: StringHashMap<u32>,
}

impl View for SymbolMap {
    type V = Map<Seq<char>, u32>;

    open spec fn view(&self) -> Map<Seq<char>, u32> {
        self.places@
    }
}

/// The identifier of every symbol: its place among the symbols, as far as
/// it fits 32 bits; of two places of one symbol the last counts.
pub open spec fn symbol_places(symbols: Seq<Seq<char>>) -> Map<Seq<char>, u32>
    decreases symbols.len(),
{
    if symbols.len() == 0 {
        Map::empty()
    } else {
        symbol_places(symbols.drop_last()).insert(
            symbols.last(),
            ((symbols.len() - 1) % 0x1_0000_0000) as u32,
        )
    }
}

/// The identifier that a symbol map gives for a symbol, if it holds the
/// symbol.
pub open spec fn lookup(places: Map<Seq<char>, u32>, symbol: Seq<char>) -> Option<u32> {
    if places.contains_key(symbol) {
        Some(places[symbol])
    } else {
        None
    }
}

/// The form in which a panel symbol is looked up: trimmed and in upper
/// case.
pub open spec fn panel_symbol(s: Seq<char>) -> Seq<char> {
    ascii_upper_seq(trim(s))
}

/// The pairs of human symbol and mouse symbol, in the order in which they
/// are tried.
pub open spec fn mouse_table() -> Seq<(Seq<char>, Seq<char>)> {
    seq![
        ("ATR"@, "Atr"@),
        ("ATM"@, "Atm"@),
        ("CHEK1"@, "Chek1"@),
        ("CHEK2"@, "Chek2"@),
        ("RPA1"@, "Rpa1"@),
        ("RPA2"@, "Rpa2"@),
        ("RPA3"@, "Rpa3"@),
        ("RAD17"@, "Rad17"@),
        ("CLSPN"@, "Clspn"@),
        ("TIMELESS"@, "Timeless"@),
        ("TIPIN"@, "Tipin"@),
        ("BRCA1"@, "Brca1"@),
        ("BRCA2"@, "Brca2"@),
        ("RAD51"@, "Rad51"@),
        ("RAD51B"@, "Rad51b"@),
        ("RAD51C"@, "Rad51c"@),
        ("RAD51D"@, "Rad51d"@),
        ("PALB2"@, "Palb2"@),
        ("BARD1"@, "Bard1"@),
        ("RAD52"@, "Rad52"@),
        ("LIG4"@, "Lig4"@),
        ("XRCC4"@, "Xrcc4"@),
        ("XRCC5"@, "Xrcc5"@),
        ("XRCC6"@, "Xrcc6"@),
        ("PRKDC"@, "Prkdc"@),
        ("NHEJ1"@, "Nhej1"@),
        ("PNKP"@, "Pnkp"@),
        ("CBX1"@, "Cbx1"@),
        ("CBX3"@, "Cbx3"@),
        ("CBX5"@, "Cbx5"@),
        ("SUV39H1"@, "Suv39h1"@),
        ("SUV39H2"@, "Suv39h2"@),
        ("SETDB1"@, "Setdb1"@),
        ("EHMT2"@, "Ehmt2"@),
        ("ARID1A"@, "Arid1a"@),
        ("ARID1B"@, "Arid1b"@),
        ("KDM6A"@, "Kdm6a"@),
        ("KAT2B"@, "Kat2b"@),
        ("EP300"@, "Ep300"@),
        ("MCM2"@, "Mcm2"@),
        ("MCM3"@, "Mcm3"@),
        ("MCM4"@, "Mcm4"@),
        ("MCM5"@, "Mcm5"@),
        ("MCM6"@, "Mcm6"@),
        ("MCM7"@, "Mcm7"@),
        ("CDC45"@, "Cdc45"@),
        ("GINS1"@, "Gins1"@),
        ("TP53"@, "Trp53"@),
        ("CDKN1A"@, "Cdkn1a"@),
        ("HLA-A"@, "H2-K1"@),
        ("HLA-B"@, "H2-D1"@),
        ("HLA-C"@, "H2-Q7"@),
        ("HLA-DRA"@, "H2-AA"@),
        ("HLA-DRB1"@, "H2-AB1"@),
    ]
}

/// The place of the first pair at or after `from` whose human symbol is
/// `symbol`, or the length of the table where there is none.
pub open spec fn first_pair(table: Seq<(Seq<char>, Seq<char>)>, symbol: Seq<char>, from: int) -> int
    decreases table.len() - from,
{
    if from < 0 || from >= table.len() {
        table.len() as int
    } else if table[from].0 == symbol {
        from
    } else {
        first_pair(table, symbol, from + 1)
    }
}

/// The mouse symbol for a human symbol, where the table has one.
pub open spec fn mouse_symbol(symbol: Seq<char>) -> Option<Seq<char>> {
    let at = first_pair(mouse_table(), symbol, 0);
    if at < mouse_table().len() {
        Some(mouse_table()[at].1)
    } else {
        None
    }
}

/// The identifier of a panel symbol for a species: that of the symbol
/// itself where the map holds it; else, for mouse, that of its mouse symbol
/// where the table has one and the map holds it; else nothing.
pub open spec fn mapped_symbol(
    species: Species,
    symbol: Seq<char>,
    places: Map<Seq<char>, u32>,
) -> Option<u32> {
    let sym = panel_symbol(symbol);
    match lookup(places, sym) {
        Some(id) => Some(id),
        None => match species {
            Species::Mouse => match mouse_symbol(sym) {
                Some(mapped) => lookup(places, mapped),
                None => None,
            },
            _ => None,
        },
    }
}

/// The symbol map of a gene index.
pub fn build_symbol_map(gene_index: &GeneIndex) -> (map: SymbolMap)
    ensures
        map@ == symbol_places(gene_index.symbols()),
{
    let ghost symbols = gene_index.symbols();
    let mut places: StringHashMap<u32> = StringHashMap::new();
    let mut i: usize = 0;
    proof {
        assert(symbols.take(0) =~= Seq::<Seq<char>>::empty());
    }
    while i < gene_index.symbols_by_gene_id.len()
        invariant
            i <= gene_index.symbols_by_gene_id@.len(),
            symbols == gene_index.symbols(),
            places@ == symbol_places(symbols.take(i as int)),
        decreases gene_index.symbols_by_gene_id@.len() - i,
    {
        let symbol: String = gene_index.symbols_by_gene_id[i].clone();
        proof {
            assert(symbols.take(i + 1).drop_last() =~= symbols.take(i as int));
            assert(symbols.take(i + 1).last() == symbol@);
        }
        places.insert(symbol, (i as u64 % 0x1_0000_0000) as u32);
        i += 1;
    }
    proof {
        assert(symbols.take(i as int) =~= symbols);
    }
    SymbolMap { places }
}

/// Looks a symbol up in a symbol map.
pub fn lookup_symbol(map: &SymbolMap, symbol: &str) -> (r: Option<u32>)
    ensures
        r == lookup(map@, symbol@),
{
    match map.places.get(symbol) {
        Some(id) => Some(*id),
        None => None,
    }
}

/// Puts a panel symbol in the form in which it is looked up.
pub fn normalize_symbol(s: &str) -> (r: String)
    ensures
        r@ == panel_symbol(s@),
{
    let chars: Vec<char> = chars_of(s);
    let trimmed: Vec<char> = trim_chars(chars.as_slice());
    let upper: Vec<char> = chars_ascii_upper(trimmed.as_slice());
    string_of(upper.as_slice())
}

/// The texts of a sequence of pairs of string slices.
pub open spec fn pair_views(v: Seq<(&'static str, &'static str)>) -> Seq<(Seq<char>, Seq<char>)> {
    v.map_values(|p: (&'static str, &'static str)| (p.0@, p.1@))
}

/// The table of human and mouse symbols.
pub fn mouse_pairs() -> (table: Vec<(&'static str, &'static str)>)
    ensures
        pair_views(table@) == mouse_table(),
{
    let mut table: Vec<(&'static str, &'static str)> = Vec::new();
    table.push(("ATR", "Atr"));
    table.push(("ATM", "Atm"));
    table.push(("CHEK1", "Chek1"));
    table.push(("CHEK2", "Chek2"));
    table.push(("RPA1", "Rpa1"));
    table.push(("RPA2", "Rpa2"));
    table.push(("RPA3", "Rpa3"));
    table.push(("RAD17", "Rad17"));
    table.push(("CLSPN", "Clspn"));
    table.push(("TIMELESS", "Timeless"));
    table.push(("TIPIN", "Tipin"));
    table.push(("BRCA1", "Brca1"));
    table.push(("BRCA2", "Brca2"));
    table.push(("RAD51", "Rad51"));
    table.push(("RAD51B", "Rad51b"));
    table.push(("RAD51C", "Rad51c"));
    table.push(("RAD51D", "Rad51d"));
    table.push(("PALB2", "Palb2"));
    table.push(("BARD1", "Bard1"));
    table.push(("RAD52", "Rad52"));
    table.push(("LIG4", "Lig4"));
    table.push(("XRCC4", "Xrcc4"));
    table.push(("XRCC5", "Xrcc5"));
    table.push(("XRCC6", "Xrcc6"));
    table.push(("PRKDC", "Prkdc"));
    table.push(("NHEJ1", "Nhej1"));
    table.push(("PNKP", "Pnkp"));
    table.push(("CBX1", "Cbx1"));
    table.push(("CBX3", "Cbx3"));
    table.push(("CBX5", "Cbx5"));
    table.push(("SUV39H1", "Suv39h1"));
    table.push(("SUV39H2", "Suv39h2"));
    table.push(("SETDB1", "Setdb1"));
    table.push(("EHMT2", "Ehmt2"));
    table.push(("ARID1A", "Arid1a"));
    table.push(("ARID1B", "Arid1b"));
    table.push(("KDM6A", "Kdm6a"));
    table.push(("KAT2B", "Kat2b"));
    table.push(("EP300", "Ep300"));
    table.push(("MCM2", "Mcm2"));
    table.push(("MCM3", "Mcm3"));
    table.push(("MCM4", "Mcm4"));
    table.push(("MCM5", "Mcm5"));
    table.push(("MCM6", "Mcm6"));
    table.push(("MCM7", "Mcm7"));
    table.push(("CDC45", "Cdc45"));
    table.push(("GINS1", "Gins1"));
    table.push(("TP53", "Trp53"));
    table.push(("CDKN1A", "Cdkn1a"));
    table.push(("HLA-A", "H2-K1"));
    table.push(("HLA-B", "H2-D1"));
    table.push(("HLA-C", "H2-Q7"));
    table.push(("HLA-DRA", "H2-AA"));
    table.push(("HLA-DRB1", "H2-AB1"));
    proof {
        assert(pair_views(table@) =~= mouse_table());
    }
    table
}

/// The mouse symbol for a human symbol, where the table has one.
pub fn mouse_mapping(sym: &str) -> (r: Option<&'static str>)
    ensures
        match r {
            Some(m) => mouse_symbol(sym@) == Some(m@),
            None => mouse_symbol(sym@) is None,
        },
{
    let table: Vec<(&'static str, &'static str)> = mouse_pairs();
    let ghost views = pair_views(table@);
    let mut i: usize = 0;
    while i < table.len()
        invariant
            i <= table@.len(),
            views == pair_views(table@),
            views == mouse_table(),
            first_pair(views, sym@, 0) == first_pair(views, sym@, i as int),
        decreases table@.len() - i,
    {
        proof {
            assert(views[i as int] == (table@[i as int].0@, table@[i as int].1@));
        }
        if str_eq(table[i].0, sym) {
            return Some(table[i].1);
        }
        i += 1;
    }
    None
}

/// Maps a panel symbol to a gene identifier.
pub fn map_symbol(species: Species, symbol: &str, symbol_map: &SymbolMap) -> (r: Option<u32>)
    ensures
        r == mapped_symbol(species, symbol@, symbol_map@),
{
    let sym: String = normalize_symbol(symbol);
    match lookup_symbol(symbol_map, sym.as_str()) {
        Some(id) => { return Some(id); },
        None => {},
    }
    match species {
        Species::Human => None,
        Species::Unknown => None,
        Species::Mouse => {
            match mouse_mapping(sym.as_str()) {
                Some(mapped) => lookup_symbol(symbol_map, mapped),
                None => None,
            }
        },
    }
}

} // verus!
