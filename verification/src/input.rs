//! Input sources and the records built from them.

use vstd::prelude::*;
use std::collections::HashSet;
use vstd::hash_map::StringHashMap;
use vstd::std_specs::hash::group_hash_axioms;
use crate::input::barcodes::{barcodes_outcome, parse_barcodes};
use crate::input::features::{
    feature_views, features_outcome, normalize_symbol, normalized_symbol, parse_features, Feature,
    FeatureView,
};
use crate::input::meta::{load_meta, meta_outcome, CellMeta, CellMetaView};
use crate::input::organelle_bin::{
    container_outcome, read_organelle_bin, OrganelleBin, OrganelleBinView,
};
use crate::paths::{join_path, joined_path};
use crate::text::{decimal, numbered_message, str_eq};

pub mod barcodes;
pub mod cache;
pub mod features;
pub mod meta;
pub mod mtx;
pub mod mtx_order;
pub mod organelle_bin;
pub mod prefix;

verus! {

/// Why an input was not accepted.
#[derive(Debug)]
pub enum InputError {
    /// The operating system could not read or write; the text is its account.
    Io(String),
    /// An expected file was found under none of its names.
    MissingInput(String),
    /// Well-formed bytes that break a declared invariant.
    InvalidInput(String),
    /// Malformed text.
    Parse(String),
}

/// An [`InputError`] with its message as a sequence of characters.
pub enum InputErrorView {
    Io(Seq<char>),
    MissingInput(Seq<char>),
    InvalidInput(Seq<char>),
    Parse(Seq<char>),
}

impl View for InputError {
    type V = InputErrorView;

    open spec fn view(&self) -> InputErrorView {
        match self {
            InputError::Io(m) => InputErrorView::Io(m@),
            InputError::MissingInput(m) => InputErrorView::MissingInput(m@),
            InputError::InvalidInput(m) => InputErrorView::InvalidInput(m@),
            InputError::Parse(m) => InputErrorView::Parse(m@),
        }
    }
}

impl InputErrorView {
    /// The line that describes the error to a person.
    pub open spec fn text(self) -> Seq<char> {
        match self {
            InputErrorView::Io(m) => "IO error: "@ + m,
            InputErrorView::MissingInput(m) => "missing input: "@ + m,
            InputErrorView::InvalidInput(m) => "invalid input: "@ + m,
            InputErrorView::Parse(m) => "parse error: "@ + m,
        }
    }
}

impl InputError {
    /// An invalid-input error with the given literal message.
    pub fn invalid(msg: &str) -> (e: InputError)
        ensures
            e@ == InputErrorView::InvalidInput(msg@),
    {
        InputError::InvalidInput(msg.to_owned())
    }

    /// A parse error with the given literal message.
    pub fn parse(msg: &str) -> (e: InputError)
        ensures
            e@ == InputErrorView::Parse(msg@),
    {
        InputError::Parse(msg.to_owned())
    }

    /// A missing-input error with the given literal message.
    pub fn missing(msg: &str) -> (e: InputError)
        ensures
            e@ == InputErrorView::MissingInput(msg@),
    {
        InputError::MissingInput(msg.to_owned())
    }

    /// The line that describes the error to a person.
    pub fn to_string(&self) -> (s: String)
        ensures
            s@ == self@.text(),
    {
        match self {
            InputError::Io(m) => String::from_str("IO error: ").concat(m.as_str()),
            InputError::MissingInput(m) => String::from_str("missing input: ").concat(m.as_str()),
            InputError::InvalidInput(m) => String::from_str("invalid input: ").concat(m.as_str()),
            InputError::Parse(m) => String::from_str("parse error: ").concat(m.as_str()),
        }
    }
}

/// The reference species a feature set is attributed to.
#[derive(Debug, Clone, Copy, PartialEq, Eq, Structural)]
pub enum Species {
    Human,
    Mouse,
    Unknown,
}

/// Where an input bundle came from.
#[derive(Debug, Clone, Copy, PartialEq, Eq, Structural)]
pub enum InputSourceKind {
    TenX,
    OrganelleBin,
}

/// The gene identifiers of a feature list: one optional identifier per
/// feature row, and the canonical symbol of each identifier.
#[derive(Debug, Clone)]
pub struct GeneIndex {
    pub gene_id_by_feature: Vec<Option<usize>>,
    pub symbols_by_gene_id: Vec<String>,
}

/// The texts of a sequence of strings.
pub open spec fn string_views(v: Seq<String>) -> Seq<Seq<char>> {
    v.map_values(|s: String| s@)
}

/// The normalized symbols of a feature list, row by row.
pub open spec fn norms_of(features: Seq<Feature>) -> Seq<Seq<char>> {
    features.map_values(|f: Feature| f.symbol_norm@)
}

impl GeneIndex {
    /// The canonical symbols, by gene identifier.
    pub open spec fn symbols(&self) -> Seq<Seq<char>> {
        string_views(self.symbols_by_gene_id@)
    }

    /// Every identifier that a feature has names a symbol, and no symbol
    /// occurs twice.
    pub open spec fn wf(&self) -> bool {
        &&& forall|i: int|
            0 <= i < self.gene_id_by_feature@.len() ==> match #[trigger] self.gene_id_by_feature@[i] {
                Some(g) => g < self.symbols_by_gene_id@.len(),
                None => true,
            }
        &&& self.symbols().no_duplicates()
    }
}

/// The distinct non-empty symbols of `norms`, each at the place of its first
/// appearance.
pub open spec fn distinct_symbols(norms: Seq<Seq<char>>) -> Seq<Seq<char>>
    decreases norms.len(),
{
    if norms.len() == 0 {
        Seq::empty()
    } else {
        let before = distinct_symbols(norms.drop_last());
        let s = norms.last();
        if s.len() == 0 || before.contains(s) {
            before
        } else {
            before.push(s)
        }
    }
}

/// Whether `id` is what a feature with normalized symbol `norm` gets under
/// the symbol table `symbols`: nothing for an empty symbol, else the place
/// of the symbol in the table.
pub open spec fn is_gene_id_of(symbols: Seq<Seq<char>>, norm: Seq<char>, id: Option<usize>) -> bool {
    match id {
        None => norm.len() == 0,
        Some(g) => norm.len() > 0 && g < symbols.len() && symbols[g as int] == norm,
    }
}

/// The first seen wins: the symbols of the beginning of a feature list
/// keep their identifiers in the whole list, which only adds symbols after
/// them.
pub proof fn lemma_distinct_symbols_prefix(norms: Seq<Seq<char>>, k: int)
    requires
        0 <= k <= norms.len(),
    ensures
        distinct_symbols(norms.take(k)).len() <= distinct_symbols(norms).len(),
        distinct_symbols(norms.take(k)) == distinct_symbols(norms).take(
            distinct_symbols(norms.take(k)).len() as int,
        ),
    decreases norms.len(),
{
    if k == norms.len() {
        assert(norms.take(k) =~= norms);
        assert(distinct_symbols(norms).take(distinct_symbols(norms).len() as int)
            =~= distinct_symbols(norms));
    } else {
        lemma_distinct_symbols_prefix(norms.drop_last(), k);
        assert(norms.drop_last().take(k) =~= norms.take(k));
        let short = distinct_symbols(norms.take(k));
        let before = distinct_symbols(norms.drop_last());
        assert(short =~= distinct_symbols(norms).take(short.len() as int));
    }
}

/// Whether the map from symbol to identifier holds every symbol of the
/// table, at its place, and nothing else.
pub open spec fn holds_places(places: Map<Seq<char>, usize>, table: Seq<Seq<char>>) -> bool {
    &&& forall|s: Seq<char>|
        places.contains_key(s) ==> #[trigger] places[s] < table.len() && table[places[s] as int] == s
    &&& forall|g: int| 0 <= g < table.len() ==> places.contains_key(#[trigger] table[g])
}

/// Builds the gene index of a feature list. A feature with an empty
/// normalized symbol gets no identifier; the others get the identifier of
/// their symbol, and identifiers are given in the order in which symbols are
/// first seen.
pub fn build_gene_index(features: &[Feature]) -> (index: GeneIndex)
    ensures
        index.wf(),
        index.symbols() == distinct_symbols(norms_of(features@)),
        index.gene_id_by_feature@.len() == features@.len(),
        forall|i: int|
            0 <= i < features@.len() ==> is_gene_id_of(
                index.symbols(),
                features@[i].symbol_norm@,
                #[trigger] index.gene_id_by_feature@[i],
            ),
{
    let mut symbols_by_gene_id: Vec<String> = Vec::new();
    let mut symbol_to_gene_id: StringHashMap<usize> = StringHashMap::new();
    let mut gene_id_by_feature: Vec<Option<usize>> = Vec::new();
    let ghost norms = norms_of(features@);
    let mut idx: usize = 0;
    proof {
        assert(norms.take(0) =~= Seq::<Seq<char>>::empty());
        assert(string_views(symbols_by_gene_id@) =~= Seq::<Seq<char>>::empty());
    }
    while idx < features.len()
        invariant
            idx <= features.len(),
            norms == norms_of(features@),
            gene_id_by_feature@.len() == idx,
            string_views(symbols_by_gene_id@) == distinct_symbols(norms.take(idx as int)),
            string_views(symbols_by_gene_id@).no_duplicates(),
            holds_places(symbol_to_gene_id@, string_views(symbols_by_gene_id@)),
            forall|i: int|
                0 <= i < idx ==> is_gene_id_of(
                    string_views(symbols_by_gene_id@),
                    features@[i].symbol_norm@,
                    #[trigger] gene_id_by_feature@[i],
                ),
        decreases features.len() - idx,
    {
        let feature: &Feature = &features[idx];
        let ghost table = string_views(symbols_by_gene_id@);
        let ghost places = symbol_to_gene_id@;
        proof {
            assert(norms.take(idx + 1).drop_last() =~= norms.take(idx as int));
            assert(norms.take(idx + 1).last() == feature.symbol_norm@);
        }
        if feature.symbol_norm.as_str().is_empty() {
            gene_id_by_feature.push(None);
        } else {
            let found: Option<usize> = match symbol_to_gene_id.get(feature.symbol_norm.as_str()) {
                Some(at) => Some(*at),
                None => None,
            };
            match found {
                Some(at) => {
                    proof {
                        assert(table.contains(feature.symbol_norm@));
                    }
                    gene_id_by_feature.push(Some(at));
                },
                None => {
                    let gene_id: usize = symbols_by_gene_id.len();
                    symbols_by_gene_id.push(feature.symbol_norm.clone());
                    symbol_to_gene_id.insert(feature.symbol_norm.clone(), gene_id);
                    gene_id_by_feature.push(Some(gene_id));
                    proof {
                        let longer = table.push(feature.symbol_norm@);
                        assert(!table.contains(feature.symbol_norm@));
                        assert(string_views(symbols_by_gene_id@) =~= longer);
                        assert(holds_places(symbol_to_gene_id@, longer)) by {
                            assert(longer[gene_id as int] == feature.symbol_norm@);
                            assert forall|s: Seq<char>|
                                symbol_to_gene_id@.contains_key(s) implies symbol_to_gene_id@[s]
                                < longer.len() && longer[symbol_to_gene_id@[s] as int] == s by {
                                if s != feature.symbol_norm@ {
                                    assert(places.contains_key(s));
                                    assert(longer[places[s] as int] == table[places[s] as int]);
                                }
                            }
                            assert forall|g: int| 0 <= g < longer.len() implies
                                symbol_to_gene_id@.contains_key(#[trigger] longer[g]) by {
                                if g < table.len() {
                                    assert(longer[g] == table[g]);
                                    assert(places.contains_key(table[g]));
                                }
                            }
                        }
                    }
                },
            }
        }
        idx += 1;
    }
    proof {
        assert(norms.take(idx as int) =~= norms);
    }
    GeneIndex { gene_id_by_feature, symbols_by_gene_id }
}

/// The feature rows that add no gene to a gene index, for a caller to
/// report: the rows whose symbol an earlier row had, and the rows whose
/// symbol is empty. Each list holds row positions in rising order, and its
/// length is the count to report.
#[derive(Debug, Clone)]
pub struct GeneIndexReport {
    /// The rows that stand for the gene of an earlier row.
    pub aliased_rows: Vec<usize>,
    /// The rows without identifier.
    pub unmapped_rows: Vec<usize>,
}

/// Whether row `i` has an identifier that an earlier row has too.
pub open spec fn is_aliased_row(ids: Seq<Option<usize>>, i: int) -> bool {
    0 <= i < ids.len() && ids[i] is Some && ids.take(i).contains(ids[i])
}

/// Whether row `i` has no identifier.
pub open spec fn is_unmapped_row(ids: Seq<Option<usize>>, i: int) -> bool {
    0 <= i < ids.len() && ids[i] is None
}

/// The rows that have the identifier of an earlier row, in rising order.
pub open spec fn aliased_rows(ids: Seq<Option<usize>>) -> Seq<usize>
    decreases ids.len(),
{
    if ids.len() == 0 {
        Seq::empty()
    } else {
        let before = aliased_rows(ids.drop_last());
        if is_aliased_row(ids, ids.len() - 1) {
            before.push((ids.len() - 1) as usize)
        } else {
            before
        }
    }
}

/// The rows without identifier, in rising order.
pub open spec fn unmapped_rows(ids: Seq<Option<usize>>) -> Seq<usize>
    decreases ids.len(),
{
    if ids.len() == 0 {
        Seq::empty()
    } else {
        let before = unmapped_rows(ids.drop_last());
        if is_unmapped_row(ids, ids.len() - 1) {
            before.push((ids.len() - 1) as usize)
        } else {
            before
        }
    }
}

/// Lists the feature rows of a gene index that add no gene: those that
/// stand for the gene of an earlier row, and those without identifier.
pub fn report_gene_index(index: &GeneIndex) -> (report: GeneIndexReport)
    ensures
        report.aliased_rows@ == aliased_rows(index.gene_id_by_feature@),
        report.unmapped_rows@ == unmapped_rows(index.gene_id_by_feature@),
{
    broadcast use group_hash_axioms;

    let ghost ids = index.gene_id_by_feature@;
    let mut seen: HashSet<usize> = HashSet::new();
    let mut aliased_rows_found: Vec<usize> = Vec::new();
    let mut unmapped_rows_found: Vec<usize> = Vec::new();
    let mut row: usize = 0;
    proof {
        assert(ids.take(0) =~= Seq::<Option<usize>>::empty());
    }
    while row < index.gene_id_by_feature.len()
        invariant
            row <= ids.len(),
            ids == index.gene_id_by_feature@,
            aliased_rows_found@ == aliased_rows(ids.take(row as int)),
            unmapped_rows_found@ == unmapped_rows(ids.take(row as int)),
            forall|g: usize| seen@.contains(g) <==> ids.take(row as int).contains(Some(g)),
        decreases ids.len() - row,
    {
        let ghost so_far = ids.take(row as int);
        let ghost longer = ids.take(row + 1);
        let ghost seen_before = seen@;
        proof {
            assert(longer.drop_last() =~= so_far);
            assert(longer.last() == ids[row as int]);
            assert(longer.take(row as int) =~= so_far);
        }
        match index.gene_id_by_feature[row] {
            None => {
                unmapped_rows_found.push(row);
            },
            Some(g) => {
                let fresh: bool = seen.insert(g);
                if !fresh {
                    aliased_rows_found.push(row);
                }
            },
        }
        proof {
            assert forall|g: usize| seen@.contains(g) <==> longer.contains(Some(g)) by {
                if longer.contains(Some(g)) {
                    let j = choose|j: int| 0 <= j < longer.len() && longer[j] == Some(g);
                    if j < row {
                        assert(so_far[j] == Some(g));
                    }
                }
                if seen_before.contains(g) {
                    let j = choose|j: int| 0 <= j < so_far.len() && so_far[j] == Some(g);
                    assert(longer[j] == Some(g));
                }
                if ids[row as int] == Some(g) {
                    assert(longer[row as int] == Some(g));
                }
            }
        }
        row += 1;
    }
    proof {
        assert(ids.take(row as int) =~= ids);
    }
    GeneIndexReport { aliased_rows: aliased_rows_found, unmapped_rows: unmapped_rows_found }
}

/// The rows that a report lists: row `i` is among the aliased rows if and
/// only if it has the identifier of an earlier row, and among the unmapped
/// rows if and only if it has none.
pub proof fn lemma_reported_rows(ids: Seq<Option<usize>>, i: int)
    requires
        ids.len() <= usize::MAX,
    ensures
        (0 <= i <= usize::MAX && aliased_rows(ids).contains(i as usize)) <==> is_aliased_row(ids, i),
        (0 <= i <= usize::MAX && unmapped_rows(ids).contains(i as usize)) <==> is_unmapped_row(
            ids,
            i,
        ),
    decreases ids.len(),
{
    if ids.len() > 0 {
        let shorter = ids.drop_last();
        let last = ids.len() - 1;
        lemma_reported_rows(shorter, i);
        if 0 <= i < last {
            assert(shorter.take(i) =~= ids.take(i));
        }
        let a = aliased_rows(shorter);
        let u = unmapped_rows(shorter);
        if 0 <= i <= usize::MAX {
            if is_aliased_row(ids, last) {
                assert(a.push(last as usize).last() == last as usize);
                let longer = a.push(last as usize);
                if longer.contains(i as usize) && i != last {
                    let j = choose|j: int| 0 <= j < longer.len() && longer[j] == i as usize;
                    assert(a[j] == i as usize);
                }
                if a.contains(i as usize) {
                    let j = choose|j: int| 0 <= j < a.len() && a[j] == i as usize;
                    assert(a.push(last as usize)[j] == i as usize);
                }
            }
            if is_unmapped_row(ids, last) {
                assert(u.push(last as usize).last() == last as usize);
                let longer = u.push(last as usize);
                if longer.contains(i as usize) && i != last {
                    let j = choose|j: int| 0 <= j < longer.len() && longer[j] == i as usize;
                    assert(u[j] == i as usize);
                }
                if u.contains(i as usize) {
                    let j = choose|j: int| 0 <= j < u.len() && u[j] == i as usize;
                    assert(u.push(last as usize)[j] == i as usize);
                }
            }
        }
    }
}

/// The distinct symbols of a list are its non-empty symbols.
pub proof fn lemma_distinct_symbols_hold(norms: Seq<Seq<char>>, s: Seq<char>)
    ensures
        distinct_symbols(norms).contains(s) <==> s.len() > 0 && norms.contains(s),
    decreases norms.len(),
{
    if norms.len() > 0 {
        let shorter = norms.drop_last();
        let before = distinct_symbols(shorter);
        lemma_distinct_symbols_hold(shorter, s);
        assert(norms[norms.len() - 1] == norms.last());
        if norms.contains(s) {
            let j = choose|j: int| 0 <= j < norms.len() && norms[j] == s;
            if j < shorter.len() {
                assert(shorter[j] == s);
            }
        }
        if shorter.contains(s) {
            let j = choose|j: int| 0 <= j < shorter.len() && shorter[j] == s;
            assert(norms[j] == s);
        }
        let last = norms.last();
        if !(last.len() == 0 || before.contains(last)) {
            let longer = before.push(last);
            assert(longer[before.len() as int] == last);
            if longer.contains(s) {
                let j = choose|j: int| 0 <= j < longer.len() && longer[j] == s;
                if j < before.len() {
                    assert(before[j] == s);
                }
            }
            if before.contains(s) {
                let j = choose|j: int| 0 <= j < before.len() && before[j] == s;
                assert(longer[j] == s);
            }
        }
    }
}

/// Whether `ids` are the identifiers that the rows with the normalized
/// symbols `norms` get, as [`build_gene_index`] gives them.
pub open spec fn ids_of_norms(ids: Seq<Option<usize>>, norms: Seq<Seq<char>>) -> bool {
    &&& ids.len() == norms.len()
    &&& forall|i: int|
        0 <= i < norms.len() ==> is_gene_id_of(distinct_symbols(norms), norms[i], #[trigger] ids[i])
}

/// The distinct symbols of a list occur once each.
pub proof fn lemma_distinct_symbols_once(norms: Seq<Seq<char>>)
    ensures
        distinct_symbols(norms).no_duplicates(),
    decreases norms.len(),
{
    if norms.len() > 0 {
        lemma_distinct_symbols_once(norms.drop_last());
    }
}

/// In the index of a feature list a row is aliased if and only if its
/// symbol is not empty and an earlier row has the same symbol, and it is
/// unmapped if and only if its symbol is empty.
pub proof fn lemma_rows_by_symbol(ids: Seq<Option<usize>>, norms: Seq<Seq<char>>, i: int)
    requires
        ids_of_norms(ids, norms),
        0 <= i < norms.len(),
    ensures
        is_aliased_row(ids, i) <==> norms[i].len() > 0 && norms.take(i).contains(norms[i]),
        is_unmapped_row(ids, i) <==> norms[i].len() == 0,
{
    let symbols = distinct_symbols(norms);
    lemma_distinct_symbols_once(norms);
    assert(is_gene_id_of(symbols, norms[i], ids[i]));
    if is_aliased_row(ids, i) {
        let j = choose|j: int| 0 <= j < ids.take(i).len() && ids.take(i)[j] == ids[i];
        assert(is_gene_id_of(symbols, norms[j], ids[j]));
        assert(norms.take(i)[j] == norms[i]);
    }
    if norms[i].len() > 0 && norms.take(i).contains(norms[i]) {
        let j = choose|j: int| 0 <= j < norms.take(i).len() && norms.take(i)[j] == norms[i];
        assert(is_gene_id_of(symbols, norms[j], ids[j]));
        assert(ids.take(i)[j] == ids[i]);
    }
}

/// Every feature row is the first of its gene, aliased to an earlier row,
/// or unmapped: the genes of an index, its aliased rows and its unmapped
/// rows are as many as the feature rows.
pub proof fn lemma_report_counts_every_row(ids: Seq<Option<usize>>, norms: Seq<Seq<char>>)
    requires
        ids_of_norms(ids, norms),
    ensures
        distinct_symbols(norms).len() + aliased_rows(ids).len() + unmapped_rows(ids).len()
            == norms.len(),
    decreases norms.len(),
{
    if norms.len() > 0 {
        let last = norms.len() - 1;
        let shorter = norms.drop_last();
        let fewer = ids.drop_last();
        lemma_distinct_symbols_prefix(norms, last);
        assert(norms.take(last) =~= shorter);
        assert(ids.take(last) =~= fewer);
        assert forall|i: int| 0 <= i < shorter.len() implies is_gene_id_of(
            distinct_symbols(shorter),
            shorter[i],
            #[trigger] fewer[i],
        ) by {
            assert(is_gene_id_of(distinct_symbols(norms), norms[i], ids[i]));
            lemma_distinct_symbols_hold(shorter, shorter[i]);
            lemma_distinct_symbols_once(norms);
            match ids[i] {
                Some(g) => {
                    let at = choose|at: int|
                        0 <= at < distinct_symbols(shorter).len() && distinct_symbols(shorter)[at]
                            == shorter[i];
                    assert(distinct_symbols(norms)[at] == shorter[i]);
                },
                None => {},
            }
        }
        lemma_report_counts_every_row(fewer, shorter);
        lemma_rows_by_symbol(ids, norms, last);
        lemma_distinct_symbols_hold(shorter, norms[last]);
    }
}

/// Whether a normalized symbol is one of the human marker genes.
pub open spec fn is_human_marker(s: Seq<char>) -> bool {
    ||| s == "HLA-A"@
    ||| s == "HLA-B"@
    ||| s == "HLA-C"@
    ||| s == "HLA-DRA"@
    ||| s == "HLA-DRB1"@
    ||| s == "HLA-DPA1"@
    ||| s == "HLA-DPB1"@
    ||| s == "HLA-E"@
    ||| s == "HLA-F"@
    ||| s == "HLA-G"@
}

/// Whether a normalized symbol is one of the mouse marker genes.
pub open spec fn is_mouse_marker(s: Seq<char>) -> bool {
    ||| s == "H2-K1"@
    ||| s == "H2-D1"@
    ||| s == "H2-AB1"@
    ||| s == "H2-AA"@
    ||| s == "H2-EB1"@
    ||| s == "H2-EA"@
    ||| s == "H2-Q7"@
    ||| s == "H2-Q10"@
    ||| s == "H2-T23"@
    ||| s == "H2-M2"@
}

/// How many features carry a human marker symbol.
pub open spec fn human_hits(norms: Seq<Seq<char>>) -> nat
    decreases norms.len(),
{
    if norms.len() == 0 {
        0
    } else {
        human_hits(norms.drop_last()) + (if is_human_marker(norms.last()) { 1nat } else { 0 })
    }
}

/// How many features carry a mouse marker symbol.
pub open spec fn mouse_hits(norms: Seq<Seq<char>>) -> nat
    decreases norms.len(),
{
    if norms.len() == 0 {
        0
    } else {
        mouse_hits(norms.drop_last()) + (if is_mouse_marker(norms.last()) { 1nat } else { 0 })
    }
}

/// Marker hits that a species needs at least.
pub const MIN_MATCHES: usize = 3;

/// Hits by which a species must lead the other.
pub const MIN_DELTA: usize = 2;

/// The species that the two hit counts speak for: one whose count reaches
/// the minimum and leads the other's by the margin, else none.
pub open spec fn species_of_hits(human: nat, mouse: nat) -> Species {
    if human >= MIN_MATCHES && human >= mouse + MIN_DELTA {
        Species::Human
    } else if mouse >= MIN_MATCHES && mouse >= human + MIN_DELTA {
        Species::Mouse
    } else {
        Species::Unknown
    }
}

/// Decides the species from the marker hit counts.
pub fn classify_species(human: usize, mouse: usize) -> (species: Species)
    ensures
        species == species_of_hits(human as nat, mouse as nat),
{
    if human >= MIN_MATCHES && human >= mouse && human - mouse >= MIN_DELTA {
        Species::Human
    } else if mouse >= MIN_MATCHES && mouse >= human && mouse - human >= MIN_DELTA {
        Species::Mouse
    } else {
        Species::Unknown
    }
}

/// Tests a normalized symbol against the human marker set.
pub fn symbol_is_human_marker(s: &str) -> (r: bool)
    ensures
        r == is_human_marker(s@),
{
    str_eq(s, "HLA-A") || str_eq(s, "HLA-B") || str_eq(s, "HLA-C") || str_eq(s, "HLA-DRA")
        || str_eq(s, "HLA-DRB1") || str_eq(s, "HLA-DPA1") || str_eq(s, "HLA-DPB1") || str_eq(
        s,
        "HLA-E",
    ) || str_eq(s, "HLA-F") || str_eq(s, "HLA-G")
}

/// Tests a normalized symbol against the mouse marker set.
pub fn symbol_is_mouse_marker(s: &str) -> (r: bool)
    ensures
        r == is_mouse_marker(s@),
{
    str_eq(s, "H2-K1") || str_eq(s, "H2-D1") || str_eq(s, "H2-AB1") || str_eq(s, "H2-AA")
        || str_eq(s, "H2-EB1") || str_eq(s, "H2-EA") || str_eq(s, "H2-Q7") || str_eq(s, "H2-Q10")
        || str_eq(s, "H2-T23") || str_eq(s, "H2-M2")
}

/// Attributes a feature list to a species by counting its marker genes.
pub fn detect_species(features: &[Feature]) -> (species: Species)
    ensures
        species == species_of_hits(
            human_hits(norms_of(features@)),
            mouse_hits(norms_of(features@)),
        ),
{
    let ghost norms = norms_of(features@);
    let mut human: usize = 0;
    let mut mouse: usize = 0;
    let mut i: usize = 0;
    proof {
        assert(norms.take(0) =~= Seq::<Seq<char>>::empty());
    }
    while i < features.len()
        invariant
            i <= features.len(),
            norms == norms_of(features@),
            human == human_hits(norms.take(i as int)),
            mouse == mouse_hits(norms.take(i as int)),
            human <= i,
            mouse <= i,
        decreases features.len() - i,
    {
        let s: &str = features[i].symbol_norm.as_str();
        proof {
            assert(norms.take(i + 1).drop_last() =~= norms.take(i as int));
            assert(norms.take(i + 1).last() == s@);
        }
        if symbol_is_human_marker(s) {
            human += 1;
        }
        if symbol_is_mouse_marker(s) {
            mouse += 1;
        }
        i += 1;
    }
    proof {
        assert(norms.take(i as int) =~= norms);
    }
    classify_species(human, mouse)
}

/// What a load hands to the pipeline: where the input came from, what it
/// holds, and the gene index built from its features.
#[derive(Debug, Clone)]
pub struct InputBundle {
    pub mtx_path: String,
    pub features_path: String,
    pub barcodes_path: String,
    pub n_cells: usize,
    pub n_features_raw: usize,
    pub n_genes_indexed: usize,
    pub species: Species,
    pub gene_index: GeneIndex,
    pub barcodes: Vec<String>,
    pub meta: Option<CellMeta>,
    pub source: InputSourceKind,
    pub organelle: Option<OrganelleBin>,
    pub shared_bin_path: Option<String>,
}

/// The names under which the matrix file is looked for, in order.
pub open spec fn matrix_names() -> Seq<Seq<char>> {
    seq!["matrix.mtx"@, "matrix.mtx.gz"@]
}

/// The names under which the feature list is looked for, in order.
pub open spec fn features_names() -> Seq<Seq<char>> {
    seq!["features.tsv"@, "features.tsv.gz"@, "genes.tsv"@, "genes.tsv.gz"@]
}

/// The names under which the barcode list is looked for, in order.
pub open spec fn barcodes_names() -> Seq<Seq<char>> {
    seq!["barcodes.tsv"@, "barcodes.tsv.gz"@]
}

/// The place of the first of the first `n` names, at or after `from`, that
/// exists; `n` where none does. A name beyond the flags does not exist.
pub open spec fn first_existing(exists: Seq<bool>, n: int, from: int) -> int
    decreases n - from,
{
    if from < 0 || from >= n {
        n
    } else if from < exists.len() && exists[from] {
        from
    } else {
        first_existing(exists, n, from + 1)
    }
}

/// The path of the first name that exists in a directory, or the given
/// message as a missing-input error where none exists.
pub open spec fn found_path(
    input_dir: Seq<char>,
    names: Seq<Seq<char>>,
    exists: Seq<bool>,
    message: Seq<char>,
) -> Result<Seq<char>, InputErrorView> {
    let at = first_existing(exists, names.len() as int, 0);
    if at < names.len() {
        Ok(joined_path(input_dir, names[at]))
    } else {
        Err(InputErrorView::MissingInput(message))
    }
}

/// Whether a path result is the expected outcome.
pub open spec fn path_result_is(r: Result<String, InputError>, expected: Result<
    Seq<char>,
    InputErrorView,
>) -> bool {
    match r {
        Ok(path) => expected == Ok::<Seq<char>, InputErrorView>(path@),
        Err(e) => expected == Err::<Seq<char>, InputErrorView>(e@),
    }
}

/// Picks the first candidate that exists.
pub fn find_candidate(
    input_dir: &str,
    candidates: &[&'static str],
    exists: &[bool],
    message: &str,
) -> (r: Result<String, InputError>)
    ensures
        path_result_is(
            r,
            found_path(
                input_dir@,
                candidates@.map_values(|s: &'static str| s@),
                exists@,
                message@,
            ),
        ),
{
    let ghost names = candidates@.map_values(|s: &'static str| s@);
    let mut i: usize = 0;
    while i < candidates.len()
        invariant
            i <= candidates@.len(),
            names == candidates@.map_values(|s: &'static str| s@),
            first_existing(exists@, names.len() as int, 0) == first_existing(
                exists@,
                names.len() as int,
                i as int,
            ),
        decreases candidates@.len() - i,
    {
        if i < exists.len() && exists[i] {
            proof {
                assert(names[i as int] == candidates@[i as int]@);
            }
            return Ok(join_path(input_dir, candidates[i]));
        }
        i += 1;
    }
    Err(InputError::missing(message))
}

/// The names under which the matrix file is looked for, in order.
pub fn matrix_candidates() -> (names: Vec<&'static str>)
    ensures
        names@.map_values(|s: &'static str| s@) == matrix_names(),
{
    let mut names: Vec<&'static str> = Vec::new();
    names.push("matrix.mtx");
    names.push("matrix.mtx.gz");
    proof {
        assert(names@.map_values(|s: &'static str| s@) =~= matrix_names());
    }
    names
}

/// The names under which the feature list is looked for, in order.
pub fn features_candidates() -> (names: Vec<&'static str>)
    ensures
        names@.map_values(|s: &'static str| s@) == features_names(),
{
    let mut names: Vec<&'static str> = Vec::new();
    names.push("features.tsv");
    names.push("features.tsv.gz");
    names.push("genes.tsv");
    names.push("genes.tsv.gz");
    proof {
        assert(names@.map_values(|s: &'static str| s@) =~= features_names());
    }
    names
}

/// The names under which the barcode list is looked for, in order.
pub fn barcodes_candidates() -> (names: Vec<&'static str>)
    ensures
        names@.map_values(|s: &'static str| s@) == barcodes_names(),
{
    let mut names: Vec<&'static str> = Vec::new();
    names.push("barcodes.tsv");
    names.push("barcodes.tsv.gz");
    proof {
        assert(names@.map_values(|s: &'static str| s@) =~= barcodes_names());
    }
    names
}

/// The path of the feature list in a directory. `exists` says of each name
/// of [`features_candidates`] whether a file of that name is there.
pub fn find_features_path(input_dir: &str, exists: &[bool]) -> (r: Result<String, InputError>)
    ensures
        path_result_is(
            r,
            found_path(
                input_dir@,
                features_names(),
                exists@,
                "missing features.tsv(.gz) or genes.tsv"@,
            ),
        ),
{
    let names: Vec<&'static str> = features_candidates();
    find_candidate(input_dir, names.as_slice(), exists, "missing features.tsv(.gz) or genes.tsv")
}

/// The path of the barcode list in a directory. `exists` says of each name
/// of [`barcodes_candidates`] whether a file of that name is there.
pub fn find_barcodes_path(input_dir: &str, exists: &[bool]) -> (r: Result<String, InputError>)
    ensures
        path_result_is(
            r,
            found_path(
                input_dir@,
                barcodes_names(),
                exists@,
                "missing barcodes.tsv or barcodes.tsv.gz"@,
            ),
        ),
{
    let names: Vec<&'static str> = barcodes_candidates();
    find_candidate(input_dir, names.as_slice(), exists, "missing barcodes.tsv or barcodes.tsv.gz")
}

/// Where the shared container of a directory is looked for, and whether it
/// is there.
#[derive(Debug, Clone)]
pub struct SharedBinResolution {
    pub name: String,
    pub path: String,
    pub exists: bool,
    pub prefix: Option<String>,
}

/// The file name of the shared container: `kira-organelle.bin`, after the
/// prefix of the data set and a dot where there is a prefix.
pub open spec fn shared_bin_file_name(prefix: Option<Seq<char>>) -> Seq<char> {
    match prefix {
        Some(p) => p + ".kira-organelle.bin"@,
        None => "kira-organelle.bin"@,
    }
}

/// The file name of the shared container for a data set prefix.
pub fn shared_bin_name(prefix: Option<&str>) -> (name: String)
    ensures
        name@ == shared_bin_file_name(
            match prefix {
                Some(p) => Some(p@),
                None => None,
            },
        ),
{
    match prefix {
        Some(p) => String::from_str(p).concat(".kira-organelle.bin"),
        None => String::from_str("kira-organelle.bin"),
    }
}

/// Says where the shared container of a directory stands. `exists` is
/// whether a file of the name of [`shared_bin_name`] is in the directory.
pub fn resolve_shared_bin(input_dir: &str, prefix: Option<String>, exists: bool) -> (r:
    SharedBinResolution)
    ensures
        r.name@ == shared_bin_file_name(
            match prefix {
                Some(p) => Some(p@),
                None => None,
            },
        ),
        r.path@ == joined_path(input_dir@, r.name@),
        r.exists == exists,
        r.prefix == prefix,
{
    let name: String = match &prefix {
        Some(p) => shared_bin_name(Some(p.as_str())),
        None => shared_bin_name(None),
    };
    let path: String = join_path(input_dir, name.as_str());
    SharedBinResolution { name, path, exists, prefix }
}

/// The features that stand for the gene symbols of a container: the place
/// of the symbol is the identifier, and there is no feature type.
pub open spec fn features_of_symbols(symbols: Seq<Seq<char>>) -> Seq<FeatureView> {
    Seq::new(
        symbols.len(),
        |i: int|
            FeatureView {
                id: decimal(i as nat),
                symbol_raw: symbols[i],
                symbol_norm: normalized_symbol(symbols[i]),
                feature_type: None,
            },
    )
}

/// Makes features of the gene symbols of a container.
pub fn build_features_from_symbols(symbols: &[String]) -> (out: Vec<Feature>)
    ensures
        feature_views(out@) == features_of_symbols(string_views(symbols@)),
{
    let mut out: Vec<Feature> = Vec::new();
    let mut idx: usize = 0;
    while idx < symbols.len()
        invariant
            idx <= symbols.len(),
            out@.len() == idx,
            forall|k: int|
                0 <= k < idx ==> (#[trigger] out@[k])@ == features_of_symbols(
                    string_views(symbols@),
                )[k],
        decreases symbols.len() - idx,
    {
        let symbol: &String = &symbols[idx];
        let norm: String = normalize_symbol(symbol.as_str());
        let id: String = numbered_message("", idx);
        proof {
            reveal_strlit("");
            assert(id@ =~= decimal(idx as nat));
            assert(string_views(symbols@)[idx as int] == symbol@);
        }
        out.push(Feature { id, symbol_raw: symbol.clone(), symbol_norm: norm, feature_type: None });
        idx += 1;
    }
    proof {
        assert(feature_views(out@) =~= features_of_symbols(string_views(symbols@)));
    }
    out
}

/// The normalized symbols of a sequence of feature views.
pub open spec fn view_norms(features: Seq<FeatureView>) -> Seq<Seq<char>> {
    features.map_values(|f: FeatureView| f.symbol_norm)
}

/// Whether a bundle is what the features, the barcodes and the metadata of
/// an input make: the counts, the gene index of the features, the species
/// that their markers speak for, and the barcodes and metadata as read.
pub open spec fn bundle_holds(
    bundle: InputBundle,
    features: Seq<FeatureView>,
    barcodes: Seq<Seq<char>>,
    meta: Option<CellMetaView>,
) -> bool {
    &&& bundle.n_cells == barcodes.len()
    &&& bundle.n_features_raw == features.len()
    &&& bundle.n_genes_indexed == bundle.gene_index.symbols_by_gene_id@.len()
    &&& bundle.gene_index.wf()
    &&& bundle.gene_index.symbols() == distinct_symbols(view_norms(features))
    &&& bundle.gene_index.gene_id_by_feature@.len() == features.len()
    &&& forall|i: int|
        0 <= i < features.len() ==> is_gene_id_of(
            bundle.gene_index.symbols(),
            features[i].symbol_norm,
            #[trigger] bundle.gene_index.gene_id_by_feature@[i],
        )
    &&& bundle.species == species_of_hits(
        human_hits(view_norms(features)),
        mouse_hits(view_norms(features)),
    )
    &&& string_views(bundle.barcodes@) == barcodes
    &&& match bundle.meta {
        Some(m) => meta == Some(m@),
        None => meta is None,
    }
}

/// The gene index and the species of a feature list, with the counts that
/// go into a bundle.
pub fn index_features(features: &[Feature]) -> (r: (GeneIndex, Species))
    ensures
        r.0.wf(),
        r.0.symbols() == distinct_symbols(view_norms(feature_views(features@))),
        r.0.gene_id_by_feature@.len() == features@.len(),
        forall|i: int|
            0 <= i < features@.len() ==> is_gene_id_of(
                r.0.symbols(),
                feature_views(features@)[i].symbol_norm,
                #[trigger] r.0.gene_id_by_feature@[i],
            ),
        r.1 == species_of_hits(
            human_hits(view_norms(feature_views(features@))),
            mouse_hits(view_norms(feature_views(features@))),
        ),
{
    let gene_index: GeneIndex = build_gene_index(features);
    let species: Species = detect_species(features);
    proof {
        assert(norms_of(features@) =~= view_norms(feature_views(features@)));
    }
    (gene_index, species)
}

/// What the three texts of a text input give: features, barcodes and,
/// where a metadata text is given, metadata; or the error of the first of
/// them that is refused.
pub open spec fn tenx_outcome(
    features_text: Seq<char>,
    barcodes_text: Seq<char>,
    meta_text: Option<Seq<char>>,
) -> Result<(Seq<FeatureView>, Seq<Seq<char>>, Option<CellMetaView>), InputErrorView> {
    match features_outcome(features_text) {
        Err(e) => Err(e),
        Ok(features) => match barcodes_outcome(barcodes_text) {
            Err(e) => Err(e),
            Ok(barcodes) => match meta_text {
                None => Ok((features, barcodes, None)),
                Some(text) => match meta_outcome(text, barcodes) {
                    Err(e) => Err(e),
                    Ok(meta) => Ok((features, barcodes, Some(meta))),
                },
            },
        },
    }
}

/// The texts of an optional sequence of strings.
pub open spec fn option_rows(v: Option<Vec<String>>) -> Option<Seq<Seq<char>>> {
    match v {
        Some(rows) => Some(string_views(rows@)),
        None => None,
    }
}

/// The text of an optional string slice.
pub open spec fn option_text(text: Option<&str>) -> Option<Seq<char>> {
    match text {
        Some(t) => Some(t@),
        None => None,
    }
}

/// Builds the bundle of a text input from the texts of its files. The paths
/// are kept as given, for the matrix is read later.
pub fn load_input_tenx(
    mtx_path: String,
    features_path: String,
    barcodes_path: String,
    features_text: &str,
    barcodes_text: &str,
    meta_text: Option<&str>,
) -> (r: Result<InputBundle, InputError>)
    ensures
        match r {
            Ok(bundle) => match tenx_outcome(
                features_text@,
                barcodes_text@,
                option_text(meta_text),
            ) {
                Ok((features, barcodes, meta)) => {
                    &&& bundle_holds(bundle, features, barcodes, meta)
                    &&& bundle.mtx_path == mtx_path
                    &&& bundle.features_path == features_path
                    &&& bundle.barcodes_path == barcodes_path
                    &&& bundle.source == InputSourceKind::TenX
                    &&& bundle.organelle is None
                    &&& bundle.shared_bin_path is None
                },
                Err(_) => false,
            },
            Err(e) => tenx_outcome(features_text@, barcodes_text@, option_text(meta_text)) == Err::<
                (Seq<FeatureView>, Seq<Seq<char>>, Option<CellMetaView>),
                InputErrorView,
            >(e@),
        },
{
    let features: Vec<Feature> = match parse_features(features_text) {
        Ok(f) => f,
        Err(e) => { return Err(e); },
    };
    let n_features_raw: usize = features.len();
    let (gene_index, species) = index_features(features.as_slice());
    let n_genes_indexed: usize = gene_index.symbols_by_gene_id.len();
    let barcodes: Vec<String> = match parse_barcodes(barcodes_text) {
        Ok(b) => b,
        Err(e) => { return Err(e); },
    };
    let n_cells: usize = barcodes.len();
    let meta: Option<CellMeta> = match meta_text {
        Some(text) => match load_meta(text, barcodes.as_slice()) {
            Ok(m) => Some(m),
            Err(e) => { return Err(e); },
        },
        None => None,
    };
    Ok(
        InputBundle {
            mtx_path,
            features_path,
            barcodes_path,
            n_cells,
            n_features_raw,
            n_genes_indexed,
            species,
            gene_index,
            barcodes,
            meta,
            source: InputSourceKind::TenX,
            organelle: None,
            shared_bin_path: None,
        },
    )
}

/// Builds the bundle of a text input; see [`load_input_tenx`].
pub fn load_input(
    mtx_path: String,
    features_path: String,
    barcodes_path: String,
    features_text: &str,
    barcodes_text: &str,
    meta_text: Option<&str>,
) -> (r: Result<InputBundle, InputError>)
    ensures
        match r {
            Ok(bundle) => match tenx_outcome(
                features_text@,
                barcodes_text@,
                option_text(meta_text),
            ) {
                Ok((features, barcodes, meta)) => {
                    &&& bundle_holds(bundle, features, barcodes, meta)
                    &&& bundle.mtx_path == mtx_path
                    &&& bundle.features_path == features_path
                    &&& bundle.barcodes_path == barcodes_path
                    &&& bundle.source == InputSourceKind::TenX
                    &&& bundle.organelle is None
                    &&& bundle.shared_bin_path is None
                },
                Err(_) => false,
            },
            Err(e) => tenx_outcome(features_text@, barcodes_text@, option_text(meta_text)) == Err::<
                (Seq<FeatureView>, Seq<Seq<char>>, Option<CellMetaView>),
                InputErrorView,
            >(e@),
        },
{
    load_input_tenx(mtx_path, features_path, barcodes_path, features_text, barcodes_text, meta_text)
}

/// What the bytes of a container and an optional metadata text give: the
/// container and the metadata, or the error of the first that is refused.
pub open spec fn organelle_outcome(bytes: Seq<u8>, meta_text: Option<Seq<char>>) -> Result<
    (OrganelleBinView, Option<CellMetaView>),
    InputErrorView,
> {
    match container_outcome(bytes) {
        Err(e) => Err(e),
        Ok(bin) => match meta_text {
            None => Ok((bin, None)),
            Some(text) => match meta_outcome(text, bin.barcodes) {
                Err(e) => Err(e),
                Ok(meta) => Ok((bin, Some(meta))),
            },
        },
    }
}

/// The bundle of a container that has been read, with its metadata.
pub fn bundle_of_container(
    input_dir: &str,
    bin: OrganelleBin,
    bin_path: String,
    meta: Option<CellMeta>,
) -> (bundle: InputBundle)
    ensures
        bundle_holds(
            bundle,
            features_of_symbols(bin@.genes),
            bin@.barcodes,
            match meta {
                Some(m) => Some(m@),
                None => None,
            },
        ),
        bundle.mtx_path@ == joined_path(input_dir@, "kira-organelle.bin"@),
        bundle.features_path@ == bundle.mtx_path@,
        bundle.barcodes_path@ == bundle.mtx_path@,
        bundle.source == InputSourceKind::OrganelleBin,
        bundle.organelle == Some(bin),
        bundle.shared_bin_path == Some(bin_path),
{
    let features: Vec<Feature> = build_features_from_symbols(bin.genes.as_slice());
    let n_features_raw: usize = features.len();
    let (gene_index, species) = index_features(features.as_slice());
    let n_genes_indexed: usize = gene_index.symbols_by_gene_id.len();
    let barcodes: Vec<String> = crate::input::meta::copy_row(&bin.barcodes);
    let n_cells: usize = barcodes.len();
    InputBundle {
        mtx_path: join_path(input_dir, "kira-organelle.bin"),
        features_path: join_path(input_dir, "kira-organelle.bin"),
        barcodes_path: join_path(input_dir, "kira-organelle.bin"),
        n_cells,
        n_features_raw,
        n_genes_indexed,
        species,
        gene_index,
        barcodes,
        meta,
        source: InputSourceKind::OrganelleBin,
        organelle: Some(bin),
        shared_bin_path: Some(bin_path),
    }
}

/// Builds the bundle of a container input from the bytes of the container.
/// The gene symbols of the container stand for the features; the three
/// paths of the bundle name the container in the input directory.
pub fn load_input_organelle(
    input_dir: &str,
    meta_text: Option<&str>,
    bin_path: String,
    bin_bytes: &[u8],
) -> (r: Result<InputBundle, InputError>)
    ensures
        match r {
            Ok(bundle) => match organelle_outcome(bin_bytes@, option_text(meta_text)) {
                Ok((bin, meta)) => {
                    &&& bundle_holds(bundle, features_of_symbols(bin.genes), bin.barcodes, meta)
                    &&& bundle.mtx_path@ == joined_path(input_dir@, "kira-organelle.bin"@)
                    &&& bundle.features_path@ == bundle.mtx_path@
                    &&& bundle.barcodes_path@ == bundle.mtx_path@
                    &&& bundle.source == InputSourceKind::OrganelleBin
                    &&& bundle.organelle is Some
                    &&& bundle.organelle->0@ == bin
                    &&& bundle.organelle->0.csc.wf()
                    &&& bundle.shared_bin_path == Some(bin_path)
                },
                Err(_) => false,
            },
            Err(e) => organelle_outcome(bin_bytes@, option_text(meta_text)) == Err::<
                (OrganelleBinView, Option<CellMetaView>),
                InputErrorView,
            >(e@),
        },
{
    let bin: OrganelleBin = match read_organelle_bin(bin_bytes) {
        Ok(b) => b,
        Err(e) => { return Err(e); },
    };
    let meta: Option<CellMeta> = match meta_text {
        Some(text) => match load_meta(text, bin.barcodes.as_slice()) {
            Ok(m) => Some(m),
            Err(e) => { return Err(e); },
        },
        None => None,
    };
    Ok(bundle_of_container(input_dir, bin, bin_path, meta))
}

} // verus!
