//! Per-cell statistics and the decisions around the normalization cache.

use vstd::prelude::*;
use vstd::utf8::encode_utf8;
use crate::input::cache::{
    cache_bytes, cache_outcome, float_bits_nan, fnv64, lemma_cache_round_trip,
    lemma_fnv64_fold_concat, read_normalized_cache, CacheMeta, CachedNormalizedData,
    CachedNormalizedModel, Fnv64, FNV_OFFSET,
};
use crate::input::mtx::{gene_of, gene_of_row, CscMatrix};
use crate::input::organelle_bin::CscView;
use crate::input::{GeneIndex, InputError, InputErrorView, InputSourceKind};

verus! {

/// Why the expression values could not be had.
#[derive(Debug)]
pub enum Stage2Error {
    /// The input was refused.
    Input(InputError),
    /// The cache could not be written; the values computed are good.
    Cache(String),
}

/// A [`Stage2Error`] with its texts as sequences of characters.
pub enum Stage2ErrorView {
    Input(InputErrorView),
    Cache(Seq<char>),
}

impl View for Stage2Error {
    type V = Stage2ErrorView;

    open spec fn view(&self) -> Stage2ErrorView {
        match self {
            Stage2Error::Input(e) => Stage2ErrorView::Input(e@),
            Stage2Error::Cache(m) => Stage2ErrorView::Cache(m@),
        }
    }
}

impl Stage2ErrorView {
    /// The line that describes the error to a person.
    pub open spec fn text(self) -> Seq<char> {
        match self {
            Stage2ErrorView::Input(e) => e.text(),
            Stage2ErrorView::Cache(m) => "cache error: "@ + m,
        }
    }

    /// Whether the stage can go on after the error: a cache that could not
    /// be written loses persistence only.
    pub open spec fn recoverable(self) -> bool {
        self is Cache
    }
}

impl Stage2Error {
    /// The line that describes the error to a person.
    pub fn to_string(&self) -> (s: String)
        ensures
            s@ == self@.text(),
    {
        match self {
            Stage2Error::Input(e) => e.to_string(),
            Stage2Error::Cache(m) => String::from_str("cache error: ").concat(m.as_str()),
        }
    }

    /// Whether the stage can go on after the error.
    pub fn is_recoverable(&self) -> (r: bool)
        ensures
            r == self@.recoverable(),
    {
        match self {
            Stage2Error::Input(_) => false,
            Stage2Error::Cache(_) => true,
        }
    }
}

impl From<InputError> for Stage2Error {
    fn from(value: InputError) -> (e: Stage2Error) {
        Stage2Error::Input(value)
    }
}

impl vstd::std_specs::convert::FromSpecImpl<InputError> for Stage2Error {
    open spec fn obeys_from_spec() -> bool {
        true
    }

    open spec fn from_spec(value: InputError) -> Stage2Error {
        Stage2Error::Input(value)
    }
}

/// What the caller asks of the stage.
#[derive(Debug, Clone)]
pub struct Stage2Params {
    pub normalize: bool,
    pub cache_normalized: bool,
    pub cache_path: Option<String>,
}

/// The scale of the normalization, as the bits of the 32-bit float 10000.
pub const SCALE_BITS: u32 = 0x461C_4000;

/// The sum of the counts of a column.
pub open spec fn column_total(col: Seq<(u32, i64)>) -> int
    decreases col.len(),
{
    if col.len() == 0 {
        0
    } else {
        column_total(col.drop_last()) + col.last().1
    }
}

/// A sum of `n` counts is at most `n` times the largest count away from
/// zero.
pub proof fn lemma_column_total_bound(col: Seq<(u32, i64)>)
    ensures
        -(col.len() * 0x8000_0000_0000_0000) <= column_total(col) <= col.len()
            * 0x8000_0000_0000_0000,
    decreases col.len(),
{
    if col.len() > 0 {
        lemma_column_total_bound(col.drop_last());
    }
}

/// The library size and the count of non-zero entries of one column.
pub fn column_stats(col: &[(u32, i64)]) -> (r: (i128, u32))
    ensures
        r.0 == column_total(col@),
        r.1 == col@.len() % 0x1_0000_0000,
{
    let mut sum: i128 = 0;
    let mut k: usize = 0;
    proof {
        assert(col@.take(0) =~= Seq::<(u32, i64)>::empty());
    }
    while k < col.len()
        invariant
            k <= col.len(),
            sum == column_total(col@.take(k as int)),
        decreases col.len() - k,
    {
        proof {
            assert(col@.take(k + 1).drop_last() =~= col@.take(k as int));
            lemma_column_total_bound(col@.take(k as int));
            lemma_column_total_bound(col@.take(k + 1));
        }
        sum = sum + col[k].1 as i128;
        k += 1;
    }
    proof {
        assert(col@.take(k as int) =~= col@);
    }
    (sum, (col.len() as u64 % 0x1_0000_0000) as u32)
}

/// The library size of every cell of a text matrix, as the exact sum of its
/// counts, and its count of non-zero entries.
pub fn compute_stats(csc: &CscMatrix) -> (r: (Vec<i128>, Vec<u32>))
    ensures
        r.0@.len() == csc.cols@.len(),
        r.1@.len() == csc.cols@.len(),
        forall|c: int|
            0 <= c < csc.cols@.len() ==> (#[trigger] r.0@[c]) == column_total(csc.cols@[c]@),
        forall|c: int|
            0 <= c < csc.cols@.len() ==> (#[trigger] r.1@[c]) == csc.cols@[c]@.len()
                % 0x1_0000_0000,
{
    let mut libsizes: Vec<i128> = Vec::new();
    let mut nnz: Vec<u32> = Vec::new();
    let mut c: usize = 0;
    while c < csc.cols.len()
        invariant
            c <= csc.cols@.len(),
            libsizes@.len() == c,
            nnz@.len() == c,
            forall|k: int| 0 <= k < c ==> (#[trigger] libsizes@[k]) == column_total(csc.cols@[k]@),
            forall|k: int|
                0 <= k < c ==> (#[trigger] nnz@[k]) == csc.cols@[k]@.len() % 0x1_0000_0000,
        decreases csc.cols@.len() - c,
    {
        let (sum, count) = column_stats(csc.cols[c].as_slice());
        libsizes.push(sum);
        nnz.push(count);
        c += 1;
    }
    (libsizes, nnz)
}

/// The pairs of gene identifier and count that the entries `from..to` of a
/// container give: one for each entry whose feature row has a gene
/// identifier, in entry order.
pub open spec fn mapped_pairs(
    row_idx: Seq<u32>,
    values: Seq<u32>,
    ids: Seq<Option<usize>>,
    from: int,
    to: int,
) -> Seq<(u32, u32)>
    decreases to - from,
{
    if to <= from {
        Seq::empty()
    } else {
        let before = mapped_pairs(row_idx, values, ids, from, to - 1);
        match gene_of_row(ids, row_idx[to - 1] as int) {
            Some(g) => before.push((g, values[to - 1])),
            None => before,
        }
    }
}

/// The sum of the counts of a sequence of pairs.
pub open spec fn pairs_total(pairs: Seq<(u32, u32)>) -> nat
    decreases pairs.len(),
{
    if pairs.len() == 0 {
        0
    } else {
        pairs_total(pairs.drop_last()) + pairs.last().1 as nat
    }
}

/// A sum of `n` counts is at most `n` times the largest count.
pub proof fn lemma_pairs_total_bound(pairs: Seq<(u32, u32)>)
    ensures
        pairs_total(pairs) <= pairs.len() * 0xFFFF_FFFF,
    decreases pairs.len(),
{
    if pairs.len() > 0 {
        lemma_pairs_total_bound(pairs.drop_last());
    }
}

/// The mapped pairs of one cell of a container.
pub fn organelle_column(csc: &CscView, gene_index: &GeneIndex, cell: usize) -> (col: Vec<(u32, u32)>)
    requires
        csc.wf(),
        cell < csc.n_cells,
    ensures
        col@ == mapped_pairs(
            csc.row_idx@,
            csc.values@,
            gene_index.gene_id_by_feature@,
            csc.col_ptr@[cell as int] as int,
            csc.col_ptr@[cell + 1] as int,
        ),
{
    proof {
        reveal(crate::input::organelle_bin::CscModel::wf);
        crate::input::organelle_bin::lemma_col_ptr_ordered(
            csc.col_ptr@,
            csc.n_cells as nat,
            cell + 1,
            csc.n_cells as int,
        );
        assert(csc.col_ptr@[cell as int] <= csc.col_ptr@[cell + 1]);
    }
    let start: usize = csc.col_ptr[cell] as usize;
    let end: usize = csc.col_ptr[cell + 1] as usize;
    let mut col: Vec<(u32, u32)> = Vec::new();
    let mut idx: usize = start;
    while idx < end
        invariant
            start <= idx <= end <= csc.nnz,
            csc.row_idx@.len() == csc.nnz,
            csc.values@.len() == csc.nnz,
            col@ == mapped_pairs(
                csc.row_idx@,
                csc.values@,
                gene_index.gene_id_by_feature@,
                start as int,
                idx as int,
            ),
        decreases end - idx,
    {
        match gene_of(gene_index, csc.row_idx[idx] as usize) {
            Some(g) => {
                col.push((g, csc.values[idx]));
            },
            None => {},
        }
        idx += 1;
    }
    col
}

/// The library size of every cell of a container, as the exact sum of the
/// counts of its mapped entries, and its count of mapped entries.
pub fn compute_stats_organelle(csc: &CscView, gene_index: &GeneIndex) -> (r: (Vec<u128>, Vec<u32>))
    requires
        csc.wf(),
    ensures
        r.0@.len() == csc.n_cells,
        r.1@.len() == csc.n_cells,
        forall|c: int|
            0 <= c < csc.n_cells ==> (#[trigger] r.0@[c]) == pairs_total(
                mapped_pairs(
                    csc.row_idx@,
                    csc.values@,
                    gene_index.gene_id_by_feature@,
                    csc.col_ptr@[c] as int,
                    csc.col_ptr@[c + 1] as int,
                ),
            ),
        forall|c: int|
            0 <= c < csc.n_cells ==> (#[trigger] r.1@[c]) == mapped_pairs(
                csc.row_idx@,
                csc.values@,
                gene_index.gene_id_by_feature@,
                csc.col_ptr@[c] as int,
                csc.col_ptr@[c + 1] as int,
            ).len() % 0x1_0000_0000,
{
    let ghost ids = gene_index.gene_id_by_feature@;
    let mut libsizes: Vec<u128> = Vec::new();
    let mut nnz: Vec<u32> = Vec::new();
    let mut cell: usize = 0;
    while cell < csc.n_cells
        invariant
            cell <= csc.n_cells,
            csc.wf(),
            ids == gene_index.gene_id_by_feature@,
            libsizes@.len() == cell,
            nnz@.len() == cell,
            forall|c: int|
                0 <= c < cell ==> (#[trigger] libsizes@[c]) == pairs_total(
                    mapped_pairs(
                        csc.row_idx@,
                        csc.values@,
                        ids,
                        csc.col_ptr@[c] as int,
                        csc.col_ptr@[c + 1] as int,
                    ),
                ),
            forall|c: int|
                0 <= c < cell ==> (#[trigger] nnz@[c]) == mapped_pairs(
                    csc.row_idx@,
                    csc.values@,
                    ids,
                    csc.col_ptr@[c] as int,
                    csc.col_ptr@[c + 1] as int,
                ).len() % 0x1_0000_0000,
        decreases csc.n_cells - cell,
    {
        let col: Vec<(u32, u32)> = organelle_column(csc, gene_index, cell);
        let mut sum: u128 = 0;
        let mut k: usize = 0;
        proof {
            assert(col@.take(0) =~= Seq::<(u32, u32)>::empty());
        }
        while k < col.len()
            invariant
                k <= col@.len(),
                sum == pairs_total(col@.take(k as int)),
            decreases col@.len() - k,
        {
            proof {
                assert(col@.take(k + 1).drop_last() =~= col@.take(k as int));
                lemma_pairs_total_bound(col@.take(k as int));
            }
            sum = sum + col[k].1 as u128;
            k += 1;
        }
        proof {
            assert(col@.take(k as int) =~= col@);
        }
        libsizes.push(sum);
        nnz.push((col.len() as u64 % 0x1_0000_0000) as u32);
        cell += 1;
    }
    (libsizes, nnz)
}

/// The bytes that the hash of a gene index is taken over: the UTF-8 bytes
/// of every symbol, each followed by a zero byte.
pub open spec fn gene_index_bytes(symbols: Seq<Seq<char>>) -> Seq<u8>
    decreases symbols.len(),
{
    if symbols.len() == 0 {
        Seq::empty()
    } else {
        gene_index_bytes(symbols.drop_last()) + encode_utf8(symbols.last()) + seq![0u8]
    }
}

/// The bytes of the symbols joined by `|`.
pub open spec fn joined_symbol_bytes(symbols: Seq<Seq<char>>) -> Seq<u8>
    decreases symbols.len(),
{
    if symbols.len() == 0 {
        Seq::empty()
    } else if symbols.len() == 1 {
        encode_utf8(symbols[0])
    } else {
        joined_symbol_bytes(symbols.drop_last()) + seq![0x7Cu8] + encode_utf8(symbols.last())
    }
}

/// The content hash of a gene index.
pub fn hash_gene_index(index: &GeneIndex) -> (h: u64)
    ensures
        h == fnv64(gene_index_bytes(index.symbols())),
{
    let mut zero: Vec<u8> = Vec::new();
    zero.push(0);
    let mut hasher: Fnv64 = Fnv64::new();
    let ghost symbols = index.symbols();
    let mut i: usize = 0;
    proof {
        assert(symbols.take(0) =~= Seq::<Seq<char>>::empty());
    }
    while i < index.symbols_by_gene_id.len()
        invariant
            i <= index.symbols_by_gene_id@.len(),
            symbols == index.symbols(),
            zero@ == seq![0u8],
            hasher@ == fnv64(gene_index_bytes(symbols.take(i as int))),
        decreases index.symbols_by_gene_id@.len() - i,
    {
        let ghost before = gene_index_bytes(symbols.take(i as int));
        let bytes: &[u8] = index.symbols_by_gene_id[i].as_str().as_bytes();
        hasher.update(bytes);
        hasher.update(zero.as_slice());
        proof {
            assert(symbols.take(i + 1).drop_last() =~= symbols.take(i as int));
            assert(symbols.take(i + 1).last() == index.symbols_by_gene_id@[i as int]@);
            lemma_fnv64_fold_concat(FNV_OFFSET, before, bytes@);
            lemma_fnv64_fold_concat(FNV_OFFSET, before + bytes@, zero@);
        }
        i += 1;
    }
    proof {
        assert(symbols.take(i as int) =~= symbols);
    }
    hasher.finish()
}

/// The content hash of the symbols of a gene index joined by `|`.
pub fn hash_joined_symbols(index: &GeneIndex) -> (h: u64)
    ensures
        h == fnv64(joined_symbol_bytes(index.symbols())),
{
    let mut bar: Vec<u8> = Vec::new();
    bar.push(0x7C);
    let mut hasher: Fnv64 = Fnv64::new();
    let ghost symbols = index.symbols();
    let mut i: usize = 0;
    proof {
        assert(symbols.take(0) =~= Seq::<Seq<char>>::empty());
    }
    while i < index.symbols_by_gene_id.len()
        invariant
            i <= index.symbols_by_gene_id@.len(),
            symbols == index.symbols(),
            bar@ == seq![0x7Cu8],
            hasher@ == fnv64(joined_symbol_bytes(symbols.take(i as int))),
        decreases index.symbols_by_gene_id@.len() - i,
    {
        let ghost before = joined_symbol_bytes(symbols.take(i as int));
        let bytes: &[u8] = index.symbols_by_gene_id[i].as_str().as_bytes();
        proof {
            assert(symbols.take(i + 1).drop_last() =~= symbols.take(i as int));
            assert(symbols.take(i + 1).last() == index.symbols_by_gene_id@[i as int]@);
        }
        if i > 0 {
            hasher.update(bar.as_slice());
            proof {
                lemma_fnv64_fold_concat(FNV_OFFSET, before, bar@);
                lemma_fnv64_fold_concat(FNV_OFFSET, before + bar@, bytes@);
            }
        } else {
            proof {
                assert(before =~= Seq::<u8>::empty());
                assert(symbols.take(1)[0] == index.symbols_by_gene_id@[0]@);
                assert(Seq::<u8>::empty() + bytes@ =~= bytes@);
                lemma_fnv64_fold_concat(FNV_OFFSET, Seq::<u8>::empty(), bytes@);
            }
        }
        hasher.update(bytes);
        i += 1;
    }
    proof {
        assert(symbols.take(i as int) =~= symbols);
    }
    hasher.finish()
}

/// The fingerprint of the cache of a text matrix: the counts of cells and
/// genes as far as they fit 32 bits, the content hashes of the three input
/// files and of the gene index, and the parameters of the normalization.
pub fn build_cache_meta(
    n_cells: usize,
    gene_index: &GeneIndex,
    hash_mtx: u64,
    hash_features: u64,
    hash_barcodes: u64,
    scale_bits: u32,
    log1p: bool,
) -> (meta: CacheMeta)
    ensures
        meta == (CacheMeta {
            n_cells: (n_cells as int % 0x1_0000_0000) as u32,
            n_genes: (gene_index.symbols_by_gene_id@.len() as int % 0x1_0000_0000) as u32,
            hash_mtx,
            hash_features,
            hash_barcodes,
            hash_gene_index: fnv64(gene_index_bytes(gene_index.symbols())),
            scale_bits,
            log1p,
        }),
{
    CacheMeta {
        n_cells: (n_cells as u64 % 0x1_0000_0000) as u32,
        n_genes: (gene_index.symbols_by_gene_id.len() as u64 % 0x1_0000_0000) as u32,
        hash_mtx,
        hash_features,
        hash_barcodes,
        hash_gene_index: hash_gene_index(gene_index),
        scale_bits,
        log1p,
    }
}

/// The fingerprint of the cache of a container: the one content hash of the
/// container file stands for all three inputs, and the gene index is hashed
/// as its symbols joined by `|`.
pub fn build_cache_meta_organelle(
    n_cells: usize,
    gene_index: &GeneIndex,
    hash_bin: u64,
    scale_bits: u32,
    log1p: bool,
) -> (meta: CacheMeta)
    ensures
        meta == (CacheMeta {
            n_cells: (n_cells as int % 0x1_0000_0000) as u32,
            n_genes: (gene_index.symbols_by_gene_id@.len() as int % 0x1_0000_0000) as u32,
            hash_mtx: hash_bin,
            hash_features: hash_bin,
            hash_barcodes: hash_bin,
            hash_gene_index: fnv64(joined_symbol_bytes(gene_index.symbols())),
            scale_bits,
            log1p,
        }),
{
    CacheMeta {
        n_cells: (n_cells as u64 % 0x1_0000_0000) as u32,
        n_genes: (gene_index.symbols_by_gene_id.len() as u64 % 0x1_0000_0000) as u32,
        hash_mtx: hash_bin,
        hash_features: hash_bin,
        hash_barcodes: hash_bin,
        hash_gene_index: hash_joined_symbols(gene_index),
        scale_bits,
        log1p,
    }
}

/// The bytes of a cache file that may be missing.
pub open spec fn file_view(bytes: Option<&[u8]>) -> Option<Seq<u8>> {
    match bytes {
        Some(b) => Some(b@),
        None => None,
    }
}

/// The values that a cache file gives to a reader that wants the
/// fingerprint `meta`: those that it holds for that fingerprint; nothing
/// where the file is missing, is for another fingerprint or version, or ends
/// early.
pub open spec fn cached_values(cache: Option<Seq<u8>>, meta: CacheMeta) -> Option<
    CachedNormalizedModel,
> {
    match cache {
        None => None,
        Some(bytes) => match cache_outcome(bytes, meta) {
            Ok(Some(data)) => Some(data),
            _ => None,
        },
    }
}

/// Looks cached values up in the bytes of a cache file, if there is one.
/// The values come back if and only if the file is there and gives them for
/// the wanted fingerprint; a file for another fingerprint or another
/// version, and a file that ends early, are a miss like a missing file.
pub fn cache_lookup(bytes: Option<&[u8]>, meta: &CacheMeta) -> (r: Option<CachedNormalizedData>)
    ensures
        match r {
            Some(data) => cached_values(file_view(bytes), *meta) == Some(data@),
            None => cached_values(file_view(bytes), *meta) is None,
        },
{
    match bytes {
        None => None,
        Some(b) => match read_normalized_cache(b, meta) {
            Ok(Some(data)) => Some(data),
            Ok(None) => None,
            Err(_) => None,
        },
    }
}

/// What a load with caching serves: the cached values on a hit, and the
/// values computed afresh on a miss.
pub open spec fn load_served(
    cache: Option<Seq<u8>>,
    meta: CacheMeta,
    fresh: CachedNormalizedModel,
) -> CachedNormalizedModel {
    match cached_values(cache, meta) {
        Some(data) => data,
        None => fresh,
    }
}

/// The cache file after a load with caching: as it was on a hit, and
/// written anew with the values computed afresh on a miss.
pub open spec fn cache_after_load(
    cache: Option<Seq<u8>>,
    meta: CacheMeta,
    fresh: CachedNormalizedModel,
) -> Option<Seq<u8>> {
    match cached_values(cache, meta) {
        Some(_) => cache,
        None => Some(cache_bytes(meta, fresh)),
    }
}

/// Loading twice gives the same values, bit for bit. Whatever the cache
/// file held before the first load, a second load for the same fingerprint
/// is a hit, serves what the first load served and leaves the file as the
/// first load left it, whatever it would have computed itself. The values
/// computed on a miss must be those of as many cells as the fingerprint
/// names, and the scale must be a number.
pub proof fn lemma_second_load_serves_the_same(
    cache: Option<Seq<u8>>,
    meta: CacheMeta,
    fresh: CachedNormalizedModel,
    again: CachedNormalizedModel,
)
    requires
        fresh.fits(meta.n_cells as nat),
        !float_bits_nan(meta.scale_bits),
    ensures
        cached_values(cache_after_load(cache, meta, fresh), meta) == Some(
            load_served(cache, meta, fresh),
        ),
        load_served(cache_after_load(cache, meta, fresh), meta, again) == load_served(
            cache,
            meta,
            fresh,
        ),
        cache_after_load(cache_after_load(cache, meta, fresh), meta, again) == cache_after_load(
            cache,
            meta,
            fresh,
        ),
{
    lemma_cache_round_trip(meta, fresh);
}

/// Where the building of the expression accessor stands.
#[derive(Debug, Clone, Copy, PartialEq, Eq, Structural)]
pub enum AccessState {
    /// Nothing has been decided yet.
    Planning,
    /// The cache is being looked up.
    AwaitingCache,
    /// Fresh values are being computed and written to the cache.
    AwaitingWrite,
    /// The accessor has been decided on.
    Serving,
}

/// What has happened outside since the last step.
#[derive(Debug, Clone, Copy, PartialEq, Eq, Structural)]
pub enum AccessEvent {
    /// The input is loaded and the parameters are known.
    Begin { source: InputSourceKind, organelle_present: bool, normalize: bool, cache_normalized: bool },
    /// The cache was looked up, with or without a hit.
    CacheLooked { hit: bool },
    /// The cache was written, or could not be.
    CacheWritten { ok: bool },
}

/// What is to be done outside next.
#[derive(Debug, Clone, Copy, PartialEq, Eq, Structural)]
pub enum AccessAction {
    /// Fail: the bundle names a container and holds none.
    FailMissingContainer,
    /// Compute the fingerprint, read the cache file and look the values up.
    LookUpCache,
    /// Serve the cached values.
    ServeCached,
    /// Compute normalized values and write them to the cache.
    ComputeAndWrite,
    /// Serve the values just computed; `persisted` says whether the cache
    /// holds them now.
    ServeComputed { persisted: bool },
    /// Serve the counts, normalized on request.
    ServeCounts,
    /// Nothing: the event does not belong to the state.
    Nothing,
}

/// The step that the state and the event call for. The cache is used only
/// where normalized values are asked for together with caching; a hit is
/// served as it is; a miss leads to fresh values and a write; a failed
/// write loses persistence and nothing else.
pub open spec fn access_transition(state: AccessState, event: AccessEvent) -> (
    AccessState,
    AccessAction,
) {
    match (state, event) {
        (
            AccessState::Planning,
            AccessEvent::Begin { source, organelle_present, normalize, cache_normalized },
        ) => if source == InputSourceKind::OrganelleBin && !organelle_present {
            (AccessState::Serving, AccessAction::FailMissingContainer)
        } else if normalize && cache_normalized {
            (AccessState::AwaitingCache, AccessAction::LookUpCache)
        } else {
            (AccessState::Serving, AccessAction::ServeCounts)
        },
        (AccessState::AwaitingCache, AccessEvent::CacheLooked { hit }) => if hit {
            (AccessState::Serving, AccessAction::ServeCached)
        } else {
            (AccessState::AwaitingWrite, AccessAction::ComputeAndWrite)
        },
        (AccessState::AwaitingWrite, AccessEvent::CacheWritten { ok }) => (
            AccessState::Serving,
            AccessAction::ServeComputed { persisted: ok },
        ),
        _ => (state, AccessAction::Nothing),
    }
}

/// Decides the next step of building the expression accessor.
pub fn access_step(state: AccessState, event: AccessEvent) -> (r: (AccessState, AccessAction))
    ensures
        r == access_transition(state, event),
{
    match state {
        AccessState::Planning => match event {
            AccessEvent::Begin { source, organelle_present, normalize, cache_normalized } => {
                if source == InputSourceKind::OrganelleBin && !organelle_present {
                    (AccessState::Serving, AccessAction::FailMissingContainer)
                } else if normalize && cache_normalized {
                    (AccessState::AwaitingCache, AccessAction::LookUpCache)
                } else {
                    (AccessState::Serving, AccessAction::ServeCounts)
                }
            },
            _ => (state, AccessAction::Nothing),
        },
        AccessState::AwaitingCache => match event {
            AccessEvent::CacheLooked { hit } => {
                if hit {
                    (AccessState::Serving, AccessAction::ServeCached)
                } else {
                    (AccessState::AwaitingWrite, AccessAction::ComputeAndWrite)
                }
            },
            _ => (state, AccessAction::Nothing),
        },
        AccessState::AwaitingWrite => match event {
            AccessEvent::CacheWritten { ok } => (
                AccessState::Serving,
                AccessAction::ServeComputed { persisted: ok },
            ),
            _ => (state, AccessAction::Nothing),
        },
        AccessState::Serving => (state, AccessAction::Nothing),
    }
}

/// What building the expression accessor ends in.
pub enum AccessOutcome {
    /// The bundle names a container and holds none.
    MissingContainer,
    /// The counts are served, without the cache.
    Counts,
    /// Normalized values are served.
    Values(CachedNormalizedModel),
    /// A step was asked for that does not belong to its state.
    Stuck,
}

/// What a run of the steps ends in, and what the cache file holds after
/// it. The run begins with `begin` and takes every later step as
/// [`access_transition`] names it: it looks the values up in `cache` under
/// the fingerprint `meta`, computes `fresh` where a step asks for fresh
/// values, and writes them to the cache file, with success or without.
pub open spec fn access_run(
    begin: AccessEvent,
    cache: Option<Seq<u8>>,
    meta: CacheMeta,
    fresh: CachedNormalizedModel,
    write_ok: bool,
) -> (AccessOutcome, Option<Seq<u8>>) {
    let (planned, first) = access_transition(AccessState::Planning, begin);
    match first {
        AccessAction::FailMissingContainer => (AccessOutcome::MissingContainer, cache),
        AccessAction::ServeCounts => (AccessOutcome::Counts, cache),
        AccessAction::LookUpCache => {
            let found = cached_values(cache, meta);
            let (looked, second) = access_transition(
                planned,
                AccessEvent::CacheLooked { hit: found is Some },
            );
            match second {
                AccessAction::ServeCached => match found {
                    Some(values) => (AccessOutcome::Values(values), cache),
                    None => (AccessOutcome::Stuck, cache),
                },
                AccessAction::ComputeAndWrite => {
                    let written = if write_ok {
                        Some(cache_bytes(meta, fresh))
                    } else {
                        cache
                    };
                    let (_, third) = access_transition(
                        looked,
                        AccessEvent::CacheWritten { ok: write_ok },
                    );
                    match third {
                        AccessAction::ServeComputed { persisted } => (
                            AccessOutcome::Values(fresh),
                            written,
                        ),
                        _ => (AccessOutcome::Stuck, written),
                    }
                },
                _ => (AccessOutcome::Stuck, cache),
            }
        },
        _ => (AccessOutcome::Stuck, cache),
    }
}

/// The beginning of a run that asks for normalized values with caching.
pub open spec fn caching_begin(source: InputSourceKind, organelle_present: bool) -> AccessEvent {
    AccessEvent::Begin { source, organelle_present, normalize: true, cache_normalized: true }
}

/// A run that asks for normalized values with caching, on a bundle that
/// holds the container it names, serves what a load with caching serves,
/// and where the write succeeds it leaves the cache file as such a load
/// leaves it. A failed write leaves the file as it was.
pub proof fn lemma_run_serves_the_load(
    source: InputSourceKind,
    organelle_present: bool,
    cache: Option<Seq<u8>>,
    meta: CacheMeta,
    fresh: CachedNormalizedModel,
    write_ok: bool,
)
    requires
        source == InputSourceKind::OrganelleBin ==> organelle_present,
    ensures
        access_run(caching_begin(source, organelle_present), cache, meta, fresh, write_ok).0
            == AccessOutcome::Values(load_served(cache, meta, fresh)),
        access_run(caching_begin(source, organelle_present), cache, meta, fresh, write_ok).1 == (
        if write_ok {
            cache_after_load(cache, meta, fresh)
        } else {
            cache
        }),
{
}

/// Building the accessor twice from the same input gives the same values,
/// bit for bit, and the second run is served from the cache: after a run
/// whose write succeeded, a second run under the same fingerprint finds the
/// values in the cache file, serves what the first run served, whatever it
/// would have computed itself, and leaves the file as it found it. The
/// values computed on a miss must be those of as many cells as the
/// fingerprint names, and the scale must be a number.
pub proof fn lemma_second_run_is_served_from_cache(
    source: InputSourceKind,
    organelle_present: bool,
    cache: Option<Seq<u8>>,
    meta: CacheMeta,
    fresh: CachedNormalizedModel,
    again: CachedNormalizedModel,
    write_ok: bool,
)
    requires
        source == InputSourceKind::OrganelleBin ==> organelle_present,
        fresh.fits(meta.n_cells as nat),
        !float_bits_nan(meta.scale_bits),
    ensures
        ({
            let begin = caching_begin(source, organelle_present);
            let first = access_run(begin, cache, meta, fresh, true);
            let second = access_run(begin, first.1, meta, again, write_ok);
            &&& cached_values(first.1, meta) is Some
            &&& second.0 == first.0
            &&& second.1 == first.1
        }),
{
    lemma_run_serves_the_load(source, organelle_present, cache, meta, fresh, true);
    lemma_second_load_serves_the_same(cache, meta, fresh, again);
    let first = access_run(caching_begin(source, organelle_present), cache, meta, fresh, true);
    lemma_run_serves_the_load(source, organelle_present, first.1, meta, again, write_ok);
}

/// A run always ends in serving or in the failure of a missing container:
/// no step of it is asked for in a state that it does not belong to.
pub proof fn lemma_run_never_stuck(
    source: InputSourceKind,
    organelle_present: bool,
    normalize: bool,
    cache_normalized: bool,
    cache: Option<Seq<u8>>,
    meta: CacheMeta,
    fresh: CachedNormalizedModel,
    write_ok: bool,
)
    ensures
        ({
            let begin = AccessEvent::Begin { source, organelle_present, normalize, cache_normalized };
            let run = access_run(begin, cache, meta, fresh, write_ok);
            &&& run.0 != AccessOutcome::Stuck
            &&& run.0 == AccessOutcome::MissingContainer <==> source == InputSourceKind::OrganelleBin
                && !organelle_present
            &&& !(normalize && cache_normalized) ==> run.1 == cache
        }),
{
}

/// The error of a bundle that names a container and holds none.
pub fn missing_container_error() -> (e: Stage2Error)
    ensures
        e@ == Stage2ErrorView::Input(InputErrorView::InvalidInput("missing organelle bin"@)),
{
    Stage2Error::Input(InputError::invalid("missing organelle bin"))
}

/// The counts of a text matrix, cell by cell, with the statistics of every
/// cell.
pub struct RawCountsAccessor {
    cols: Vec<Vec<(u32, i64)>>,
    libsizes: Vec<i128>,
    nnz: Vec<u32>,
    n_genes: usize,
}

impl RawCountsAccessor {
    /// The columns that the accessor serves.
    pub closed spec fn columns(&self) -> Seq<Seq<(u32, i64)>> {
        self.cols@.map_values(|col: Vec<(u32, i64)>| col@)
    }

    /// The number of genes that the accessor was made for.
    pub closed spec fn genes(&self) -> nat {
        self.n_genes as nat
    }

    /// The statistics are those of the columns.
    #[verifier::type_invariant]
    closed spec fn wf(&self) -> bool {
        &&& self.libsizes@.len() == self.cols@.len()
        &&& self.nnz@.len() == self.cols@.len()
        &&& forall|c: int|
            0 <= c < self.cols@.len() ==> (#[trigger] self.libsizes@[c]) == column_total(
                self.cols@[c]@,
            )
        &&& forall|c: int|
            0 <= c < self.cols@.len() ==> (#[trigger] self.nnz@[c]) == self.cols@[c]@.len()
                % 0x1_0000_0000
    }

    /// Takes the columns of a text matrix and computes their statistics.
    pub fn new(csc: CscMatrix, n_genes: usize) -> (accessor: RawCountsAccessor)
        ensures
            accessor.columns() == csc.cols@.map_values(|col: Vec<(u32, i64)>| col@),
            accessor.genes() == n_genes,
    {
        let (libsizes, nnz) = compute_stats(&csc);
        RawCountsAccessor { cols: csc.cols, libsizes, nnz, n_genes }
    }

    /// The number of cells.
    pub fn n_cells(&self) -> (n: usize)
        ensures
            n == self.columns().len(),
    {
        self.cols.len()
    }

    /// The number of genes.
    pub fn n_genes(&self) -> (n: usize)
        ensures
            n == self.genes(),
    {
        self.n_genes
    }

    /// The pairs of gene and count of a cell, in ascending order of gene as
    /// the matrix has them.
    pub fn for_cell(&self, cell: usize) -> (col: &Vec<(u32, i64)>)
        requires
            cell < self.columns().len(),
        ensures
            col@ == self.columns()[cell as int],
    {
        &self.cols[cell]
    }

    /// The library size of a cell: the exact sum of its counts.
    pub fn libsize(&self, cell: usize) -> (total: i128)
        requires
            cell < self.columns().len(),
        ensures
            total == column_total(self.columns()[cell as int]),
    {
        proof {
            use_type_invariant(self);
        }
        self.libsizes[cell]
    }

    /// The number of entries of a cell, as far as it fits 32 bits.
    pub fn nnz(&self, cell: usize) -> (count: u32)
        requires
            cell < self.columns().len(),
        ensures
            count == self.columns()[cell as int].len() % 0x1_0000_0000,
    {
        proof {
            use_type_invariant(self);
        }
        self.nnz[cell]
    }
}

/// The counts of a container, cell by cell, mapped through a gene index,
/// with the statistics of every cell.
pub struct OrganelleCountsAccessor {
    csc: CscView,
    gene_index: GeneIndex,
    libsizes: Vec<u128>,
    nnz: Vec<u32>,
    n_genes: usize,
}

impl OrganelleCountsAccessor {
    /// The number of cells that the accessor serves.
    pub closed spec fn cells(&self) -> nat {
        self.csc.n_cells as nat
    }

    /// The number of genes that the accessor was made for.
    pub closed spec fn genes(&self) -> nat {
        self.n_genes as nat
    }

    /// The mapped pairs of a cell.
    pub closed spec fn column(&self, cell: int) -> Seq<(u32, u32)> {
        mapped_pairs(
            self.csc.row_idx@,
            self.csc.values@,
            self.gene_index.gene_id_by_feature@,
            self.csc.col_ptr@[cell] as int,
            self.csc.col_ptr@[cell + 1] as int,
        )
    }

    /// The matrix keeps its invariant, and the statistics are those of the
    /// mapped pairs.
    #[verifier::type_invariant]
    closed spec fn wf(&self) -> bool {
        &&& self.csc.wf()
        &&& self.libsizes@.len() == self.csc.n_cells
        &&& self.nnz@.len() == self.csc.n_cells
        &&& forall|c: int|
            0 <= c < self.csc.n_cells ==> (#[trigger] self.libsizes@[c]) == pairs_total(
                self.column(c),
            )
        &&& forall|c: int|
            0 <= c < self.csc.n_cells ==> (#[trigger] self.nnz@[c]) == self.column(c).len()
                % 0x1_0000_0000
    }

    /// Takes the matrix of a container and a gene index, and computes the
    /// statistics of the mapped entries.
    pub fn new(csc: CscView, gene_index: GeneIndex, n_genes: usize) -> (accessor:
        OrganelleCountsAccessor)
        requires
            csc.wf(),
        ensures
            accessor.cells() == csc.n_cells,
            accessor.genes() == n_genes,
            forall|c: int|
                0 <= c < csc.n_cells ==> #[trigger] accessor.column(c) == mapped_pairs(
                    csc.row_idx@,
                    csc.values@,
                    gene_index.gene_id_by_feature@,
                    csc.col_ptr@[c] as int,
                    csc.col_ptr@[c + 1] as int,
                ),
    {
        let (libsizes, nnz) = compute_stats_organelle(&csc, &gene_index);
        OrganelleCountsAccessor { csc, gene_index, libsizes, nnz, n_genes }
    }

    /// The number of cells.
    pub fn n_cells(&self) -> (n: usize)
        ensures
            n == self.cells(),
    {
        self.csc.n_cells
    }

    /// The number of genes.
    pub fn n_genes(&self) -> (n: usize)
        ensures
            n == self.genes(),
    {
        self.n_genes
    }

    /// The pairs of gene and count of a cell: one for each entry whose
    /// feature row has a gene identifier, in entry order.
    pub fn for_cell(&self, cell: usize) -> (col: Vec<(u32, u32)>)
        requires
            cell < self.cells(),
        ensures
            col@ == self.column(cell as int),
    {
        proof {
            use_type_invariant(self);
        }
        organelle_column(&self.csc, &self.gene_index, cell)
    }

    /// The library size of a cell: the exact sum of its mapped counts.
    pub fn libsize(&self, cell: usize) -> (total: u128)
        requires
            cell < self.cells(),
        ensures
            total == pairs_total(self.column(cell as int)),
    {
        proof {
            use_type_invariant(self);
        }
        self.libsizes[cell]
    }

    /// The number of mapped entries of a cell, as far as it fits 32 bits.
    pub fn nnz(&self, cell: usize) -> (count: u32)
        requires
            cell < self.cells(),
        ensures
            count == self.column(cell as int).len() % 0x1_0000_0000,
    {
        proof {
            use_type_invariant(self);
        }
        self.nnz[cell]
    }
}

/// Cached values, served as they were read: library sizes and values are
/// the bits of 32-bit floats.
pub struct CachedNormalizedAccessor {
    cols: Vec<Vec<(u32, u32)>>,
    libsizes: Vec<u32>,
    nnz: Vec<u32>,
    n_genes: usize,
}

impl CachedNormalizedAccessor {
    /// The cached values that the accessor serves.
    pub closed spec fn data(&self) -> CachedNormalizedModel {
        CachedNormalizedModel {
            libsizes: self.libsizes@,
            nnz: self.nnz@,
            columns: self.cols@.map_values(|col: Vec<(u32, u32)>| col@),
        }
    }

    /// The number of genes that the accessor was made for.
    pub closed spec fn genes(&self) -> nat {
        self.n_genes as nat
    }

    /// Takes cached values as they are.
    pub fn new(cached: CachedNormalizedData, n_genes: usize) -> (accessor: CachedNormalizedAccessor)
        ensures
            accessor.data() == cached@,
            accessor.genes() == n_genes,
    {
        CachedNormalizedAccessor {
            cols: cached.columns,
            libsizes: cached.libsizes,
            nnz: cached.nnz,
            n_genes,
        }
    }

    /// The number of cells.
    pub fn n_cells(&self) -> (n: usize)
        ensures
            n == self.data().columns.len(),
    {
        self.cols.len()
    }

    /// The number of genes.
    pub fn n_genes(&self) -> (n: usize)
        ensures
            n == self.genes(),
    {
        self.n_genes
    }

    /// The pairs of gene and value of a cell.
    pub fn for_cell(&self, cell: usize) -> (col: &Vec<(u32, u32)>)
        requires
            cell < self.data().columns.len(),
        ensures
            col@ == self.data().columns[cell as int],
    {
        &self.cols[cell]
    }

    /// The library size of a cell.
    pub fn libsize(&self, cell: usize) -> (bits: u32)
        requires
            cell < self.data().libsizes.len(),
        ensures
            bits == self.data().libsizes[cell as int],
    {
        self.libsizes[cell]
    }

    /// The count of non-zero entries of a cell.
    pub fn nnz(&self, cell: usize) -> (count: u32)
        requires
            cell < self.data().nnz.len(),
        ensures
            count == self.data().nnz[cell as int],
    {
        self.nnz[cell]
    }
}

} // verus!
