//! Reader for the text interchange format of sparse matrices.

use vstd::prelude::*;
use vstd::std_specs::btree::increasing_seq;
use vstd::std_specs::iter::IteratorSpec;
use std::collections::BTreeMap;
use crate::input::{
    find_candidate, found_path, matrix_candidates, matrix_names, path_result_is, GeneIndex,
    InputError, InputErrorView,
};
use crate::input::mtx_order::lemma_increasing_keys;
use crate::text::{
    chars_of, chars_start_with, decimal, fields, fold_lines, lemma_fold_lines_failure_stays, lines,
    numbered_message, parse_i64, push_decimal, parse_signed, parse_unsigned, parse_usize, split_fields,
    split_lines, starts_with, trim_end, trim_end_chars, views,
};

verus! {

broadcast use vstd::std_specs::btree::group_btree_axioms;

/// A sparse matrix by columns: for each cell the pairs of gene identifier and
/// count, in ascending order of gene identifier.
#[derive(Debug, Clone)]
pub struct CscMatrix {
    pub n_rows: usize,
    pub n_cols: usize,
    pub cols: Vec<Vec<(u32, i64)>>,
}

impl CscMatrix {
    /// The invariant of the matrix: one column for each cell, and in every
    /// column the genes ascend strictly.
    pub open spec fn wf(&self) -> bool {
        &&& self.cols@.len() == self.n_cols
        &&& forall|c: int, a: int, b: int|
            0 <= c < self.cols@.len() && 0 <= a < b < self.cols@[c]@.len() ==> (
            #[trigger] self.cols@[c]@[a]).0 < (#[trigger] self.cols@[c]@[b]).0
    }
}

/// One entry of the text matrix: zero-based feature row, zero-based cell
/// column, and count.
#[derive(Debug, Clone, Copy, PartialEq, Eq, Structural)]
pub struct MtxEntry {
    pub row: usize,
    pub col: usize,
    pub value: i64,
}

/// The path of the matrix file in a directory. `exists` says of each name
/// of [`matrix_candidates`] whether a file of that name is there.
pub fn find_matrix_path(input_dir: &str, exists: &[bool]) -> (r: Result<String, InputError>)
    ensures
        path_result_is(
            r,
            found_path(input_dir@, matrix_names(), exists@, "missing matrix.mtx or matrix.mtx.gz"@),
        ),
{
    let names: Vec<&'static str> = matrix_candidates();
    find_candidate(input_dir, names.as_slice(), exists, "missing matrix.mtx or matrix.mtx.gz")
}

/// The magic token that the first line begins with.
pub open spec fn mtx_magic() -> Seq<char> {
    "%%MatrixMarket"@
}

/// Whether a line is passed over: blank, or a comment that begins with `%`.
pub open spec fn is_comment_or_blank(line: Seq<char>) -> bool {
    let t = trim_end(line);
    t.len() == 0 || t[0] == '%'
}

/// The first line at or after `from` that is neither blank nor a comment, or
/// the number of lines where there is none.
pub open spec fn first_content_line(ls: Seq<Seq<char>>, from: int) -> int
    decreases ls.len() - from,
{
    if from < 0 || from >= ls.len() {
        ls.len() as int
    } else if is_comment_or_blank(ls[from]) {
        first_content_line(ls, from + 1)
    } else {
        from
    }
}

/// The three numbers of the dimensions line: rows, columns, and the declared
/// count of entries. A line that does not give them is refused under
/// `line_no`, its place in the text counted from 1.
pub open spec fn mtx_size_line(line: Seq<char>, line_no: nat) -> Result<
    (nat, nat, nat),
    InputErrorView,
> {
    let f = fields(trim_end(line));
    if f.len() < 3 {
        Err(InputErrorView::Parse("invalid matrix size line at line "@ + decimal(line_no)))
    } else {
        match parse_unsigned(f[0], usize::MAX as nat) {
            None => Err(InputErrorView::Parse("invalid row count at line "@ + decimal(line_no))),
            Some(rows) => match parse_unsigned(f[1], usize::MAX as nat) {
                None => Err(
                    InputErrorView::Parse("invalid column count at line "@ + decimal(line_no)),
                ),
                Some(cols) => match parse_unsigned(f[2], usize::MAX as nat) {
                    None => Err(
                        InputErrorView::Parse("invalid nnz count at line "@ + decimal(line_no)),
                    ),
                    Some(nnz) => Ok((rows, cols, nnz)),
                },
            },
        }
    }
}

/// What one line after the dimensions line gives, in a matrix of `rows` by
/// `cols`: nothing for a blank line, a comment or a zero count; an entry with
/// zero-based positions; or the failure of the whole reading, which names
/// the line by `line_no`, its place in the text counted from 1.
pub open spec fn mtx_data_line(line: Seq<char>, line_no: nat, rows: nat, cols: nat) -> Result<
    Option<MtxEntry>,
    InputErrorView,
> {
    if is_comment_or_blank(line) {
        Ok(None)
    } else {
        let f = fields(trim_end(line));
        if f.len() < 3 {
            Err(InputErrorView::Parse("invalid matrix entry at line "@ + decimal(line_no)))
        } else {
            match parse_unsigned(f[0], usize::MAX as nat) {
                None => Err(InputErrorView::Parse("invalid row index at line "@ + decimal(line_no))),
                Some(row) => match parse_unsigned(f[1], usize::MAX as nat) {
                    None => Err(
                        InputErrorView::Parse("invalid col index at line "@ + decimal(line_no)),
                    ),
                    Some(col) => match parse_signed(f[2], i64::MIN as int, i64::MAX as int) {
                        None => Err(
                            InputErrorView::Parse("invalid value at line "@ + decimal(line_no)),
                        ),
                        Some(value) => if row == 0 || row > rows || col == 0 || col > cols {
                            Err(
                                InputErrorView::Parse(
                                    "matrix entry out of bounds at line "@ + decimal(line_no),
                                ),
                            )
                        } else if value == 0 {
                            Ok(None)
                        } else {
                            Ok(
                                Some(
                                    MtxEntry {
                                        row: (row - 1) as usize,
                                        col: (col - 1) as usize,
                                        value: value as i64,
                                    },
                                ),
                            )
                        },
                    },
                },
            }
        }
    }
}

/// [`mtx_data_line`] for a matrix of given dimensions, as a function of the
/// line and its number among the lines of entries, which stand after the
/// first `before` lines of the text: the line is named by its place in the
/// text.
pub open spec fn mtx_line_fn(rows: nat, cols: nat, before: nat) -> spec_fn(
    Seq<char>,
    nat,
) -> Result<Option<MtxEntry>, InputErrorView> {
    |line: Seq<char>, n: nat| mtx_data_line(line, before + n, rows, cols)
}

/// The entries that the lines of a text matrix give, in line order, or why
/// the lines are refused. The first line must begin with the magic token.
/// Of the lines after it the first that is neither blank nor a comment gives
/// the dimensions, which must be the known counts of features and cells.
/// Every later line gives at most one entry. A failure names its line by
/// the line's place in the text, counted from 1: the line of the dimensions
/// and every line of entries alike.
pub open spec fn mtx_lines_entries(ls: Seq<Seq<char>>, n_features_raw: nat, n_cells: nat) -> Result<
    Seq<MtxEntry>,
    InputErrorView,
> {
    if ls.len() == 0 {
        Err(InputErrorView::Parse("matrix.mtx is empty"@))
    } else if !starts_with(trim_end(ls[0]), mtx_magic()) {
        Err(InputErrorView::Parse("missing MatrixMarket header"@))
    } else {
        let k = first_content_line(ls, 1);
        if k >= ls.len() {
            Err(InputErrorView::Parse("missing matrix size line"@))
        } else {
            match mtx_size_line(ls[k], (k + 1) as nat) {
                Err(e) => Err(e),
                Ok((rows, cols, nnz)) => if rows != n_features_raw {
                    Err(
                        InputErrorView::InvalidInput(
                            "matrix row count "@ + decimal(rows) + " does not match features "@
                                + decimal(n_features_raw),
                        ),
                    )
                } else if cols != n_cells {
                    Err(
                        InputErrorView::InvalidInput(
                            "matrix column count "@ + decimal(cols) + " does not match barcodes "@
                                + decimal(n_cells),
                        ),
                    )
                } else {
                    fold_lines(ls.skip(k + 1), mtx_line_fn(rows, cols, (k + 1) as nat))
                },
            }
        }
    }
}

/// Whether every entry lies inside a matrix of `n_rows` by `n_cols`.
pub open spec fn entries_in_bounds(entries: Seq<MtxEntry>, n_rows: nat, n_cols: nat) -> bool {
    forall|i: int|
        0 <= i < entries.len() ==> (#[trigger] entries[i]).row < n_rows && entries[i].col < n_cols
}

/// The gene that a feature row stands for in a column: the row's identifier,
/// as far as it fits 32 bits; nothing for a row without identifier or beyond
/// the index.
pub open spec fn gene_of_row(ids: Seq<Option<usize>>, row: int) -> Option<u32> {
    if 0 <= row < ids.len() {
        match ids[row] {
            Some(g) => Some((g as int % 0x1_0000_0000) as u32),
            None => None,
        }
    } else {
        None
    }
}

/// Whether entry `e` counts towards gene `g` of cell `c`.
pub open spec fn entry_hits(e: MtxEntry, ids: Seq<Option<usize>>, c: int, g: u32) -> bool {
    e.col == c && e.value != 0 && gene_of_row(ids, e.row as int) == Some(g)
}

/// Whether any entry counts towards gene `g` of cell `c`.
pub open spec fn column_has(entries: Seq<MtxEntry>, ids: Seq<Option<usize>>, c: int, g: u32) -> bool {
    exists|i: int| 0 <= i < entries.len() && entry_hits(#[trigger] entries[i], ids, c, g)
}

/// The sum of the counts of the entries that count towards gene `g` of cell
/// `c`.
pub open spec fn column_sum(entries: Seq<MtxEntry>, ids: Seq<Option<usize>>, c: int, g: u32) -> int
    decreases entries.len(),
{
    if entries.len() == 0 {
        0
    } else {
        column_sum(entries.drop_last(), ids, c, g) + (if entry_hits(entries.last(), ids, c, g) {
            entries.last().value as int
        } else {
            0
        })
    }
}

/// Whether every sum of a column fits the 64 bits of a count.
pub open spec fn sums_fit(entries: Seq<MtxEntry>, ids: Seq<Option<usize>>, n_cols: nat) -> bool {
    forall|c: int, g: u32|
        0 <= c < n_cols && #[trigger] column_has(entries, ids, c, g) ==> i64::MIN <= column_sum(
            entries,
            ids,
            c,
            g,
        ) <= i64::MAX
}

/// Whether `col` is the column of cell `c`: ascending in gene, one pair for
/// each gene that an entry counts towards, with the sum of those entries.
pub open spec fn is_column(
    col: Seq<(u32, i64)>,
    entries: Seq<MtxEntry>,
    ids: Seq<Option<usize>>,
    c: int,
) -> bool {
    &&& forall|a: int, b: int| 0 <= a < b < col.len() ==> col[a].0 < col[b].0
    &&& forall|k: int|
        0 <= k < col.len() ==> column_has(entries, ids, c, (#[trigger] col[k]).0) && col[k].1
            == column_sum(entries, ids, c, col[k].0)
    &&& forall|g: u32|
        column_has(entries, ids, c, g) ==> exists|k: int|
            0 <= k < col.len() && (#[trigger] col[k]).0 == g
}

/// Whether `m` is the matrix that `entries` make in `n_rows` by `n_cols`.
pub open spec fn is_matrix_of(
    m: CscMatrix,
    entries: Seq<MtxEntry>,
    ids: Seq<Option<usize>>,
    n_rows: nat,
    n_cols: nat,
) -> bool {
    &&& m.n_rows == n_rows
    &&& m.n_cols == n_cols
    &&& m.cols@.len() == n_cols
    &&& forall|c: int| 0 <= c < n_cols ==> is_column((#[trigger] m.cols@[c])@, entries, ids, c)
}

/// A sum of `n` counts is at most `n` times the largest count away from zero.
pub proof fn lemma_column_sum_bound(
    entries: Seq<MtxEntry>,
    ids: Seq<Option<usize>>,
    c: int,
    g: u32,
)
    ensures
        -(entries.len() * 0x8000_0000_0000_0000) <= column_sum(entries, ids, c, g) <= entries.len()
            * 0x8000_0000_0000_0000,
    decreases entries.len(),
{
    if entries.len() > 0 {
        lemma_column_sum_bound(entries.drop_last(), ids, c, g);
        assert(entries.len() * 0x8000_0000_0000_0000 == entries.drop_last().len()
            * 0x8000_0000_0000_0000 + 0x8000_0000_0000_0000) by (nonlinear_arith)
            requires
                entries.drop_last().len() + 1 == entries.len(),
        ;
    }
}

/// Where no entry counts, the sum is zero.
pub proof fn lemma_column_sum_without_hits(
    entries: Seq<MtxEntry>,
    ids: Seq<Option<usize>>,
    c: int,
    g: u32,
)
    requires
        !column_has(entries, ids, c, g),
    ensures
        column_sum(entries, ids, c, g) == 0,
    decreases entries.len(),
{
    if entries.len() > 0 {
        assert(!entry_hits(entries[entries.len() - 1], ids, c, g));
        assert forall|i: int| 0 <= i < entries.drop_last().len() implies !entry_hits(
            #[trigger] entries.drop_last()[i],
            ids,
            c,
            g,
        ) by {
            assert(entries.drop_last()[i] == entries[i]);
        }
        lemma_column_sum_without_hits(entries.drop_last(), ids, c, g);
    }
}

/// What one more entry adds to a column.
pub proof fn lemma_column_push(
    entries: Seq<MtxEntry>,
    e: MtxEntry,
    ids: Seq<Option<usize>>,
    c: int,
    g: u32,
)
    ensures
        column_has(entries.push(e), ids, c, g) <==> column_has(entries, ids, c, g) || entry_hits(
            e,
            ids,
            c,
            g,
        ),
        column_sum(entries.push(e), ids, c, g) == column_sum(entries, ids, c, g) + (if entry_hits(
            e,
            ids,
            c,
            g,
        ) {
            e.value as int
        } else {
            0
        }),
{
    let longer = entries.push(e);
    assert(longer.drop_last() =~= entries);
    assert(longer.last() == e);
    if column_has(entries, ids, c, g) {
        let i = choose|i: int| 0 <= i < entries.len() && entry_hits(#[trigger] entries[i], ids, c, g);
        assert(longer[i] == entries[i]);
    }
    if entry_hits(e, ids, c, g) {
        assert(longer[entries.len() as int] == e);
    }
    if column_has(longer, ids, c, g) {
        let i = choose|i: int| 0 <= i < longer.len() && entry_hits(#[trigger] longer[i], ids, c, g);
        if i < entries.len() {
            assert(entries[i] == longer[i]);
        }
    }
}

/// Taking out one entry takes its count out of the sum.
pub proof fn lemma_column_sum_remove(
    entries: Seq<MtxEntry>,
    j: int,
    ids: Seq<Option<usize>>,
    c: int,
    g: u32,
)
    requires
        0 <= j < entries.len(),
    ensures
        column_sum(entries, ids, c, g) == column_sum(entries.remove(j), ids, c, g) + (
        if entry_hits(entries[j], ids, c, g) {
            entries[j].value as int
        } else {
            0
        }),
    decreases entries.len(),
{
    if j == entries.len() - 1 {
        assert(entries.remove(j) =~= entries.drop_last());
    } else {
        lemma_column_sum_remove(entries.drop_last(), j, ids, c, g);
        assert(entries.remove(j).drop_last() =~= entries.drop_last().remove(j));
        assert(entries.remove(j).last() == entries.last());
        assert(entries.drop_last()[j] == entries[j]);
    }
}

/// The sums of a column do not depend on the order of the entries.
pub proof fn lemma_column_sum_permutation(
    first: Seq<MtxEntry>,
    second: Seq<MtxEntry>,
    ids: Seq<Option<usize>>,
    c: int,
    g: u32,
)
    requires
        first.to_multiset() == second.to_multiset(),
    ensures
        column_sum(first, ids, c, g) == column_sum(second, ids, c, g),
    decreases first.len(),
{
    broadcast use vstd::seq_lib::group_to_multiset_ensures;

    first.to_multiset_ensures();
    second.to_multiset_ensures();
    if first.len() == 0 {
        assert(second.len() == 0);
    } else {
        let e = first.last();
        assert(first[first.len() - 1] == e);
        assert(first.contains(e));
        assert(second.to_multiset().count(e) > 0);
        assert(second.contains(e));
        let j = choose|j: int| 0 <= j < second.len() && second[j] == e;
        assert(first.drop_last() =~= first.remove(first.len() - 1));
        assert(first.drop_last().to_multiset() =~= first.to_multiset().remove(e));
        assert(second.remove(j).to_multiset() =~= second.to_multiset().remove(e));
        lemma_column_sum_permutation(first.drop_last(), second.remove(j), ids, c, g);
        lemma_column_sum_remove(second, j, ids, c, g);
    }
}

/// Which genes a column has does not depend on the order of the entries.
pub proof fn lemma_column_has_permutation(
    first: Seq<MtxEntry>,
    second: Seq<MtxEntry>,
    ids: Seq<Option<usize>>,
    c: int,
    g: u32,
)
    requires
        first.to_multiset() == second.to_multiset(),
        column_has(first, ids, c, g),
    ensures
        column_has(second, ids, c, g),
{
    first.to_multiset_ensures();
    second.to_multiset_ensures();
    let i = choose|i: int| 0 <= i < first.len() && entry_hits(#[trigger] first[i], ids, c, g);
    assert(first.contains(first[i]));
    assert(second.to_multiset().count(first[i]) > 0);
    assert(second.contains(first[i]));
    let j = choose|j: int| 0 <= j < second.len() && second[j] == first[i];
    assert(entry_hits(second[j], ids, c, g));
}

/// Two ascending columns with the same genes and sums are the same column.
pub proof fn lemma_column_unique(
    a: Seq<(u32, i64)>,
    b: Seq<(u32, i64)>,
    entries: Seq<MtxEntry>,
    ids: Seq<Option<usize>>,
    c: int,
)
    requires
        is_column(a, entries, ids, c),
        is_column(b, entries, ids, c),
    ensures
        a == b,
{
    lemma_positions_agree(a, b, entries, ids, c, a.len() as int);
    lemma_positions_agree(b, a, entries, ids, c, b.len() as int);
    if a.len() < b.len() {
        // `b` has a gene at place `a.len()`; `a` has it at a place below, where `b` has it too.
        assert(column_has(entries, ids, c, b[a.len() as int].0));
        let k = choose|k: int| 0 <= k < a.len() && (#[trigger] a[k]).0 == b[a.len() as int].0;
        assert(b[k].0 == a[k].0);
    } else if b.len() < a.len() {
        assert(column_has(entries, ids, c, a[b.len() as int].0));
        let k = choose|k: int| 0 <= k < b.len() && (#[trigger] b[k]).0 == a[b.len() as int].0;
        assert(a[k].0 == b[k].0);
    }
    assert(a =~= b);
}

/// Below `n`, where both columns reach, they hold the same pairs.
proof fn lemma_positions_agree(
    a: Seq<(u32, i64)>,
    b: Seq<(u32, i64)>,
    entries: Seq<MtxEntry>,
    ids: Seq<Option<usize>>,
    c: int,
    n: int,
)
    requires
        is_column(a, entries, ids, c),
        is_column(b, entries, ids, c),
        0 <= n <= a.len(),
    ensures
        forall|k: int| 0 <= k < n && k < b.len() ==> a[k] == b[k],
    decreases n,
{
    if n > 0 {
        lemma_positions_agree(a, b, entries, ids, c, n - 1);
        let k = n - 1;
        if k < b.len() {
            // Each column has the other's gene at place `k`; were the places
            // different, one column would not ascend.
            assert(column_has(entries, ids, c, a[k].0));
            assert(column_has(entries, ids, c, b[k].0));
            let kb = choose|j: int| 0 <= j < b.len() && (#[trigger] b[j]).0 == a[k].0;
            let ka = choose|j: int| 0 <= j < a.len() && (#[trigger] a[j]).0 == b[k].0;
            if kb < k {
                assert(a[kb] == b[kb]);
            }
            if ka < k {
                assert(a[ka] == b[ka]);
            }
            assert(a[k].0 == b[k].0);
        }
    }
}

/// Under a gene index that keeps its invariant and has no more symbols
/// than 32 bits count, every gene of a column is a gene of the index.
pub proof fn lemma_column_genes_in_index(
    col: Seq<(u32, i64)>,
    entries: Seq<MtxEntry>,
    index: GeneIndex,
    c: int,
    k: int,
)
    requires
        index.wf(),
        index.symbols_by_gene_id@.len() <= 0x1_0000_0000,
        is_column(col, entries, index.gene_id_by_feature@, c),
        0 <= k < col.len(),
    ensures
        col[k].0 < index.symbols_by_gene_id@.len(),
{
    let ids = index.gene_id_by_feature@;
    assert(column_has(entries, ids, c, col[k].0));
    let i = choose|i: int| 0 <= i < entries.len() && entry_hits(#[trigger] entries[i], ids, c, col[k].0);
    let row = entries[i].row as int;
    assert(ids[row] is Some);
}

/// The column of a cell holds exactly the mapped, summed, non-zero entries of
/// that column in ascending order of gene, whatever the order of the lines:
/// two columns made from the same entries in two orders are equal.
pub proof fn lemma_column_independent_of_entry_order(
    first: Seq<MtxEntry>,
    second: Seq<MtxEntry>,
    ids: Seq<Option<usize>>,
    c: int,
    a: Seq<(u32, i64)>,
    b: Seq<(u32, i64)>,
)
    requires
        first.to_multiset() == second.to_multiset(),
        is_column(a, first, ids, c),
        is_column(b, second, ids, c),
    ensures
        a == b,
{
    assert(is_column(a, second, ids, c)) by {
        assert forall|k: int| 0 <= k < a.len() implies column_has(
            second,
            ids,
            c,
            (#[trigger] a[k]).0,
        ) && a[k].1 == column_sum(second, ids, c, a[k].0) by {
            lemma_column_has_permutation(first, second, ids, c, a[k].0);
            lemma_column_sum_permutation(first, second, ids, c, a[k].0);
        }
        assert forall|g: u32| column_has(second, ids, c, g) implies exists|k: int|
            0 <= k < a.len() && (#[trigger] a[k]).0 == g by {
            lemma_column_has_permutation(second, first, ids, c, g);
        }
    }
    lemma_column_unique(a, b, second, ids, c);
}

/// Whether the entries make a matrix does not depend on their order, and
/// neither does the matrix: entries in two orders lie both inside the
/// matrix or not, have both sums that fit or not, and the matrices made of
/// them have the same columns.
pub proof fn lemma_matrix_independent_of_entry_order(
    first: Seq<MtxEntry>,
    second: Seq<MtxEntry>,
    ids: Seq<Option<usize>>,
    n_rows: nat,
    n_cols: nat,
    a: CscMatrix,
    b: CscMatrix,
)
    requires
        first.to_multiset() == second.to_multiset(),
    ensures
        entries_in_bounds(first, n_rows, n_cols) == entries_in_bounds(second, n_rows, n_cols),
        sums_fit(first, ids, n_cols) == sums_fit(second, ids, n_cols),
        is_matrix_of(a, first, ids, n_rows, n_cols) && is_matrix_of(b, second, ids, n_rows, n_cols)
            ==> forall|c: int| 0 <= c < n_cols ==> (#[trigger] a.cols@[c])@ == b.cols@[c]@,
{
    if entries_in_bounds(first, n_rows, n_cols) {
        lemma_bounds_permutation(first, second, n_rows, n_cols);
    }
    if entries_in_bounds(second, n_rows, n_cols) {
        lemma_bounds_permutation(second, first, n_rows, n_cols);
    }
    if sums_fit(first, ids, n_cols) {
        lemma_sums_fit_permutation(first, second, ids, n_cols);
    }
    if sums_fit(second, ids, n_cols) {
        lemma_sums_fit_permutation(second, first, ids, n_cols);
    }
    if is_matrix_of(a, first, ids, n_rows, n_cols) && is_matrix_of(b, second, ids, n_rows, n_cols) {
        assert forall|c: int| 0 <= c < n_cols implies (#[trigger] a.cols@[c])@ == b.cols@[c]@ by {
            assert(is_column(b.cols@[c]@, second, ids, c));
            lemma_column_independent_of_entry_order(first, second, ids, c, a.cols@[c]@, b.cols@[c]@);
        }
    }
}

/// Entries that lie inside a matrix do so in any order.
proof fn lemma_bounds_permutation(
    first: Seq<MtxEntry>,
    second: Seq<MtxEntry>,
    n_rows: nat,
    n_cols: nat,
)
    requires
        first.to_multiset() == second.to_multiset(),
        entries_in_bounds(first, n_rows, n_cols),
    ensures
        entries_in_bounds(second, n_rows, n_cols),
{
    first.to_multiset_ensures();
    second.to_multiset_ensures();
    assert forall|i: int| 0 <= i < second.len() implies (#[trigger] second[i]).row < n_rows
        && second[i].col < n_cols by {
        assert(second.contains(second[i]));
        assert(first.to_multiset().count(second[i]) > 0);
        assert(first.contains(second[i]));
        let j = choose|j: int| 0 <= j < first.len() && first[j] == second[i];
        assert(first[j].row < n_rows);
    }
}

/// Sums that fit do so in any order of the entries.
proof fn lemma_sums_fit_permutation(
    first: Seq<MtxEntry>,
    second: Seq<MtxEntry>,
    ids: Seq<Option<usize>>,
    n_cols: nat,
)
    requires
        first.to_multiset() == second.to_multiset(),
        sums_fit(first, ids, n_cols),
    ensures
        sums_fit(second, ids, n_cols),
{
    assert forall|c: int, g: u32|
        0 <= c < n_cols && #[trigger] column_has(second, ids, c, g) implies i64::MIN <= column_sum(
        second,
        ids,
        c,
        g,
    ) <= i64::MAX by {
        lemma_column_has_permutation(second, first, ids, c, g);
        lemma_column_sum_permutation(first, second, ids, c, g);
    }
}

/// The entries that lines of entries give where none of them is refused:
/// the entry of every line that has one, in line order. The number of a
/// line plays no part in it.
pub open spec fn entries_of_lines(ls: Seq<Seq<char>>, rows: nat, cols: nat) -> Seq<MtxEntry>
    decreases ls.len(),
{
    if ls.len() == 0 {
        Seq::empty()
    } else {
        let before = entries_of_lines(ls.drop_last(), rows, cols);
        match mtx_data_line(ls.last(), 0, rows, cols) {
            Ok(Some(e)) => before.push(e),
            _ => before,
        }
    }
}

/// Whether no line of entries is refused.
pub open spec fn lines_accepted(ls: Seq<Seq<char>>, rows: nat, cols: nat) -> bool {
    forall|i: int| 0 <= i < ls.len() ==> mtx_data_line(#[trigger] ls[i], 0, rows, cols) is Ok
}

/// What a line of entries gives does not depend on its number; only the
/// text of a failure does.
pub proof fn lemma_data_line_number_free(line: Seq<char>, n: nat, m: nat, rows: nat, cols: nat)
    ensures
        mtx_data_line(line, n, rows, cols) is Ok <==> mtx_data_line(line, m, rows, cols) is Ok,
        mtx_data_line(line, n, rows, cols) is Ok ==> mtx_data_line(line, n, rows, cols)
            == mtx_data_line(line, m, rows, cols),
{
}

/// Lines of entries are taken in if and only if none of them is refused,
/// and then they give the entries of [`entries_of_lines`].
pub proof fn lemma_fold_of_accepted_lines(ls: Seq<Seq<char>>, rows: nat, cols: nat, before: nat)
    ensures
        fold_lines(ls, mtx_line_fn(rows, cols, before)) is Ok <==> lines_accepted(ls, rows, cols),
        fold_lines(ls, mtx_line_fn(rows, cols, before)) is Ok ==> fold_lines(
            ls,
            mtx_line_fn(rows, cols, before),
        ) == Ok::<Seq<MtxEntry>, InputErrorView>(entries_of_lines(ls, rows, cols)),
    decreases ls.len(),
{
    let f = mtx_line_fn(rows, cols, before);
    if ls.len() > 0 {
        let shorter = ls.drop_last();
        lemma_fold_of_accepted_lines(shorter, rows, cols, before);
        lemma_data_line_number_free(ls.last(), before + ls.len(), 0, rows, cols);
        assert(f(ls.last(), ls.len()) == mtx_data_line(ls.last(), before + ls.len(), rows, cols));
        if lines_accepted(ls, rows, cols) {
            assert forall|i: int| 0 <= i < shorter.len() implies mtx_data_line(
                #[trigger] shorter[i],
                0,
                rows,
                cols,
            ) is Ok by {
                assert(shorter[i] == ls[i]);
            }
            assert(mtx_data_line(ls[ls.len() - 1], 0, rows, cols) is Ok);
        }
        if fold_lines(ls, f) is Ok {
            assert forall|i: int| 0 <= i < ls.len() implies mtx_data_line(
                #[trigger] ls[i],
                0,
                rows,
                cols,
            ) is Ok by {
                if i < shorter.len() {
                    assert(shorter[i] == ls[i]);
                }
            }
        }
    }
}

/// Taking one line out takes its entry, if it has one, out of the entries.
pub proof fn lemma_entries_of_lines_remove(ls: Seq<Seq<char>>, j: int, rows: nat, cols: nat)
    requires
        0 <= j < ls.len(),
    ensures
        entries_of_lines(ls, rows, cols).to_multiset() == (match mtx_data_line(
            ls[j],
            0,
            rows,
            cols,
        ) {
            Ok(Some(e)) => entries_of_lines(ls.remove(j), rows, cols).to_multiset().insert(e),
            _ => entries_of_lines(ls.remove(j), rows, cols).to_multiset(),
        }),
    decreases ls.len(),
{
    broadcast use vstd::seq_lib::group_to_multiset_ensures;

    if j == ls.len() - 1 {
        assert(ls.remove(j) =~= ls.drop_last());
    } else {
        let shorter = ls.drop_last();
        lemma_entries_of_lines_remove(shorter, j, rows, cols);
        assert(ls.remove(j).drop_last() =~= shorter.remove(j));
        assert(ls.remove(j).last() == ls.last());
        assert(shorter[j] == ls[j]);
        let rest = entries_of_lines(shorter.remove(j), rows, cols);
        match mtx_data_line(ls.last(), 0, rows, cols) {
            Ok(Some(last)) => {
                match mtx_data_line(ls[j], 0, rows, cols) {
                    Ok(Some(e)) => {
                        assert(rest.to_multiset().insert(e).insert(last) =~= rest.to_multiset().insert(
                            last,
                        ).insert(e));
                    },
                    _ => {},
                }
            },
            _ => {},
        }
    }
}

/// Lines of entries in another order are refused or not as before, and
/// give the same entries in another order.
pub proof fn lemma_entries_of_permuted_lines(
    first: Seq<Seq<char>>,
    second: Seq<Seq<char>>,
    rows: nat,
    cols: nat,
)
    requires
        first.to_multiset() == second.to_multiset(),
    ensures
        lines_accepted(first, rows, cols) ==> lines_accepted(second, rows, cols),
        entries_of_lines(first, rows, cols).to_multiset() == entries_of_lines(
            second,
            rows,
            cols,
        ).to_multiset(),
    decreases first.len(),
{
    broadcast use vstd::seq_lib::group_to_multiset_ensures;

    first.to_multiset_ensures();
    second.to_multiset_ensures();
    if lines_accepted(first, rows, cols) {
        assert forall|i: int| 0 <= i < second.len() implies mtx_data_line(
            #[trigger] second[i],
            0,
            rows,
            cols,
        ) is Ok by {
            assert(second.contains(second[i]));
            assert(first.to_multiset().count(second[i]) > 0);
            assert(first.contains(second[i]));
            let j = choose|j: int| 0 <= j < first.len() && first[j] == second[i];
            assert(mtx_data_line(first[j], 0, rows, cols) is Ok);
        }
    }
    if first.len() == 0 {
        assert(second.len() == 0);
    } else {
        let line = first.last();
        assert(first[first.len() - 1] == line);
        assert(first.contains(line));
        assert(second.to_multiset().count(line) > 0);
        assert(second.contains(line));
        let j = choose|j: int| 0 <= j < second.len() && second[j] == line;
        assert(first.drop_last() =~= first.remove(first.len() - 1));
        assert(first.drop_last().to_multiset() =~= first.to_multiset().remove(line));
        assert(second.remove(j).to_multiset() =~= second.to_multiset().remove(line));
        lemma_entries_of_permuted_lines(first.drop_last(), second.remove(j), rows, cols);
        lemma_entries_of_lines_remove(second, j, rows, cols);
    }
}

/// The place of the line of the dimensions in lines that begin as `ls`
/// does up to that line, and what the lines after it give.
pub proof fn lemma_outcome_after_dimensions(
    ls: Seq<Seq<char>>,
    k: int,
    n_features_raw: nat,
    n_cells: nat,
)
    requires
        1 <= k < ls.len(),
        first_content_line(ls.take(k + 1), 1) == k,
    ensures
        first_content_line(ls, 1) == k,
        mtx_lines_entries(ls, n_features_raw, n_cells) is Ok ==> {
            &&& mtx_lines_entries(ls, n_features_raw, n_cells) == Ok::<
                Seq<MtxEntry>,
                InputErrorView,
            >(entries_of_lines(ls.skip(k + 1), n_features_raw, n_cells))
            &&& lines_accepted(ls.skip(k + 1), n_features_raw, n_cells)
            &&& starts_with(trim_end(ls[0]), mtx_magic())
            &&& mtx_size_line(ls[k], (k + 1) as nat) is Ok
            &&& mtx_size_line(ls[k], (k + 1) as nat)->Ok_0.0 == n_features_raw
            &&& mtx_size_line(ls[k], (k + 1) as nat)->Ok_0.1 == n_cells
        },
        starts_with(trim_end(ls[0]), mtx_magic()) && mtx_size_line(ls[k], (k + 1) as nat) is Ok
            && mtx_size_line(ls[k], (k + 1) as nat)->Ok_0.0 == n_features_raw && mtx_size_line(
            ls[k],
            (k + 1) as nat,
        )->Ok_0.1 == n_cells && lines_accepted(ls.skip(k + 1), n_features_raw, n_cells)
            ==> mtx_lines_entries(ls, n_features_raw, n_cells) is Ok,
{
    lemma_content_line_extended(ls.take(k + 1), ls.skip(k + 1), 1);
    assert(ls.take(k + 1) + ls.skip(k + 1) =~= ls);
    lemma_fold_of_accepted_lines(ls.skip(k + 1), n_features_raw, n_cells, (k + 1) as nat);
}

/// A failure names the line by its place in the text. Where the line of
/// the dimensions stands at place `k` of the lines and gives the known
/// counts, and the line at place `j` is the first line of entries that is
/// refused, the matrix fails as that line does under the number `j + 1`:
/// comments, blank lines and the lines before the dimensions are counted.
pub proof fn lemma_refused_line_named_by_place(
    ls: Seq<Seq<char>>,
    k: int,
    j: int,
    n_features_raw: nat,
    n_cells: nat,
)
    requires
        1 <= k < j < ls.len(),
        starts_with(trim_end(ls[0]), mtx_magic()),
        first_content_line(ls.take(k + 1), 1) == k,
        mtx_size_line(ls[k], (k + 1) as nat) is Ok,
        mtx_size_line(ls[k], (k + 1) as nat)->Ok_0.0 == n_features_raw,
        mtx_size_line(ls[k], (k + 1) as nat)->Ok_0.1 == n_cells,
        forall|i: int| k < i < j ==> mtx_data_line(#[trigger] ls[i], 0, n_features_raw, n_cells) is Ok,
        mtx_data_line(ls[j], 0, n_features_raw, n_cells) is Err,
    ensures
        mtx_data_line(ls[j], (j + 1) as nat, n_features_raw, n_cells) is Err,
        mtx_lines_entries(ls, n_features_raw, n_cells) == Err::<Seq<MtxEntry>, InputErrorView>(
            mtx_data_line(ls[j], (j + 1) as nat, n_features_raw, n_cells)->Err_0,
        ),
{
    let f = mtx_line_fn(n_features_raw, n_cells, (k + 1) as nat);
    let data = ls.skip(k + 1);
    let m = j - k - 1;
    lemma_content_line_extended(ls.take(k + 1), data, 1);
    assert(ls.take(k + 1) + data =~= ls);
    let accepted = data.take(m);
    assert forall|i: int| 0 <= i < accepted.len() implies mtx_data_line(
        #[trigger] accepted[i],
        0,
        n_features_raw,
        n_cells,
    ) is Ok by {
        assert(accepted[i] == ls[k + 1 + i]);
    }
    lemma_fold_of_accepted_lines(accepted, n_features_raw, n_cells, (k + 1) as nat);
    let upto = data.take(m + 1);
    assert(upto.drop_last() =~= accepted);
    assert(upto.last() == ls[j]);
    lemma_data_line_number_free(ls[j], (j + 1) as nat, 0, n_features_raw, n_cells);
    assert(f(upto.last(), upto.len()) == mtx_data_line(
        ls[j],
        (j + 1) as nat,
        n_features_raw,
        n_cells,
    ));
    lemma_fold_lines_failure_stays(data, f, m + 1);
}

/// A text matrix does not depend on the order of its lines of entries. Two
/// texts that are the same up to the line of the dimensions, which stands
/// at place `k` of their lines, and have the same lines after it in two
/// orders are both refused or both read, and the matrices read from them
/// have the same columns.
pub proof fn lemma_matrix_independent_of_line_order(
    first: Seq<char>,
    second: Seq<char>,
    k: int,
    n_features_raw: nat,
    n_cells: nat,
    ids: Seq<Option<usize>>,
    a: CscMatrix,
    b: CscMatrix,
)
    requires
        1 <= k < lines(first).len(),
        k < lines(second).len(),
        first_content_line(lines(first), 1) == k,
        lines(first).take(k + 1) == lines(second).take(k + 1),
        lines(first).skip(k + 1).to_multiset() == lines(second).skip(k + 1).to_multiset(),
    ensures
        mtx_outcome(first, n_features_raw, n_cells, ids) is Ok <==> mtx_outcome(
            second,
            n_features_raw,
            n_cells,
            ids,
        ) is Ok,
        mtx_outcome(first, n_features_raw, n_cells, ids) is Ok && is_matrix_of(
            a,
            mtx_outcome(first, n_features_raw, n_cells, ids)->Ok_0,
            ids,
            n_features_raw,
            n_cells,
        ) && is_matrix_of(
            b,
            mtx_outcome(second, n_features_raw, n_cells, ids)->Ok_0,
            ids,
            n_features_raw,
            n_cells,
        ) ==> forall|c: int| 0 <= c < n_cells ==> (#[trigger] a.cols@[c])@ == b.cols@[c]@,
{
    let ls1 = lines(first);
    let ls2 = lines(second);
    let d1 = ls1.skip(k + 1);
    let d2 = ls2.skip(k + 1);
    lemma_content_line_extended(ls1.take(k + 1), d1, 1);
    assert(ls1.take(k + 1) + d1 =~= ls1);
    lemma_content_line_bounds(ls1.take(k + 1), 1);
    assert(first_content_line(ls1.take(k + 1), 1) == k) by {
        assert(ls1.take(k + 1)[k] == ls1[k]);
        lemma_content_line_prefix(ls1, k + 1, 1);
    }
    lemma_outcome_after_dimensions(ls1, k, n_features_raw, n_cells);
    lemma_outcome_after_dimensions(ls2, k, n_features_raw, n_cells);
    assert(ls1[0] == ls1.take(k + 1)[0] && ls2[0] == ls2.take(k + 1)[0]);
    assert(ls1[k] == ls1.take(k + 1)[k] && ls2[k] == ls2.take(k + 1)[k]);
    lemma_entries_of_permuted_lines(d1, d2, n_features_raw, n_cells);
    lemma_entries_of_permuted_lines(d2, d1, n_features_raw, n_cells);
    let e1 = entries_of_lines(d1, n_features_raw, n_cells);
    let e2 = entries_of_lines(d2, n_features_raw, n_cells);
    lemma_matrix_independent_of_entry_order(e1, e2, ids, n_features_raw, n_cells, a, b);
}

/// An entry whose feature row has no gene identifier counts towards no
/// gene: with it or without it, the columns have the same genes and sums.
pub proof fn lemma_entry_without_gene(
    entries: Seq<MtxEntry>,
    e: MtxEntry,
    ids: Seq<Option<usize>>,
    n_cols: nat,
)
    requires
        gene_of_row(ids, e.row as int) is None,
    ensures
        sums_fit(entries.push(e), ids, n_cols) == sums_fit(entries, ids, n_cols),
        forall|col: Seq<(u32, i64)>, c: int| #[trigger]
            is_column(col, entries.push(e), ids, c) == is_column(col, entries, ids, c),
{
    let longer = entries.push(e);
    assert forall|c: int, g: u32|
        (#[trigger] column_has(longer, ids, c, g) == column_has(entries, ids, c, g)) && column_sum(
            longer,
            ids,
            c,
            g,
        ) == column_sum(entries, ids, c, g) by {
        lemma_column_push(entries, e, ids, c, g);
    }
    assert forall|c: int, g: u32|
        (#[trigger] column_has(entries, ids, c, g) == column_has(longer, ids, c, g)) by {
        lemma_column_push(entries, e, ids, c, g);
    }
    assert forall|col: Seq<(u32, i64)>, c: int| #[trigger]
        is_column(col, longer, ids, c) == is_column(col, entries, ids, c) by {
        assert forall|k: int| 0 <= k < col.len() implies (column_has(
            longer,
            ids,
            c,
            (#[trigger] col[k]).0,
        ) == column_has(entries, ids, c, col[k].0) && column_sum(longer, ids, c, col[k].0)
            == column_sum(entries, ids, c, col[k].0)) by {
            lemma_column_push(entries, e, ids, c, col[k].0);
        }
    }
}

/// A line of entries that gives no entry, or an entry whose feature row has
/// no gene identifier, counts for nothing: the text without that line is
/// refused or read as the text with it, and the matrices read from the two
/// have the same columns. The line of the dimensions stands at place `k` of
/// the lines, and the line that is left out at place `j`.
pub proof fn lemma_unmapped_line_counts_for_nothing(
    text: Seq<char>,
    shorter: Seq<char>,
    k: int,
    j: int,
    n_features_raw: nat,
    n_cells: nat,
    ids: Seq<Option<usize>>,
    a: CscMatrix,
    b: CscMatrix,
)
    requires
        1 <= k < j < lines(text).len(),
        first_content_line(lines(text), 1) == k,
        lines(shorter) == lines(text).remove(j),
        match mtx_data_line(lines(text)[j], 0, n_features_raw, n_cells) {
            Ok(Some(e)) => gene_of_row(ids, e.row as int) is None,
            Ok(None) => true,
            Err(_) => false,
        },
    ensures
        mtx_outcome(text, n_features_raw, n_cells, ids) is Ok <==> mtx_outcome(
            shorter,
            n_features_raw,
            n_cells,
            ids,
        ) is Ok,
        mtx_outcome(text, n_features_raw, n_cells, ids) is Ok && is_matrix_of(
            a,
            mtx_outcome(text, n_features_raw, n_cells, ids)->Ok_0,
            ids,
            n_features_raw,
            n_cells,
        ) && is_matrix_of(
            b,
            mtx_outcome(shorter, n_features_raw, n_cells, ids)->Ok_0,
            ids,
            n_features_raw,
            n_cells,
        ) ==> forall|c: int| 0 <= c < n_cells ==> (#[trigger] a.cols@[c])@ == b.cols@[c]@,
{
    broadcast use vstd::seq_lib::group_to_multiset_ensures;

    let ls1 = lines(text);
    let ls2 = lines(shorter);
    let d1 = ls1.skip(k + 1);
    let d2 = ls2.skip(k + 1);
    let at = j - (k + 1);
    assert(ls2.take(k + 1) =~= ls1.take(k + 1));
    assert(d2 =~= d1.remove(at));
    assert(d1[at] == ls1[j]);
    lemma_content_line_prefix(ls1, k + 1, 1);
    lemma_outcome_after_dimensions(ls1, k, n_features_raw, n_cells);
    lemma_outcome_after_dimensions(ls2, k, n_features_raw, n_cells);
    assert(ls1[0] == ls1.take(k + 1)[0] && ls2[0] == ls2.take(k + 1)[0]);
    assert(ls1[k] == ls1.take(k + 1)[k] && ls2[k] == ls2.take(k + 1)[k]);
    // The other lines are refused or not as before.
    if lines_accepted(d1, n_features_raw, n_cells) {
        assert forall|i: int| 0 <= i < d2.len() implies mtx_data_line(
            #[trigger] d2[i],
            0,
            n_features_raw,
            n_cells,
        ) is Ok by {
            if i < at {
                assert(d2[i] == d1[i]);
            } else {
                assert(d2[i] == d1[i + 1]);
            }
        }
    }
    if lines_accepted(d2, n_features_raw, n_cells) {
        assert forall|i: int| 0 <= i < d1.len() implies mtx_data_line(
            #[trigger] d1[i],
            0,
            n_features_raw,
            n_cells,
        ) is Ok by {
            if i < at {
                assert(d1[i] == d2[i]);
            } else if i > at {
                assert(d1[i] == d2[i - 1]);
            }
        }
    }
    let e1 = entries_of_lines(d1, n_features_raw, n_cells);
    let e2 = entries_of_lines(d2, n_features_raw, n_cells);
    lemma_entries_of_lines_remove(d1, at, n_features_raw, n_cells);
    match mtx_data_line(ls1[j], 0, n_features_raw, n_cells) {
        Ok(Some(e)) => {
            let e3 = e2.push(e);
            assert(e3.to_multiset() =~= e2.to_multiset().insert(e));
            lemma_entry_without_gene(e2, e, ids, n_cells);
            lemma_matrix_independent_of_entry_order(e1, e3, ids, n_features_raw, n_cells, a, b);
            if is_matrix_of(b, e2, ids, n_features_raw, n_cells) {
                assert forall|c: int| 0 <= c < n_cells implies is_column(
                    (#[trigger] b.cols@[c])@,
                    e3,
                    ids,
                    c,
                ) by {
                    assert(is_column(b.cols@[c]@, e2, ids, c));
                }
            }
        },
        _ => {
            lemma_matrix_independent_of_entry_order(e1, e2, ids, n_features_raw, n_cells, a, b);
        },
    }
}

/// Where the first content line of some lines lies before place `n`, it is
/// the first content line of the first `n` lines too.
pub proof fn lemma_content_line_prefix(ls: Seq<Seq<char>>, n: int, from: int)
    requires
        0 <= from <= n <= ls.len(),
        first_content_line(ls, from) < n,
    ensures
        first_content_line(ls.take(n), from) == first_content_line(ls, from),
    decreases n - from,
{
    lemma_content_line_bounds(ls, from);
    if from < n {
        assert(ls.take(n)[from] == ls[from]);
        if is_comment_or_blank(ls[from]) {
            lemma_content_line_bounds(ls, from + 1);
            lemma_content_line_prefix(ls, n, from + 1);
        }
    }
}

/// Reads one line after the dimensions line, which stands at place
/// `line_no` of the text.
pub fn parse_mtx_line(line: &[char], line_no: usize, rows: usize, cols: usize) -> (r: Result<
    Option<MtxEntry>,
    InputError,
>)
    ensures
        match r {
            Ok(entry) => mtx_data_line(line@, line_no as nat, rows as nat, cols as nat) == Ok::<
                Option<MtxEntry>,
                InputErrorView,
            >(entry),
            Err(e) => mtx_data_line(line@, line_no as nat, rows as nat, cols as nat) == Err::<
                Option<MtxEntry>,
                InputErrorView,
            >(e@),
        },
{
    let t: Vec<char> = trim_end_chars(line);
    if t.len() == 0 || t[0] == '%' {
        return Ok(None);
    }
    let f: Vec<Vec<char>> = split_fields(t.as_slice());
    if f.len() < 3 {
        return Err(InputError::Parse(numbered_message("invalid matrix entry at line ", line_no)));
    }
    proof {
        assert(views(f@)[0] == f@[0]@);
        assert(views(f@)[1] == f@[1]@);
        assert(views(f@)[2] == f@[2]@);
    }
    let row: usize = match parse_usize(f[0].as_slice()) {
        Some(v) => v,
        None => {
            return Err(InputError::Parse(numbered_message("invalid row index at line ", line_no)));
        },
    };
    let col: usize = match parse_usize(f[1].as_slice()) {
        Some(v) => v,
        None => {
            return Err(InputError::Parse(numbered_message("invalid col index at line ", line_no)));
        },
    };
    let value: i64 = match parse_i64(f[2].as_slice()) {
        Some(v) => v,
        None => {
            return Err(InputError::Parse(numbered_message("invalid value at line ", line_no)));
        },
    };
    if row == 0 || row > rows || col == 0 || col > cols {
        return Err(
            InputError::Parse(numbered_message("matrix entry out of bounds at line ", line_no)),
        );
    }
    if value == 0 {
        return Ok(None);
    }
    Ok(Some(MtxEntry { row: row - 1, col: col - 1, value }))
}

/// Reads the dimensions line, which stands at place `line_no` of the text.
pub fn parse_mtx_size_line(line: &[char], line_no: usize) -> (r: Result<
    (usize, usize, usize),
    InputError,
>)
    ensures
        match r {
            Ok(dims) => mtx_size_line(line@, line_no as nat) == Ok::<(nat, nat, nat), InputErrorView>(
                (dims.0 as nat, dims.1 as nat, dims.2 as nat),
            ),
            Err(e) => mtx_size_line(line@, line_no as nat) == Err::<
                (nat, nat, nat),
                InputErrorView,
            >(e@),
        },
{
    let t: Vec<char> = trim_end_chars(line);
    let f: Vec<Vec<char>> = split_fields(t.as_slice());
    if f.len() < 3 {
        return Err(
            InputError::Parse(numbered_message("invalid matrix size line at line ", line_no)),
        );
    }
    proof {
        assert(views(f@)[0] == f@[0]@);
        assert(views(f@)[1] == f@[1]@);
        assert(views(f@)[2] == f@[2]@);
    }
    let rows: usize = match parse_usize(f[0].as_slice()) {
        Some(v) => v,
        None => {
            return Err(InputError::Parse(numbered_message("invalid row count at line ", line_no)));
        },
    };
    let cols: usize = match parse_usize(f[1].as_slice()) {
        Some(v) => v,
        None => {
            return Err(
                InputError::Parse(numbered_message("invalid column count at line ", line_no)),
            );
        },
    };
    let nnz: usize = match parse_usize(f[2].as_slice()) {
        Some(v) => v,
        None => {
            return Err(InputError::Parse(numbered_message("invalid nnz count at line ", line_no)));
        },
    };
    Ok((rows, cols, nnz))
}

/// Tests a line for being blank or a comment.
pub fn line_is_comment_or_blank(line: &[char]) -> (r: bool)
    ensures
        r == is_comment_or_blank(line@),
{
    let t: Vec<char> = trim_end_chars(line);
    t.len() == 0 || t[0] == '%'
}

/// Whether the map of a column holds, for the entries taken in so far, a sum
/// for each gene that an entry counts towards and for no other.
pub open spec fn map_holds(
    m: Map<u32, i128>,
    entries: Seq<MtxEntry>,
    ids: Seq<Option<usize>>,
    c: int,
) -> bool {
    forall|g: u32|
        #![trigger m.contains_key(g)]
        #![trigger column_has(entries, ids, c, g)]
        (m.contains_key(g) <==> column_has(entries, ids, c, g)) && (m.contains_key(g) ==> m[g]
            == column_sum(entries, ids, c, g))
}

/// The gene that a feature row stands for.
pub fn gene_of(gene_index: &GeneIndex, row: usize) -> (r: Option<u32>)
    ensures
        r == gene_of_row(gene_index.gene_id_by_feature@, row as int),
{
    if row < gene_index.gene_id_by_feature.len() {
        match gene_index.gene_id_by_feature[row] {
            Some(g) => Some((g as u64 % 0x1_0000_0000) as u32),
            None => None,
        }
    } else {
        None
    }
}

/// Whether `col` holds the pairs of the map `m`, in ascending order of key.
pub open spec fn is_column_of_map(col: Seq<(u32, i64)>, m: Map<u32, i128>) -> bool {
    &&& forall|a: int, b: int| 0 <= a < b < col.len() ==> col[a].0 < col[b].0
    &&& forall|k: int|
        0 <= k < col.len() ==> m.contains_key((#[trigger] col[k]).0) && m[col[k].0] == col[k].1
    &&& forall|g: u32|
        m.contains_key(g) ==> exists|k: int| 0 <= k < col.len() && (#[trigger] col[k]).0 == g
}

/// The pairs of an ordered map in ascending order of key, with the sums as
/// counts; nothing where a sum does not fit a count.
pub fn column_of_map(m: &BTreeMap<u32, i128>) -> (r: Option<Vec<(u32, i64)>>)
    ensures
        match r {
            Some(col) => is_column_of_map(col@, m@),
            None => exists|g: u32|
                #[trigger] m@.contains_key(g) && !(i64::MIN <= m@[g] <= i64::MAX),
        },
{
    let mut col: Vec<(u32, i64)> = Vec::new();
    for kv in it: m.iter()
        invariant
            it.seq() == m.iter().remaining(),
            increasing_seq(it.seq().map_values(|kv: (&u32, &i128)| *kv.0)),
            col@.len() == it.index(),
            forall|k: int|
                0 <= k < col@.len() ==> (#[trigger] col@[k]).0 == *it.seq()[k].0 && col@[k].1
                    == *it.seq()[k].1,
    {
        let gene: u32 = *kv.0;
        let sum: i128 = *kv.1;
        if sum < i64::MIN as i128 || sum > i64::MAX as i128 {
            proof {
                assert(m@.contains_key(*it.seq()[it.index() as int].0));
                assert(m@.contains_key(gene));
            }
            return None;
        }
        col.push((gene, sum as i64));
    }
    proof {
        let v = m.iter().remaining();
        let keys = v.map_values(|kv: (&u32, &i128)| *kv.0);
        lemma_increasing_keys(keys);
        assert forall|a: int, b: int| 0 <= a < b < col@.len() implies col@[a].0 < col@[b].0 by {
            assert(keys[a] == col@[a].0);
            assert(keys[b] == col@[b].0);
        }
        assert forall|k: int| 0 <= k < col@.len() implies m@.contains_key((#[trigger] col@[k]).0)
            && m@[col@[k].0] == col@[k].1 by {
            assert(m@.contains_key(*v[k].0));
        }
        assert forall|g: u32| m@.contains_key(g) implies exists|k: int|
            0 <= k < col@.len() && (#[trigger] col@[k]).0 == g by {
            assert(v.contains((&g, &m@[g])));
            let k = choose|k: int| 0 <= k < v.len() && v[k] == (&g, &m@[g]);
            assert(col@[k].0 == g);
        }
        assert(is_column_of_map(col@, m@));
    }
    Some(col)
}

/// Whether the maps hold the sums of every column of the entries taken in
/// so far.
pub open spec fn sums_hold(
    per_col: Seq<BTreeMap<u32, i128>>,
    entries: Seq<MtxEntry>,
    ids: Seq<Option<usize>>,
    n_cols: nat,
) -> bool {
    &&& per_col.len() == n_cols
    &&& forall|k: int| 0 <= k < n_cols ==> map_holds((#[trigger] per_col[k])@, entries, ids, k)
}

/// One empty map of sums for each column.
fn empty_sums(n_cols: usize, Ghost(ids): Ghost<Seq<Option<usize>>>) -> (per_col: Vec<
    BTreeMap<u32, i128>,
>)
    ensures
        sums_hold(per_col@, Seq::<MtxEntry>::empty(), ids, n_cols as nat),
{
    let mut per_col: Vec<BTreeMap<u32, i128>> = Vec::new();
    let mut c: usize = 0;
    while c < n_cols
        invariant
            c <= n_cols,
            per_col@.len() == c,
            forall|k: int| 0 <= k < c ==> (#[trigger] per_col@[k])@ == Map::<u32, i128>::empty(),
        decreases n_cols - c,
    {
        per_col.push(BTreeMap::new());
        c += 1;
    }
    per_col
}

/// Takes one entry into the sums of its column.
fn add_entry(
    per_col: &mut Vec<BTreeMap<u32, i128>>,
    e: MtxEntry,
    gene_index: &GeneIndex,
    Ghost(before): Ghost<Seq<MtxEntry>>,
)
    requires
        sums_hold(old(per_col)@, before, gene_index.gene_id_by_feature@, old(per_col)@.len()),
        e.col < old(per_col)@.len(),
        before.len() < usize::MAX,
    ensures
        sums_hold(
            final(per_col)@,
            before.push(e),
            gene_index.gene_id_by_feature@,
            old(per_col)@.len(),
        ),
{
    let ghost ids = gene_index.gene_id_by_feature@;
    let ghost n_cols = per_col@.len();
    let ghost after = before.push(e);
    let ghost old_maps = per_col@;
    proof {
        assert forall|k: int, g: u32|
            (column_has(after, ids, k, g) <==> #[trigger] column_has(before, ids, k, g)
                || entry_hits(e, ids, k, g)) && column_sum(after, ids, k, g) == column_sum(
                before,
                ids,
                k,
                g,
            ) + (if entry_hits(e, ids, k, g) {
                e.value as int
            } else {
                0
            }) by {
            lemma_column_push(before, e, ids, k, g);
        }
    }
    let gene: Option<u32> = if e.value != 0 {
        gene_of(gene_index, e.row)
    } else {
        None
    };
    match gene {
        Some(g) => {
            let so_far: i128 = match per_col[e.col].get(&g) {
                Some(x) => *x,
                None => 0,
            };
            proof {
                assert(map_holds(old_maps[e.col as int]@, before, ids, e.col as int));
                if !old_maps[e.col as int]@.contains_key(g) {
                    lemma_column_sum_without_hits(before, ids, e.col as int, g);
                }
                assert(so_far == column_sum(before, ids, e.col as int, g));
                assert(entry_hits(e, ids, e.col as int, g));
                lemma_column_sum_bound(after, ids, e.col as int, g);
                assert(after.len() == before.len() + 1);
            }
            let sum: i128 = so_far + e.value as i128;
            per_col[e.col].insert(g, sum);
            proof {
                assert forall|k: int| 0 <= k < n_cols implies map_holds(
                    (#[trigger] per_col@[k])@,
                    after,
                    ids,
                    k,
                ) by {
                    assert(map_holds(old_maps[k]@, before, ids, k));
                    if k == e.col {
                        assert(per_col@[k]@ == old_maps[k]@.insert(g, sum));
                    } else {
                        assert(per_col@[k] == old_maps[k]);
                    }
                }
            }
        },
        None => {
            proof {
                assert forall|k: int| 0 <= k < n_cols implies map_holds(
                    (#[trigger] per_col@[k])@,
                    after,
                    ids,
                    k,
                ) by {
                    assert(map_holds(old_maps[k]@, before, ids, k));
                }
            }
        },
    }
}

/// The columns of the sums: every column in ascending order of gene, or
/// nothing where a sum does not fit a count.
fn columns_of_sums(
    per_col: &Vec<BTreeMap<u32, i128>>,
    Ghost(entries): Ghost<Seq<MtxEntry>>,
    Ghost(ids): Ghost<Seq<Option<usize>>>,
) -> (r: Option<Vec<Vec<(u32, i64)>>>)
    requires
        sums_hold(per_col@, entries, ids, per_col@.len()),
    ensures
        match r {
            Some(cols) => {
                &&& sums_fit(entries, ids, per_col@.len())
                &&& cols@.len() == per_col@.len()
                &&& forall|c: int|
                    0 <= c < cols@.len() ==> is_column((#[trigger] cols@[c])@, entries, ids, c)
            },
            None => !sums_fit(entries, ids, per_col@.len()),
        },
{
    let n_cols: usize = per_col.len();
    let mut cols: Vec<Vec<(u32, i64)>> = Vec::new();
    let mut c: usize = 0;
    while c < n_cols
        invariant
            c <= n_cols,
            n_cols == per_col@.len(),
            sums_hold(per_col@, entries, ids, n_cols as nat),
            cols@.len() == c,
            forall|k: int| 0 <= k < c ==> is_column((#[trigger] cols@[k])@, entries, ids, k),
            forall|k: int, g: u32|
                0 <= k < c && #[trigger] column_has(entries, ids, k, g) ==> i64::MIN <= column_sum(
                    entries,
                    ids,
                    k,
                    g,
                ) <= i64::MAX,
        decreases n_cols - c,
    {
        proof {
            assert(map_holds(per_col@[c as int]@, entries, ids, c as int));
        }
        match column_of_map(&per_col[c]) {
            None => {
                proof {
                    let g = choose|g: u32| #[trigger]
                        per_col@[c as int]@.contains_key(g) && !(i64::MIN
                            <= per_col@[c as int]@[g] <= i64::MAX);
                    assert(column_has(entries, ids, c as int, g));
                }
                return None;
            },
            Some(col) => {
                proof {
                    assert forall|g: u32| #[trigger]
                        column_has(entries, ids, c as int, g) implies i64::MIN <= column_sum(
                        entries,
                        ids,
                        c as int,
                        g,
                    ) <= i64::MAX by {
                        assert(per_col@[c as int]@.contains_key(g));
                        let k = choose|k: int| 0 <= k < col@.len() && (#[trigger] col@[k]).0 == g;
                        assert(col@[k].1 == column_sum(entries, ids, c as int, g));
                    }
                    assert(is_column(col@, entries, ids, c as int));
                }
                cols.push(col);
            },
        }
        c += 1;
    }
    Some(cols)
}

/// The matrix of the given columns.
fn matrix_of_columns(
    n_rows: usize,
    cols: Vec<Vec<(u32, i64)>>,
    Ghost(entries): Ghost<Seq<MtxEntry>>,
    Ghost(ids): Ghost<Seq<Option<usize>>>,
) -> (m: CscMatrix)
    requires
        forall|c: int| 0 <= c < cols@.len() ==> is_column((#[trigger] cols@[c])@, entries, ids, c),
    ensures
        is_matrix_of(m, entries, ids, n_rows as nat, cols@.len()),
        m.wf(),
{
    let n_cols: usize = cols.len();
    let m = CscMatrix { n_rows, n_cols, cols };
    proof {
        assert forall|k: int, a: int, b: int|
            0 <= k < m.cols@.len() && 0 <= a < b < m.cols@[k]@.len() implies (
        #[trigger] m.cols@[k]@[a]).0 < (#[trigger] m.cols@[k]@[b]).0 by {
            assert(is_column(m.cols@[k]@, entries, ids, k));
        }
    }
    m
}

/// Builds the matrix of a list of entries. Each entry with a non-zero count
/// whose feature row has a gene identifier counts towards that gene in its
/// column; entries for the same gene and column are summed; each column comes
/// out in ascending order of gene. An entry outside the matrix is refused,
/// and so is a sum that does not fit a count.
pub fn assemble_csc(
    entries: &[MtxEntry],
    n_rows: usize,
    n_cols: usize,
    gene_index: &GeneIndex,
) -> (r: Result<CscMatrix, InputError>)
    ensures
        match r {
            Ok(m) => {
                &&& entries_in_bounds(entries@, n_rows as nat, n_cols as nat)
                &&& sums_fit(entries@, gene_index.gene_id_by_feature@, n_cols as nat)
                &&& is_matrix_of(
                    m,
                    entries@,
                    gene_index.gene_id_by_feature@,
                    n_rows as nat,
                    n_cols as nat,
                )
                &&& m.wf()
            },
            Err(e) => if entries_in_bounds(entries@, n_rows as nat, n_cols as nat) {
                !sums_fit(entries@, gene_index.gene_id_by_feature@, n_cols as nat) && e@
                    == InputErrorView::InvalidInput("matrix value sum out of range"@)
            } else {
                e@ == InputErrorView::InvalidInput("matrix entry out of bounds"@)
            },
        },
{
    let ghost ids = gene_index.gene_id_by_feature@;
    let mut i: usize = 0;
    while i < entries.len()
        invariant
            i <= entries.len(),
            entries_in_bounds(entries@.take(i as int), n_rows as nat, n_cols as nat),
        decreases entries.len() - i,
    {
        if entries[i].row >= n_rows || entries[i].col >= n_cols {
            return Err(InputError::invalid("matrix entry out of bounds"));
        }
        proof {
            assert forall|k: int| 0 <= k < i + 1 implies (#[trigger] entries@.take(i + 1)[k]).row
                < n_rows && entries@.take(i + 1)[k].col < n_cols by {
                if k < i {
                    assert(entries@.take(i as int)[k] == entries@.take(i + 1)[k]);
                }
            }
        }
        i += 1;
    }
    proof {
        assert(entries@.take(i as int) =~= entries@);
    }
    let mut per_col: Vec<BTreeMap<u32, i128>> = empty_sums(n_cols, Ghost(ids));
    i = 0;
    proof {
        assert(entries@.take(0) =~= Seq::<MtxEntry>::empty());
    }
    while i < entries.len()
        invariant
            i <= entries.len(),
            ids == gene_index.gene_id_by_feature@,
            entries_in_bounds(entries@, n_rows as nat, n_cols as nat),
            sums_hold(per_col@, entries@.take(i as int), ids, n_cols as nat),
        decreases entries.len() - i,
    {
        proof {
            assert(entries@[i as int].col < n_cols);
            assert(entries@.take(i + 1) =~= entries@.take(i as int).push(entries@[i as int]));
        }
        add_entry(&mut per_col, entries[i], gene_index, Ghost(entries@.take(i as int)));
        i += 1;
    }
    proof {
        assert(entries@.take(i as int) =~= entries@);
    }
    match columns_of_sums(&per_col, Ghost(entries@), Ghost(ids)) {
        None => Err(InputError::invalid("matrix value sum out of range")),
        Some(cols) => Ok(matrix_of_columns(n_rows, cols, Ghost(entries@), Ghost(ids))),
    }
}

/// What a reader of a text matrix waits for.
#[derive(Debug, Clone, Copy, PartialEq, Eq, Structural)]
pub enum MtxStage {
    /// The first line, with the magic token.
    Header,
    /// The line of the dimensions.
    Size,
    /// Lines of entries.
    Data,
}

/// A reader that takes a text matrix line by line, and sums the entries
/// into their columns as they come.
pub struct MtxReader<'a> {
    gene_index: &'a GeneIndex,
    n_features_raw: usize,
    n_cells: usize,
    stage: MtxStage,
    fed: usize,
    data_start: usize,
    per_col: Vec<BTreeMap<u32, i128>>,
    lines: Ghost<Seq<Seq<char>>>,
    entries: Ghost<Seq<MtxEntry>>,
}

/// Lines that are all blank or comments from `from` on have no content
/// line.
pub proof fn lemma_no_content_line(ls: Seq<Seq<char>>, from: int)
    requires
        0 <= from <= ls.len(),
        first_content_line(ls, from) == ls.len(),
    ensures
        forall|i: int| from <= i < ls.len() ==> is_comment_or_blank(#[trigger] ls[i]),
    decreases ls.len() - from,
{
    if from < ls.len() {
        lemma_content_line_bounds(ls, from + 1);
        lemma_no_content_line(ls, from + 1);
    }
}

/// The first content line at or after `from` lies at or after `from`.
pub proof fn lemma_content_line_bounds(ls: Seq<Seq<char>>, from: int)
    requires
        0 <= from <= ls.len(),
    ensures
        from <= first_content_line(ls, from) <= ls.len(),
    decreases ls.len() - from,
{
    if from < ls.len() {
        lemma_content_line_bounds(ls, from + 1);
    }
}

/// The first content line of some lines is that of any longer text that
/// begins with them, if they have one; if they have none, it is the first
/// content line of what follows.
pub proof fn lemma_content_line_extended(ls: Seq<Seq<char>>, rest: Seq<Seq<char>>, from: int)
    requires
        0 <= from <= ls.len(),
    ensures
        first_content_line(ls, from) < ls.len() ==> first_content_line(ls + rest, from)
            == first_content_line(ls, from),
        first_content_line(ls, from) == ls.len() ==> first_content_line(ls + rest, from)
            == first_content_line(ls + rest, ls.len() as int),
    decreases ls.len() - from,
{
    lemma_content_line_bounds(ls, from);
    if from < ls.len() {
        assert((ls + rest)[from] == ls[from]);
        lemma_content_line_extended(ls, rest, from + 1);
        lemma_content_line_bounds(ls, from + 1);
    }
}

/// Where a content line follows a header and lines that are all blank or
/// comments, it is the line of the dimensions, whatever follows it: the
/// outcome of the whole is the outcome that this line decides.
pub proof fn lemma_size_line_found(before: Seq<Seq<char>>, line: Seq<char>)
    requires
        before.len() >= 1,
        starts_with(trim_end(before[0]), mtx_magic()),
        first_content_line(before, 1) == before.len(),
        !is_comment_or_blank(line),
    ensures
        forall|rest: Seq<Seq<char>>, rows: nat, cols: nat|
            #[trigger] mtx_lines_entries(before.push(line) + rest, rows, cols) == (
            match mtx_size_line(line, before.len() + 1) {
                Err(e) => Err::<Seq<MtxEntry>, InputErrorView>(e),
                Ok((r, c, nnz)) => if r != rows {
                    Err(
                        InputErrorView::InvalidInput(
                            "matrix row count "@ + decimal(r) + " does not match features "@
                                + decimal(rows),
                        ),
                    )
                } else if c != cols {
                    Err(
                        InputErrorView::InvalidInput(
                            "matrix column count "@ + decimal(c) + " does not match barcodes "@
                                + decimal(cols),
                        ),
                    )
                } else {
                    fold_lines(
                        (before.push(line) + rest).skip(before.len() as int + 1),
                        mtx_line_fn(rows, cols, before.len() + 1),
                    )
                },
            }),
{
    let after = before.push(line);
    assert forall|rest: Seq<Seq<char>>, rows: nat, cols: nat|
        #[trigger] mtx_lines_entries(after + rest, rows, cols) == (match mtx_size_line(
            line,
            before.len() + 1,
        ) {
            Err(e) => Err::<Seq<MtxEntry>, InputErrorView>(e),
            Ok((r, c, nnz)) => if r != rows {
                Err(
                    InputErrorView::InvalidInput(
                        "matrix row count "@ + decimal(r) + " does not match features "@ + decimal(
                            rows,
                        ),
                    ),
                )
            } else if c != cols {
                Err(
                    InputErrorView::InvalidInput(
                        "matrix column count "@ + decimal(c) + " does not match barcodes "@
                            + decimal(cols),
                    ),
                )
            } else {
                fold_lines(
                    (after + rest).skip(before.len() as int + 1),
                    mtx_line_fn(rows, cols, before.len() + 1),
                )
            },
        }) by {
        let all = after + rest;
        lemma_content_line_extended(before, seq![line] + rest, 1);
        assert(before + (seq![line] + rest) =~= all);
        assert(all[before.len() as int] == line);
        assert(all[0] == before[0]);
        assert(first_content_line(all, before.len() as int) == before.len());
    }
}

/// A line of entries that is refused fails the matrix whatever lines would
/// follow.
pub proof fn lemma_data_line_failure_stays(
    before: Seq<Seq<char>>,
    line: Seq<char>,
    start: int,
    rows: nat,
    cols: nat,
    e: InputErrorView,
)
    requires
        2 <= start <= before.len(),
        starts_with(trim_end(before[0]), mtx_magic()),
        first_content_line(before, 1) == start - 1,
        mtx_size_line(before[start - 1], start as nat) is Ok,
        mtx_size_line(before[start - 1], start as nat)->Ok_0.0 == rows,
        mtx_size_line(before[start - 1], start as nat)->Ok_0.1 == cols,
        fold_lines(before.push(line).skip(start), mtx_line_fn(rows, cols, start as nat)) == Err::<
            Seq<MtxEntry>,
            InputErrorView,
        >(e),
    ensures
        forall|rest: Seq<Seq<char>>|
            #[trigger] mtx_lines_entries(before.push(line) + rest, rows, cols) == Err::<
                Seq<MtxEntry>,
                InputErrorView,
            >(e),
{
    let after = before.push(line);
    let f = mtx_line_fn(rows, cols, start as nat);
    assert forall|rest: Seq<Seq<char>>|
        #[trigger] mtx_lines_entries(after + rest, rows, cols) == Err::<
            Seq<MtxEntry>,
            InputErrorView,
        >(e) by {
        let all = after + rest;
        lemma_content_line_extended(before, seq![line] + rest, 1);
        assert(before + (seq![line] + rest) =~= all);
        assert(all[start - 1] == before[start - 1]);
        assert(all[0] == before[0]);
        assert(all.skip(start).take(after.len() - start) =~= after.skip(start));
        lemma_fold_lines_failure_stays(all.skip(start), f, after.len() - start);
    }
}

impl<'a> MtxReader<'a> {
    /// The lines taken so far.
    pub closed spec fn lines(&self) -> Seq<Seq<char>> {
        self.lines@
    }

    /// The number of rows that the matrix must have.
    pub closed spec fn rows(&self) -> nat {
        self.n_features_raw as nat
    }

    /// The number of columns that the matrix must have.
    pub closed spec fn cols(&self) -> nat {
        self.n_cells as nat
    }

    /// The identifiers by which feature rows are mapped to genes.
    pub closed spec fn ids(&self) -> Seq<Option<usize>> {
        self.gene_index.gene_id_by_feature@
    }

    /// What the reader holds is what the lines taken so far make.
    pub closed spec fn wf(&self) -> bool {
        let ls = self.lines@;
        &&& self.fed == ls.len()
        &&& match self.stage {
            MtxStage::Header => ls.len() == 0,
            MtxStage::Size => {
                &&& ls.len() >= 1
                &&& starts_with(trim_end(ls[0]), mtx_magic())
                &&& first_content_line(ls, 1) == ls.len()
            },
            MtxStage::Data => {
                &&& 2 <= self.data_start <= ls.len()
                &&& starts_with(trim_end(ls[0]), mtx_magic())
                &&& first_content_line(ls, 1) == self.data_start - 1
                &&& mtx_size_line(ls[self.data_start - 1], self.data_start as nat) is Ok
                &&& mtx_size_line(ls[self.data_start - 1], self.data_start as nat)->Ok_0.0
                    == self.n_features_raw
                &&& mtx_size_line(ls[self.data_start - 1], self.data_start as nat)->Ok_0.1
                    == self.n_cells
                &&& fold_lines(
                    ls.skip(self.data_start as int),
                    mtx_line_fn(
                        self.n_features_raw as nat,
                        self.n_cells as nat,
                        self.data_start as nat,
                    ),
                ) == Ok::<Seq<MtxEntry>, InputErrorView>(self.entries@)
                &&& entries_in_bounds(
                    self.entries@,
                    self.n_features_raw as nat,
                    self.n_cells as nat,
                )
                &&& self.entries@.len() <= ls.len()
                &&& sums_hold(
                    self.per_col@,
                    self.entries@,
                    self.gene_index.gene_id_by_feature@,
                    self.n_cells as nat,
                )
            },
        }
    }

    /// A reader that has taken no line yet, for a matrix of `n_features_raw`
    /// rows and `n_cells` columns.
    pub fn new(n_features_raw: usize, n_cells: usize, gene_index: &'a GeneIndex) -> (reader: Self)
        ensures
            reader.wf(),
            reader.lines() == Seq::<Seq<char>>::empty(),
            reader.rows() == n_features_raw,
            reader.cols() == n_cells,
            reader.ids() == gene_index.gene_id_by_feature@,
    {
        MtxReader {
            gene_index,
            n_features_raw,
            n_cells,
            stage: MtxStage::Header,
            fed: 0,
            data_start: 0,
            per_col: Vec::new(),
            lines: Ghost(Seq::empty()),
            entries: Ghost(Seq::empty()),
        }
    }

    /// Takes the next line, without the line feed that ends it. A line that
    /// is refused fails the matrix whatever lines would follow.
    pub fn feed(&mut self, line: &str) -> (r: Result<(), InputError>)
        requires
            old(self).wf(),
            old(self).lines().len() < usize::MAX,
        ensures
            final(self).rows() == old(self).rows(),
            final(self).cols() == old(self).cols(),
            final(self).ids() == old(self).ids(),
            match r {
                Ok(_) => final(self).wf() && final(self).lines() == old(self).lines().push(line@),
                Err(e) => forall|rest: Seq<Seq<char>>|
                    #[trigger] mtx_lines_entries(
                        old(self).lines().push(line@) + rest,
                        old(self).rows(),
                        old(self).cols(),
                    ) == Err::<Seq<MtxEntry>, InputErrorView>(e@),
            },
    {
        let chars: Vec<char> = chars_of(line);
        self.feed_chars(chars.as_slice())
    }

    /// Takes the next line, given by its characters.
    pub fn feed_chars(&mut self, line: &[char]) -> (r: Result<(), InputError>)
        requires
            old(self).wf(),
            old(self).lines().len() < usize::MAX,
        ensures
            final(self).rows() == old(self).rows(),
            final(self).cols() == old(self).cols(),
            final(self).ids() == old(self).ids(),
            match r {
                Ok(_) => final(self).wf() && final(self).lines() == old(self).lines().push(line@),
                Err(e) => forall|rest: Seq<Seq<char>>|
                    #[trigger] mtx_lines_entries(
                        old(self).lines().push(line@) + rest,
                        old(self).rows(),
                        old(self).cols(),
                    ) == Err::<Seq<MtxEntry>, InputErrorView>(e@),
            },
    {
        match self.stage {
            MtxStage::Header => self.feed_header(line),
            MtxStage::Size => self.feed_size(line),
            MtxStage::Data => self.feed_data(line),
        }
    }

    /// Takes the first line, which must begin with the magic token.
    #[verifier::rlimit(50)]
    fn feed_header(&mut self, line: &[char]) -> (r: Result<(), InputError>)
        requires
            old(self).wf(),
            old(self).lines().len() < usize::MAX,
            old(self).stage == MtxStage::Header,
        ensures
            final(self).rows() == old(self).rows(),
            final(self).cols() == old(self).cols(),
            final(self).ids() == old(self).ids(),
            match r {
                Ok(_) => final(self).wf() && final(self).lines() == old(self).lines().push(line@),
                Err(e) => forall|rest: Seq<Seq<char>>|
                    #[trigger] mtx_lines_entries(
                        old(self).lines().push(line@) + rest,
                        old(self).rows(),
                        old(self).cols(),
                    ) == Err::<Seq<MtxEntry>, InputErrorView>(e@),
            },
    {
        let ghost after = self.lines@.push(line@);
        let ghost rows = self.n_features_raw as nat;
        let ghost cols = self.n_cells as nat;
        let magic: Vec<char> = chars_of("%%MatrixMarket");
        let header: Vec<char> = trim_end_chars(line);
        if !chars_start_with(header.as_slice(), magic.as_slice()) {
            proof {
                assert forall|rest: Seq<Seq<char>>|
                    #[trigger] mtx_lines_entries(after + rest, rows, cols) == Err::<
                        Seq<MtxEntry>,
                        InputErrorView,
                    >(InputErrorView::Parse("missing MatrixMarket header"@)) by {
                    assert((after + rest)[0] == line@);
                }
            }
            return Err(InputError::parse("missing MatrixMarket header"));
        }
        self.stage = MtxStage::Size;
        self.fed = 1;
        self.lines = Ghost(after);
        Ok(())
    }

    /// Takes a line after the first while the dimensions are not known: a
    /// blank line or a comment is passed over, and any other line must give
    /// the dimensions.
    #[verifier::rlimit(50)]
    fn feed_size(&mut self, line: &[char]) -> (r: Result<(), InputError>)
        requires
            old(self).wf(),
            old(self).lines().len() < usize::MAX,
            old(self).stage == MtxStage::Size,
        ensures
            final(self).rows() == old(self).rows(),
            final(self).cols() == old(self).cols(),
            final(self).ids() == old(self).ids(),
            match r {
                Ok(_) => final(self).wf() && final(self).lines() == old(self).lines().push(line@),
                Err(e) => forall|rest: Seq<Seq<char>>|
                    #[trigger] mtx_lines_entries(
                        old(self).lines().push(line@) + rest,
                        old(self).rows(),
                        old(self).cols(),
                    ) == Err::<Seq<MtxEntry>, InputErrorView>(e@),
            },
    {
        let ghost before = self.lines@;
        let ghost after = before.push(line@);
        let ghost rows = self.n_features_raw as nat;
        let ghost cols = self.n_cells as nat;
        let ghost ids = self.gene_index.gene_id_by_feature@;
        proof {
            lemma_content_line_extended(before, seq![line@], 1);
            assert(before + seq![line@] =~= after);
            assert(after[before.len() as int] == line@);
            assert(after[0] == before[0]);
        }
        if line_is_comment_or_blank(line) {
            proof {
                assert(first_content_line(after, before.len() as int + 1) == after.len());
                assert(first_content_line(after, before.len() as int) == after.len());
            }
            self.fed = self.fed + 1;
            self.lines = Ghost(after);
            return Ok(());
        }
        proof {
            lemma_size_line_found(before, line@);
        }
        let dims: (usize, usize, usize) = match parse_mtx_size_line(line, self.fed + 1) {
            Ok(dims) => dims,
            Err(e) => {
                return Err(e);
            },
        };
        if dims.0 != self.n_features_raw {
            let mut msg: String = numbered_message("matrix row count ", dims.0);
            msg.append(" does not match features ");
            push_decimal(&mut msg, self.n_features_raw as u64);
            return Err(InputError::InvalidInput(msg));
        }
        if dims.1 != self.n_cells {
            let mut msg: String = numbered_message("matrix column count ", dims.1);
            msg.append(" does not match barcodes ");
            push_decimal(&mut msg, self.n_cells as u64);
            return Err(InputError::InvalidInput(msg));
        }
        let per_col: Vec<BTreeMap<u32, i128>> = empty_sums(self.n_cells, Ghost(ids));
        proof {
            assert(after.skip(after.len() as int) =~= Seq::<Seq<char>>::empty());
            assert(first_content_line(after + Seq::<Seq<char>>::empty(), 1) == before.len());
            assert(after + Seq::<Seq<char>>::empty() =~= after);
        }
        self.per_col = per_col;
        self.stage = MtxStage::Data;
        self.fed = self.fed + 1;
        self.data_start = self.fed;
        self.lines = Ghost(after);
        self.entries = Ghost(Seq::empty());
        Ok(())
    }

    /// Takes a line after the dimensions: at most one entry.
    #[verifier::rlimit(50)]
    fn feed_data(&mut self, line: &[char]) -> (r: Result<(), InputError>)
        requires
            old(self).wf(),
            old(self).lines().len() < usize::MAX,
            old(self).stage == MtxStage::Data,
        ensures
            final(self).rows() == old(self).rows(),
            final(self).cols() == old(self).cols(),
            final(self).ids() == old(self).ids(),
            match r {
                Ok(_) => final(self).wf() && final(self).lines() == old(self).lines().push(line@),
                Err(e) => forall|rest: Seq<Seq<char>>|
                    #[trigger] mtx_lines_entries(
                        old(self).lines().push(line@) + rest,
                        old(self).rows(),
                        old(self).cols(),
                    ) == Err::<Seq<MtxEntry>, InputErrorView>(e@),
            },
    {
        let ghost before = self.lines@;
        let ghost after = before.push(line@);
        let ghost rows = self.n_features_raw as nat;
        let ghost cols = self.n_cells as nat;
        let ghost start = self.data_start as int;
        let ghost f = mtx_line_fn(rows, cols, start as nat);
        let ghost so_far = self.entries@;
        let line_no: usize = self.fed + 1;
        proof {
            lemma_content_line_extended(before, seq![line@], 1);
            assert(before + seq![line@] =~= after);
            assert(after[start - 1] == before[start - 1]);
            assert(after[0] == before[0]);
            assert(after.skip(start).drop_last() =~= before.skip(start));
            assert(after.skip(start).last() == line@);
            assert(f(line@, (line_no - start) as nat) == mtx_data_line(
                line@,
                line_no as nat,
                rows,
                cols,
            ));
        }
        match parse_mtx_line(line, line_no, self.n_features_raw, self.n_cells) {
            Err(e) => {
                proof {
                    lemma_data_line_failure_stays(before, line@, start, rows, cols, e@);
                }
                Err(e)
            },
            Ok(None) => {
                self.fed = self.fed + 1;
                self.lines = Ghost(after);
                Ok(())
            },
            Ok(Some(entry)) => {
                add_entry(&mut self.per_col, entry, self.gene_index, Ghost(so_far));
                proof {
                    assert forall|k: int| 0 <= k < so_far.len() + 1 implies (#[trigger] so_far.push(
                        entry,
                    )[k]).row < rows && so_far.push(entry)[k].col < cols by {
                        if k < so_far.len() {
                            assert(so_far.push(entry)[k] == so_far[k]);
                        }
                    }
                }
                self.fed = self.fed + 1;
                self.lines = Ghost(after);
                self.entries = Ghost(so_far.push(entry));
                Ok(())
            },
        }
    }

    /// Ends the reading and hands out the matrix that the lines make, or
    /// says why they make none.
    pub fn finish(self) -> (r: Result<CscMatrix, InputError>)
        requires
            self.wf(),
        ensures
            match r {
                Ok(m) => m.wf() && match mtx_lines_outcome(
                    self.lines(),
                    self.rows(),
                    self.cols(),
                    self.ids(),
                ) {
                    Ok(entries) => is_matrix_of(m, entries, self.ids(), self.rows(), self.cols()),
                    Err(_) => false,
                },
                Err(e) => mtx_lines_outcome(self.lines(), self.rows(), self.cols(), self.ids())
                    == Err::<Seq<MtxEntry>, InputErrorView>(e@),
            },
    {
        match self.stage {
            MtxStage::Header => Err(InputError::parse("matrix.mtx is empty")),
            MtxStage::Size => Err(InputError::parse("missing matrix size line")),
            MtxStage::Data => {
                let ghost entries = self.entries@;
                let ghost ids = self.gene_index.gene_id_by_feature@;
                match columns_of_sums(&self.per_col, Ghost(entries), Ghost(ids)) {
                    None => Err(InputError::invalid("matrix value sum out of range")),
                    Some(cols) => Ok(
                        matrix_of_columns(self.n_features_raw, cols, Ghost(entries), Ghost(ids)),
                    ),
                }
            },
        }
    }
}

/// What the lines of a text matrix yield: the entries that make its
/// columns, or why they are refused, be it by their text or because a sum
/// does not fit a count.
pub open spec fn mtx_lines_outcome(
    ls: Seq<Seq<char>>,
    n_features_raw: nat,
    n_cells: nat,
    ids: Seq<Option<usize>>,
) -> Result<Seq<MtxEntry>, InputErrorView> {
    match mtx_lines_entries(ls, n_features_raw, n_cells) {
        Err(e) => Err(e),
        Ok(entries) => if sums_fit(entries, ids, n_cells) {
            Ok(entries)
        } else {
            Err(InputErrorView::InvalidInput("matrix value sum out of range"@))
        },
    }
}

/// What a text matrix yields; see [`mtx_lines_outcome`].
pub open spec fn mtx_outcome(
    text: Seq<char>,
    n_features_raw: nat,
    n_cells: nat,
    ids: Seq<Option<usize>>,
) -> Result<Seq<MtxEntry>, InputErrorView> {
    mtx_lines_outcome(lines(text), n_features_raw, n_cells, ids)
}

/// Reads a text matrix of `n_features_raw` rows and `n_cells` columns into
/// columns of gene identifier and count.
pub fn read_mtx_csc(text: &str, n_features_raw: usize, n_cells: usize, gene_index: &GeneIndex) -> (r:
    Result<CscMatrix, InputError>)
    ensures
        match r {
            Ok(m) => m.wf() && match mtx_outcome(
                text@,
                n_features_raw as nat,
                n_cells as nat,
                gene_index.gene_id_by_feature@,
            ) {
                Ok(entries) => is_matrix_of(
                    m,
                    entries,
                    gene_index.gene_id_by_feature@,
                    n_features_raw as nat,
                    n_cells as nat,
                ),
                Err(_) => false,
            },
            Err(e) => mtx_outcome(
                text@,
                n_features_raw as nat,
                n_cells as nat,
                gene_index.gene_id_by_feature@,
            ) == Err::<Seq<MtxEntry>, InputErrorView>(e@),
        },
{
    let chars: Vec<char> = chars_of(text);
    let ls: Vec<Vec<char>> = split_lines(chars.as_slice());
    let ghost all = lines(text@);
    let mut reader: MtxReader = MtxReader::new(n_features_raw, n_cells, gene_index);
    let mut i: usize = 0;
    proof {
        assert(all.take(0) =~= Seq::<Seq<char>>::empty());
    }
    while i < ls.len()
        invariant
            i <= ls@.len(),
            views(ls@) == all,
            all == lines(text@),
            reader.wf(),
            reader.lines() == all.take(i as int),
            reader.rows() == n_features_raw,
            reader.cols() == n_cells,
            reader.ids() == gene_index.gene_id_by_feature@,
        decreases ls@.len() - i,
    {
        proof {
            assert(all[i as int] == ls@[i as int]@);
            assert(all.take(i as int).push(ls@[i as int]@) =~= all.take(i + 1));
        }
        match reader.feed_chars(ls[i].as_slice()) {
            Ok(_) => {},
            Err(e) => {
                proof {
                    let rest = all.skip(i + 1);
                    assert(all.take(i + 1) + rest =~= all);
                    assert(mtx_lines_entries(
                        all.take(i as int).push(ls@[i as int]@) + rest,
                        n_features_raw as nat,
                        n_cells as nat,
                    ) == Err::<Seq<MtxEntry>, InputErrorView>(e@));
                }
                return Err(e);
            },
        }
        i += 1;
    }
    proof {
        assert(all.take(i as int) =~= all);
    }
    reader.finish()
}

} // verus!
