//! Reader for the table of cell metadata.

use vstd::prelude::*;
use vstd::hash_map::StringHashMap;
use crate::input::{string_views, InputError, InputErrorView};
use crate::text::{
    chars_of, fold_lines, lemma_split_nonempty, lines, split, split_chars, split_lines, str_eq,
    string_of, trim, trim_chars, trim_end, trim_end_chars, views,
};

verus! {

/// The metadata of the cells: the names of the columns, and one row of
/// values for each cell, in the order of the barcodes.
#[derive(Debug, Clone)]
pub struct CellMeta {
    pub columns: Vec<String>,
    pub rows: Vec<Vec<String>>,
}

/// Cell metadata with its texts as sequences of characters.
pub struct CellMetaView {
    pub columns: Seq<Seq<char>>,
    pub rows: Seq<Seq<Seq<char>>>,
}

/// The texts of a sequence of rows.
pub open spec fn row_views(rows: Seq<Vec<String>>) -> Seq<Seq<Seq<char>>> {
    rows.map_values(|row: Vec<String>| string_views(row@))
}

impl View for CellMeta {
    type V = CellMetaView;

    open spec fn view(&self) -> CellMetaView {
        CellMetaView { columns: string_views(self.columns@), rows: row_views(self.rows@) }
    }
}

/// The lower-case form of an ASCII letter; any other character unchanged.
pub open spec fn ascii_lower(c: char) -> char {
    if 'A' <= c <= 'Z' {
        ((c as u32 + 32) as u8) as char
    } else {
        c
    }
}

/// `s` with its ASCII letters in lower case.
pub open spec fn ascii_lower_seq(s: Seq<char>) -> Seq<char> {
    s.map_values(|c: char| ascii_lower(c))
}

/// The pieces of `s` between tabs, each without the whitespace around it.
pub open spec fn trimmed_columns(s: Seq<char>) -> Seq<Seq<char>> {
    split(s, '\t').map_values(|piece: Seq<char>| trim(piece))
}

/// Whether a column name names the barcode column.
pub open spec fn is_barcode_name(name: Seq<char>) -> bool {
    let lower = ascii_lower_seq(name);
    lower == "barcode"@ || lower == "barcodes"@
}

/// The place of the first column at or after `from` that names the
/// barcode, or the number of columns where none does.
pub open spec fn first_barcode_name(header: Seq<Seq<char>>, from: int) -> int
    decreases header.len() - from,
{
    if from < 0 || from >= header.len() {
        header.len() as int
    } else if is_barcode_name(header[from]) {
        from
    } else {
        first_barcode_name(header, from + 1)
    }
}

/// The place of the barcode column: the first column that names it, or the
/// first column where none does.
pub open spec fn barcode_column(header: Seq<Seq<char>>) -> int {
    let at = first_barcode_name(header, 0);
    if at < header.len() {
        at
    } else {
        0
    }
}

/// The place, among all columns, of value column `j`: the barcode column
/// is left out.
pub open spec fn value_place(j: int, barcode_col: int) -> int {
    if j < barcode_col {
        j
    } else {
        j + 1
    }
}

/// The values of a data line: for each value column the trimmed field at
/// its place, or the empty text where the line has no such field.
pub open spec fn row_of_fields(fields: Seq<Seq<char>>, n_columns: nat, barcode_col: int) -> Seq<
    Seq<char>,
> {
    Seq::new(
        (n_columns - 1) as nat,
        |j: int|
            if value_place(j, barcode_col) < fields.len() {
                trim(fields[value_place(j, barcode_col)])
            } else {
                Seq::empty()
            },
    )
}

/// What one data line gives: a barcode with its values, or nothing for a
/// blank line, a line without barcode field, and a line whose barcode is
/// empty.
pub open spec fn meta_line(line: Seq<char>, n_columns: nat, barcode_col: int) -> Result<
    Option<(Seq<char>, Seq<Seq<char>>)>,
    InputErrorView,
> {
    let t = trim_end(line);
    if t.len() == 0 {
        Ok(None)
    } else {
        let fields = split(t, '\t');
        if barcode_col >= fields.len() {
            Ok(None)
        } else if trim(fields[barcode_col]).len() == 0 {
            Ok(None)
        } else {
            Ok(Some((trim(fields[barcode_col]), row_of_fields(fields, n_columns, barcode_col))))
        }
    }
}

/// [`meta_line`] for a given header, as a function of the line and its
/// number.
pub open spec fn meta_line_fn(n_columns: nat, barcode_col: int) -> spec_fn(Seq<char>, nat) -> Result<
    Option<(Seq<char>, Seq<Seq<char>>)>,
    InputErrorView,
> {
    |line: Seq<char>, line_no: nat| meta_line(line, n_columns, barcode_col)
}

/// The place of the first entry at or after `from` with the given barcode,
/// or the number of entries where there is none.
pub open spec fn first_entry(
    entries: Seq<(Seq<char>, Seq<Seq<char>>)>,
    barcode: Seq<char>,
    from: int,
) -> int
    decreases entries.len() - from,
{
    if from < 0 || from >= entries.len() {
        entries.len() as int
    } else if entries[from].0 == barcode {
        from
    } else {
        first_entry(entries, barcode, from + 1)
    }
}

/// The row of a barcode: the values of the first entry with that barcode,
/// or empty values where no entry has it.
pub open spec fn row_of_barcode(
    entries: Seq<(Seq<char>, Seq<Seq<char>>)>,
    barcode: Seq<char>,
    n_values: nat,
) -> Seq<Seq<char>> {
    let at = first_entry(entries, barcode, 0);
    if at < entries.len() {
        entries[at].1
    } else {
        Seq::new(n_values, |j: int| Seq::empty())
    }
}

/// The metadata that a text gives for the cells named by `barcodes`. The
/// first line names the columns; one of them, named `barcode` or
/// `barcodes` in any case, or else the first, holds the barcode. Every
/// later line gives the values of one barcode, and of several lines for one
/// barcode the first counts.
pub open spec fn meta_outcome(text: Seq<char>, barcodes: Seq<Seq<char>>) -> Result<
    CellMetaView,
    InputErrorView,
> {
    let ls = lines(text);
    if ls.len() == 0 {
        Err(InputErrorView::Parse("meta file is empty"@))
    } else {
        let header = trimmed_columns(trim_end(ls[0]));
        let barcode_col = barcode_column(header);
        match fold_lines(ls.skip(1), meta_line_fn(header.len(), barcode_col)) {
            Err(e) => Err(e),
            Ok(entries) => Ok(
                CellMetaView {
                    columns: header.remove(barcode_col),
                    rows: Seq::new(
                        barcodes.len(),
                        |i: int| row_of_barcode(entries, barcodes[i], (header.len() - 1) as nat),
                    ),
                },
            ),
        }
    }
}

/// Puts an ASCII letter in lower case.
pub fn char_ascii_lower(c: char) -> (r: char)
    ensures
        r == ascii_lower(c),
{
    if 'A' <= c && c <= 'Z' {
        let b: u8 = (c as u32 + 32) as u8;
        b as char
    } else {
        c
    }
}

/// Tests whether a column name names the barcode column.
pub fn names_barcode(name: &[char]) -> (r: bool)
    ensures
        r == is_barcode_name(name@),
{
    let mut lower: Vec<char> = Vec::new();
    let mut i: usize = 0;
    while i < name.len()
        invariant
            i <= name.len(),
            lower@ == ascii_lower_seq(name@.take(i as int)),
        decreases name.len() - i,
    {
        lower.push(char_ascii_lower(name[i]));
        proof {
            assert(ascii_lower_seq(name@.take(i + 1)) =~= ascii_lower_seq(name@.take(i as int)).push(
                ascii_lower(name@[i as int]),
            ));
        }
        i += 1;
    }
    proof {
        assert(name@.take(i as int) =~= name@);
    }
    let text: String = string_of(lower.as_slice());
    str_eq(text.as_str(), "barcode") || str_eq(text.as_str(), "barcodes")
}

/// Splits at tabs and trims every piece.
pub fn split_trimmed(s: &[char]) -> (out: Vec<Vec<char>>)
    ensures
        views(out@) == trimmed_columns(s@),
        out@.len() >= 1,
{
    let pieces: Vec<Vec<char>> = split_chars(s, '\t');
    proof {
        lemma_split_nonempty(s@, '\t');
    }
    let mut out: Vec<Vec<char>> = Vec::new();
    let mut i: usize = 0;
    while i < pieces.len()
        invariant
            i <= pieces@.len(),
            views(pieces@) == split(s@, '\t'),
            out@.len() == i,
            forall|k: int| 0 <= k < i ==> (#[trigger] out@[k])@ == trim(pieces@[k]@),
        decreases pieces@.len() - i,
    {
        out.push(trim_chars(pieces[i].as_slice()));
        i += 1;
    }
    proof {
        assert(views(out@) =~= trimmed_columns(s@)) by {
            assert forall|k: int| 0 <= k < out@.len() implies views(out@)[k] == trimmed_columns(
                s@,
            )[k] by {
                assert(views(pieces@)[k] == pieces@[k]@);
            }
        }
    }
    out
}

/// Reads one data line.
pub fn parse_meta_line(line: &[char], n_columns: usize, barcode_col: usize) -> (r: Option<
    (String, Vec<String>),
>)
    requires
        barcode_col < n_columns,
    ensures
        match r {
            Some(entry) => meta_line(line@, n_columns as nat, barcode_col as int) == Ok::<
                Option<(Seq<char>, Seq<Seq<char>>)>,
                InputErrorView,
            >(Some((entry.0@, string_views(entry.1@)))),
            None => meta_line(line@, n_columns as nat, barcode_col as int) == Ok::<
                Option<(Seq<char>, Seq<Seq<char>>)>,
                InputErrorView,
            >(None),
        },
{
    let t: Vec<char> = trim_end_chars(line);
    if t.len() == 0 {
        return None;
    }
    let fields: Vec<Vec<char>> = split_chars(t.as_slice(), '\t');
    if barcode_col >= fields.len() {
        return None;
    }
    proof {
        assert(views(fields@)[barcode_col as int] == fields@[barcode_col as int]@);
    }
    let barcode: Vec<char> = trim_chars(fields[barcode_col].as_slice());
    if barcode.len() == 0 {
        return None;
    }
    let ghost expected = row_of_fields(views(fields@), n_columns as nat, barcode_col as int);
    let mut row: Vec<String> = Vec::new();
    let mut idx: usize = 0;
    while idx < n_columns
        invariant
            idx <= n_columns,
            barcode_col < n_columns,
            expected == row_of_fields(views(fields@), n_columns as nat, barcode_col as int),
            row@.len() == (if idx <= barcode_col {
                idx as int
            } else {
                idx - 1
            }),
            forall|j: int| 0 <= j < row@.len() ==> (#[trigger] row@[j])@ == expected[j],
        decreases n_columns - idx,
    {
        if idx != barcode_col {
            let ghost j = row@.len() as int;
            proof {
                assert(value_place(j, barcode_col as int) == idx);
            }
            if idx < fields.len() {
                proof {
                    assert(views(fields@)[idx as int] == fields@[idx as int]@);
                }
                let value: Vec<char> = trim_chars(fields[idx].as_slice());
                row.push(string_of(value.as_slice()));
            } else {
                row.push(String::new());
            }
        }
        idx += 1;
    }
    proof {
        assert(string_views(row@) =~= expected);
    }
    Some((string_of(barcode.as_slice()), row))
}

/// A copy of a row.
pub fn copy_row(row: &Vec<String>) -> (out: Vec<String>)
    ensures
        string_views(out@) == string_views(row@),
{
    let mut out: Vec<String> = Vec::new();
    let mut i: usize = 0;
    while i < row.len()
        invariant
            i <= row@.len(),
            out@.len() == i,
            forall|k: int| 0 <= k < i ==> (#[trigger] out@[k])@ == row@[k]@,
        decreases row@.len() - i,
    {
        out.push(row[i].clone());
        i += 1;
    }
    proof {
        assert(string_views(out@) =~= string_views(row@));
    }
    out
}

/// Whether the map from barcode to row holds, for every barcode that an
/// entry has, the values of the first entry with that barcode, and nothing
/// else.
pub open spec fn holds_rows(
    rows: Map<Seq<char>, Vec<String>>,
    entries: Seq<(Seq<char>, Seq<Seq<char>>)>,
) -> bool {
    forall|b: Seq<char>|
        #![trigger rows.contains_key(b)]
        #![trigger first_entry(entries, b, 0)]
        (rows.contains_key(b) <==> first_entry(entries, b, 0) < entries.len()) && (
        rows.contains_key(b) ==> string_views(rows[b]@) == entries[first_entry(entries, b, 0)].1)
}

/// The first entry with a barcode stays the first when an entry is added;
/// the added entry is the first only for a barcode that no entry had.
pub proof fn lemma_first_entry_push(
    entries: Seq<(Seq<char>, Seq<Seq<char>>)>,
    e: (Seq<char>, Seq<Seq<char>>),
    barcode: Seq<char>,
    from: int,
)
    requires
        0 <= from <= entries.len(),
    ensures
        from <= first_entry(entries, barcode, from) <= entries.len(),
        first_entry(entries.push(e), barcode, from) == (if first_entry(entries, barcode, from)
            < entries.len() {
            first_entry(entries, barcode, from)
        } else if e.0 == barcode {
            entries.len() as int
        } else {
            entries.len() as int + 1
        }),
    decreases entries.len() - from,
{
    let longer = entries.push(e);
    if from < entries.len() {
        assert(longer[from] == entries[from]);
        if entries[from].0 != barcode {
            lemma_first_entry_push(entries, e, barcode, from + 1);
        }
    } else {
        assert(longer[from] == e);
        assert(first_entry(longer, barcode, from + 1) == longer.len());
    }
}

/// The row of one barcode.
pub fn find_row(rows: &StringHashMap<Vec<String>>, barcode: &str, n_values: usize) -> (row: Vec<
    String,
>)
    ensures
        string_views(row@) == (if rows@.contains_key(barcode@) {
            string_views(rows@[barcode@]@)
        } else {
            Seq::new(n_values as nat, |j: int| Seq::<char>::empty())
        }),
{
    match rows.get(barcode) {
        Some(found) => copy_row(found),
        None => {
            let mut row: Vec<String> = Vec::new();
            let mut j: usize = 0;
            while j < n_values
                invariant
                    j <= n_values,
                    row@.len() == j,
                    forall|k: int| 0 <= k < j ==> (#[trigger] row@[k])@ == Seq::<char>::empty(),
                decreases n_values - j,
            {
                row.push(String::new());
                j += 1;
            }
            proof {
                assert(string_views(row@) =~= Seq::new(
                    n_values as nat,
                    |j: int| Seq::<char>::empty(),
                ));
            }
            row
        },
    }
}

/// Reads the table of cell metadata and joins it to the barcodes: the
/// result has one row for each barcode, in the order of the barcodes.
pub fn load_meta(text: &str, barcodes: &[String]) -> (r: Result<CellMeta, InputError>)
    ensures
        match r {
            Ok(meta) => meta_outcome(text@, string_views(barcodes@)) == Ok::<
                CellMetaView,
                InputErrorView,
            >(meta@),
            Err(e) => meta_outcome(text@, string_views(barcodes@)) == Err::<
                CellMetaView,
                InputErrorView,
            >(e@),
        },
{
    let chars: Vec<char> = chars_of(text);
    let ls: Vec<Vec<char>> = split_lines(chars.as_slice());
    let ghost all = lines(text@);
    if ls.len() == 0 {
        return Err(InputError::parse("meta file is empty"));
    }
    proof {
        assert(all[0] == ls@[0]@);
    }
    let header_line: Vec<char> = trim_end_chars(ls[0].as_slice());
    let header: Vec<Vec<char>> = split_trimmed(header_line.as_slice());
    let ghost names = views(header@);
    let mut barcode_col: usize = 0;
    let mut idx: usize = 0;
    while idx < header.len()
        invariant_except_break
            first_barcode_name(names, 0) == first_barcode_name(names, idx as int),
            barcode_col == 0,
        invariant
            idx <= header@.len(),
            names == views(header@),
        ensures
            barcode_col == barcode_column(names),
        decreases header@.len() - idx,
    {
        proof {
            assert(names[idx as int] == header@[idx as int]@);
        }
        if names_barcode(header[idx].as_slice()) {
            barcode_col = idx;
            break ;
        }
        idx += 1;
    }
    let mut columns: Vec<String> = Vec::new();
    idx = 0;
    while idx < header.len()
        invariant
            idx <= header@.len(),
            names == views(header@),
            barcode_col < header@.len(),
            columns@.len() == (if idx <= barcode_col {
                idx as int
            } else {
                idx - 1
            }),
            forall|j: int|
                0 <= j < columns@.len() ==> (#[trigger] columns@[j])@ == names.remove(
                    barcode_col as int,
                )[j],
        decreases header@.len() - idx,
    {
        if idx != barcode_col {
            proof {
                assert(names[idx as int] == header@[idx as int]@);
            }
            columns.push(string_of(header[idx].as_slice()));
        }
        idx += 1;
    }
    proof {
        assert(string_views(columns@) =~= names.remove(barcode_col as int));
    }
    let n_columns: usize = header.len();
    let ghost data = all.skip(1);
    let ghost f = meta_line_fn(n_columns as nat, barcode_col as int);
    let mut rows_by_barcode: StringHashMap<Vec<String>> = StringHashMap::new();
    let ghost mut entries: Seq<(Seq<char>, Seq<Seq<char>>)> = Seq::empty();
    let mut i: usize = 1;
    proof {
        assert(data.take(0) =~= Seq::<Seq<char>>::empty());
    }
    while i < ls.len()
        invariant
            1 <= i <= ls@.len(),
            views(ls@) == all,
            data == all.skip(1),
            barcode_col < n_columns,
            f == meta_line_fn(n_columns as nat, barcode_col as int),
            fold_lines(data.take(i - 1), f) == Ok::<
                Seq<(Seq<char>, Seq<Seq<char>>)>,
                InputErrorView,
            >(entries),
            holds_rows(rows_by_barcode@, entries),
        decreases ls@.len() - i,
    {
        proof {
            assert(data.take(i as int).drop_last() =~= data.take(i - 1));
            assert(data.take(i as int).last() == ls@[i as int]@) by {
                assert(all[i as int] == ls@[i as int]@);
            }
            assert(f(data.take(i as int).last(), data.take(i as int).len()) == meta_line(
                ls@[i as int]@,
                n_columns as nat,
                barcode_col as int,
            ));
        }
        match parse_meta_line(ls[i].as_slice(), n_columns, barcode_col) {
            Some(entry) => {
                let ghost before = entries;
                let ghost view = (entry.0@, string_views(entry.1@));
                let ghost old_rows = rows_by_barcode@;
                let (barcode, row) = entry;
                if !rows_by_barcode.contains_key(barcode.as_str()) {
                    rows_by_barcode.insert(barcode, row);
                }
                proof {
                    entries = before.push(view);
                    assert forall|b: Seq<char>|
                        #![trigger rows_by_barcode@.contains_key(b)]
                        #![trigger first_entry(entries, b, 0)]
                        (rows_by_barcode@.contains_key(b) <==> first_entry(entries, b, 0)
                            < entries.len()) && (rows_by_barcode@.contains_key(b) ==> string_views(
                            rows_by_barcode@[b]@,
                        ) == entries[first_entry(entries, b, 0)].1) by {
                        lemma_first_entry_push(before, view, b, 0);
                        assert(old_rows.contains_key(b) <==> first_entry(before, b, 0)
                            < before.len());
                        if first_entry(before, b, 0) < before.len() {
                            assert(entries[first_entry(before, b, 0)] == before[first_entry(
                                before,
                                b,
                                0,
                            )]);
                        }
                    }
                }
            },
            None => {},
        }
        i += 1;
    }
    proof {
        assert(data.take(i - 1) =~= data);
    }
    let n_values: usize = n_columns - 1;
    let mut rows: Vec<Vec<String>> = Vec::new();
    let mut b: usize = 0;
    while b < barcodes.len()
        invariant
            b <= barcodes.len(),
            rows@.len() == b,
            holds_rows(rows_by_barcode@, entries),
            forall|k: int|
                0 <= k < b ==> string_views((#[trigger] rows@[k])@) == row_of_barcode(
                    entries,
                    barcodes@[k]@,
                    n_values as nat,
                ),
        decreases barcodes.len() - b,
    {
        proof {
            assert(rows_by_barcode@.contains_key(barcodes@[b as int]@) <==> first_entry(
                entries,
                barcodes@[b as int]@,
                0,
            ) < entries.len());
        }
        rows.push(find_row(&rows_by_barcode, barcodes[b].as_str(), n_values));
        b += 1;
    }
    let meta = CellMeta { columns, rows };
    proof {
        assert(meta@.rows =~= Seq::new(
            barcodes@.len(),
            |i: int| row_of_barcode(entries, string_views(barcodes@)[i], n_values as nat),
        ));
    }
    Ok(meta)
}

} // verus!
