//! Feature records and gene symbol normalization.

use vstd::prelude::*;
use crate::input::{InputError, InputErrorView};
use crate::text::{
    all_digits, chars_of, chars_start_with, copy_range, decimal, fold_lines, is_digit,
    lemma_fold_lines_failure_stays, lines, numbered_message, split,
    split_chars, split_lines, starts_with, string_of, trim, trim_chars, trim_end, trim_end_chars,
    views,
};

verus! {

/// One row of the feature list.
#[derive(Debug, Clone)]
pub struct Feature {
    pub id: String,
    pub symbol_raw: String,
    pub symbol_norm: String,
    pub feature_type: Option<String>,
}

/// A [`Feature`] with its texts as sequences of characters.
pub struct FeatureView {
    pub id: Seq<char>,
    pub symbol_raw: Seq<char>,
    pub symbol_norm: Seq<char>,
    pub feature_type: Option<Seq<char>>,
}

impl View for Feature {
    type V = FeatureView;

    open spec fn view(&self) -> FeatureView {
        FeatureView {
            id: self.id@,
            symbol_raw: self.symbol_raw@,
            symbol_norm: self.symbol_norm@,
            feature_type: match self.feature_type {
                Some(t) => Some(t@),
                None => None,
            },
        }
    }
}

/// The upper-case form of an ASCII letter; any other character unchanged.
pub open spec fn ascii_upper(c: char) -> char {
    if 'a' <= c <= 'z' {
        ((c as u32 - 32) as u8) as char
    } else {
        c
    }
}

/// `s` with its ASCII letters in upper case.
pub open spec fn ascii_upper_seq(s: Seq<char>) -> Seq<char> {
    s.map_values(|c: char| ascii_upper(c))
}

/// The position of the last `c` in `s`, or -1 where there is none.
pub open spec fn last_index_of(s: Seq<char>, c: char) -> int
    decreases s.len(),
{
    if s.len() == 0 {
        -1
    } else if s.last() == c {
        s.len() - 1
    } else {
        last_index_of(s.drop_last(), c)
    }
}

/// The canonical form of a gene symbol: trimmed, in upper case, and, where
/// it reads as a versioned Ensembl accession (a part that begins with `ENS`,
/// a last dot, then digits only), without the dot and the version.
pub open spec fn normalized_symbol(raw: Seq<char>) -> Seq<char> {
    let upper = ascii_upper_seq(trim(raw));
    let dot = last_index_of(upper, '.');
    if dot >= 0 && starts_with(upper.take(dot), seq!['E', 'N', 'S']) && all_digits(
        upper.skip(dot + 1),
    ) {
        upper.take(dot)
    } else {
        upper
    }
}

/// Puts an ASCII letter in upper case.
pub fn char_ascii_upper(c: char) -> (r: char)
    ensures
        r == ascii_upper(c),
{
    if 'a' <= c && c <= 'z' {
        let b: u8 = (c as u32 - 32) as u8;
        b as char
    } else {
        c
    }
}

/// Puts the ASCII letters of `s` in upper case.
pub fn chars_ascii_upper(s: &[char]) -> (v: Vec<char>)
    ensures
        v@ == ascii_upper_seq(s@),
{
    let mut v: Vec<char> = Vec::new();
    let mut i: usize = 0;
    while i < s.len()
        invariant
            i <= s.len(),
            v@ == ascii_upper_seq(s@.take(i as int)),
        decreases s.len() - i,
    {
        v.push(char_ascii_upper(s[i]));
        proof {
            assert(ascii_upper_seq(s@.take(i + 1)) =~= ascii_upper_seq(s@.take(i as int)).push(
                ascii_upper(s@[i as int]),
            ));
        }
        i += 1;
    }
    proof {
        assert(s@.take(i as int) =~= s@);
    }
    v
}

/// Normalizes the characters of a raw gene symbol.
pub fn normalize_symbol_chars(raw: &[char]) -> (v: Vec<char>)
    ensures
        v@ == normalized_symbol(raw@),
{
    let trimmed = trim_chars(raw);
    let upper = chars_ascii_upper(trimmed.as_slice());
    // The last dot, and whether only digits follow it.
    let mut k: usize = upper.len();
    proof {
        assert(upper@.take(k as int) =~= upper@);
    }
    while k > 0 && upper[k - 1] != '.'
        invariant
            k <= upper.len(),
            forall|j: int| k <= j < upper.len() ==> upper@[j] != '.',
            last_index_of(upper@, '.') == last_index_of(upper@.take(k as int), '.'),
        decreases k,
    {
        proof {
            assert(upper@.take(k as int).drop_last() =~= upper@.take(k - 1));
        }
        k -= 1;
    }
    if k == 0 {
        return upper;
    }
    let dot: usize = k - 1;
    proof {
        assert(upper@.take(k as int).last() == '.');
        assert(last_index_of(upper@, '.') == dot);
    }
    let mut j: usize = k;
    while j < upper.len()
        invariant
            k <= j <= upper.len(),
            dot + 1 == k,
            last_index_of(upper@, '.') == dot,
            upper@ == ascii_upper_seq(trim(raw@)),
            all_digits(upper@.subrange(k as int, j as int)),
        decreases upper.len() - j,
    {
        let c: char = upper[j];
        if !('0' <= c && c <= '9') {
            proof {
                let rest = upper@.skip(dot + 1);
                assert(rest[j - k] == c);
                assert(!is_digit(rest[j - k]));
                assert(!all_digits(rest));
            }
            return upper;
        }
        proof {
            assert(upper@.subrange(k as int, j + 1) =~= upper@.subrange(k as int, j as int).push(c));
        }
        j += 1;
    }
    proof {
        assert(upper@.subrange(k as int, j as int) =~= upper@.skip(k as int));
    }
    let ens: Vec<char> = vec!['E', 'N', 'S'];
    proof {
        assert(ens@ =~= seq!['E', 'N', 'S']);
        assert(upper@.subrange(0, dot as int) =~= upper@.take(dot as int));
    }
    let left = copy_range(upper.as_slice(), 0, dot);
    if chars_start_with(left.as_slice(), ens.as_slice()) {
        left
    } else {
        upper
    }
}

/// Normalizes a raw gene symbol. An empty result marks a symbol that cannot
/// be mapped.
pub fn normalize_symbol(raw: &str) -> (norm: String)
    ensures
        norm@ == normalized_symbol(raw@),
{
    let chars = chars_of(raw);
    let v = normalize_symbol_chars(chars.as_slice());
    string_of(v.as_slice())
}

/// The views of a sequence of features.
pub open spec fn feature_views(v: Seq<Feature>) -> Seq<FeatureView> {
    v.map_values(|f: Feature| f@)
}

/// The feature that the tab-separated columns of a line make: identifier,
/// symbol, and, where there is a third column, the feature type, each
/// without the whitespace around it.
pub open spec fn feature_of_columns(cols: Seq<Seq<char>>) -> FeatureView {
    FeatureView {
        id: trim(cols[0]),
        symbol_raw: trim(cols[1]),
        symbol_norm: normalized_symbol(trim(cols[1])),
        feature_type: if cols.len() >= 3 {
            Some(trim(cols[2]))
        } else {
            None
        },
    }
}

/// What one line of the feature list gives: nothing for a blank line, a
/// feature for a line of two columns or more, and a failure otherwise.
pub open spec fn feature_line(line: Seq<char>, line_no: nat) -> Result<
    Option<FeatureView>,
    InputErrorView,
> {
    let t = trim_end(line);
    if t.len() == 0 {
        Ok(None)
    } else {
        let cols = split(t, '\t');
        if cols.len() < 2 {
            Err(
                InputErrorView::Parse(
                    "features line "@ + decimal(line_no) + " has <2 columns"@,
                ),
            )
        } else {
            Ok(Some(feature_of_columns(cols)))
        }
    }
}

/// [`feature_line`] as a function value.
pub open spec fn feature_line_fn() -> spec_fn(Seq<char>, nat) -> Result<
    Option<FeatureView>,
    InputErrorView,
> {
    |line: Seq<char>, line_no: nat| feature_line(line, line_no)
}

/// The features of a text, one for each line that is not blank, in line
/// order, or why the text is refused.
pub open spec fn features_outcome(text: Seq<char>) -> Result<Seq<FeatureView>, InputErrorView> {
    match fold_lines(lines(text), feature_line_fn()) {
        Err(e) => Err(e),
        Ok(features) => if features.len() == 0 {
            Err(InputErrorView::Parse("features file is empty"@))
        } else {
            Ok(features)
        },
    }
}

/// Reads one line of the feature list.
pub fn parse_feature_line(line: &[char], line_no: usize) -> (r: Result<Option<Feature>, InputError>)
    ensures
        match r {
            Ok(Some(f)) => feature_line(line@, line_no as nat) == Ok::<
                Option<FeatureView>,
                InputErrorView,
            >(Some(f@)),
            Ok(None) => feature_line(line@, line_no as nat) == Ok::<
                Option<FeatureView>,
                InputErrorView,
            >(None),
            Err(e) => feature_line(line@, line_no as nat) == Err::<
                Option<FeatureView>,
                InputErrorView,
            >(e@),
        },
{
    let t: Vec<char> = trim_end_chars(line);
    if t.len() == 0 {
        return Ok(None);
    }
    let cols: Vec<Vec<char>> = split_chars(t.as_slice(), '\t');
    if cols.len() < 2 {
        let mut msg: String = numbered_message("features line ", line_no);
        msg.append(" has <2 columns");
        return Err(InputError::Parse(msg));
    }
    proof {
        assert(views(cols@)[0] == cols@[0]@);
        assert(views(cols@)[1] == cols@[1]@);
        if cols.len() >= 3 {
            assert(views(cols@)[2] == cols@[2]@);
        }
    }
    let id: Vec<char> = trim_chars(cols[0].as_slice());
    let symbol: Vec<char> = trim_chars(cols[1].as_slice());
    let norm: Vec<char> = normalize_symbol_chars(symbol.as_slice());
    let feature_type: Option<String> = if cols.len() >= 3 {
        let kind: Vec<char> = trim_chars(cols[2].as_slice());
        Some(string_of(kind.as_slice()))
    } else {
        None
    };
    Ok(
        Some(
            Feature {
                id: string_of(id.as_slice()),
                symbol_raw: string_of(symbol.as_slice()),
                symbol_norm: string_of(norm.as_slice()),
                feature_type,
            },
        ),
    )
}

/// Reads the feature list: one feature per line, in tab-separated columns
/// of identifier, symbol and, optionally, feature type.
pub fn parse_features(text: &str) -> (r: Result<Vec<Feature>, InputError>)
    ensures
        match r {
            Ok(features) => features_outcome(text@) == Ok::<Seq<FeatureView>, InputErrorView>(
                feature_views(features@),
            ),
            Err(e) => features_outcome(text@) == Err::<Seq<FeatureView>, InputErrorView>(e@),
        },
{
    let chars: Vec<char> = chars_of(text);
    let ls: Vec<Vec<char>> = split_lines(chars.as_slice());
    let ghost all = lines(text@);
    let ghost f = feature_line_fn();
    let mut features: Vec<Feature> = Vec::new();
    let mut i: usize = 0;
    proof {
        assert(all.take(0) =~= Seq::<Seq<char>>::empty());
        assert(feature_views(features@) =~= Seq::<FeatureView>::empty());
    }
    while i < ls.len()
        invariant
            i <= ls.len(),
            views(ls@) == all,
            all == lines(text@),
            f == feature_line_fn(),
            fold_lines(all.take(i as int), f) == Ok::<Seq<FeatureView>, InputErrorView>(
                feature_views(features@),
            ),
        decreases ls.len() - i,
    {
        proof {
            assert(all.take(i + 1).drop_last() =~= all.take(i as int));
            assert(all.take(i + 1).last() == ls@[i as int]@) by {
                assert(all[i as int] == ls@[i as int]@);
            }
            assert(f(all.take(i + 1).last(), all.take(i + 1).len()) == feature_line(
                ls@[i as int]@,
                (i + 1) as nat,
            ));
        }
        match parse_feature_line(ls[i].as_slice(), i + 1) {
            Err(e) => {
                proof {
                    lemma_fold_lines_failure_stays(all, f, i + 1);
                }
                return Err(e);
            },
            Ok(None) => {},
            Ok(Some(feature)) => {
                let ghost before = feature_views(features@);
                let ghost view = feature@;
                features.push(feature);
                proof {
                    assert(feature_views(features@) =~= before.push(view));
                }
            },
        }
        i += 1;
    }
    proof {
        assert(all.take(i as int) =~= all);
    }
    if features.len() == 0 {
        return Err(InputError::parse("features file is empty"));
    }
    Ok(features)
}

} // verus!
