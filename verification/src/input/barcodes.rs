//! Reader for the list of cell barcodes.

use vstd::prelude::*;
use crate::input::{string_views, InputError, InputErrorView};
use crate::text::{
    chars_of, fold_lines, lines, split_lines, string_of, trim, trim_chars, trim_end, trim_end_chars,
    views,
};

verus! {

/// What one line of the barcode list gives: nothing for a blank line, else
/// the line without the whitespace around it.
pub open spec fn barcode_line(line: Seq<char>) -> Result<Option<Seq<char>>, InputErrorView> {
    if trim_end(line).len() == 0 {
        Ok(None)
    } else {
        Ok(Some(trim(trim_end(line))))
    }
}

/// [`barcode_line`] as a function of the line and its number.
pub open spec fn barcode_line_fn() -> spec_fn(Seq<char>, nat) -> Result<
    Option<Seq<char>>,
    InputErrorView,
> {
    |line: Seq<char>, line_no: nat| barcode_line(line)
}

/// The barcodes of a text, one for each line that is not blank, in line
/// order; a text without any is refused.
pub open spec fn barcodes_outcome(text: Seq<char>) -> Result<Seq<Seq<char>>, InputErrorView> {
    match fold_lines(lines(text), barcode_line_fn()) {
        Err(e) => Err(e),
        Ok(barcodes) => if barcodes.len() == 0 {
            Err(InputErrorView::Parse("barcodes file is empty"@))
        } else {
            Ok(barcodes)
        },
    }
}

/// Reads the barcode list: one barcode per line, blank lines passed over.
pub fn parse_barcodes(text: &str) -> (r: Result<Vec<String>, InputError>)
    ensures
        match r {
            Ok(barcodes) => barcodes_outcome(text@) == Ok::<Seq<Seq<char>>, InputErrorView>(
                string_views(barcodes@),
            ),
            Err(e) => barcodes_outcome(text@) == Err::<Seq<Seq<char>>, InputErrorView>(e@),
        },
{
    let chars: Vec<char> = chars_of(text);
    let ls: Vec<Vec<char>> = split_lines(chars.as_slice());
    let ghost all = lines(text@);
    let ghost f = barcode_line_fn();
    let mut barcodes: Vec<String> = Vec::new();
    let mut i: usize = 0;
    proof {
        assert(all.take(0) =~= Seq::<Seq<char>>::empty());
        assert(string_views(barcodes@) =~= Seq::<Seq<char>>::empty());
    }
    while i < ls.len()
        invariant
            i <= ls.len(),
            views(ls@) == all,
            f == barcode_line_fn(),
            fold_lines(all.take(i as int), f) == Ok::<Seq<Seq<char>>, InputErrorView>(
                string_views(barcodes@),
            ),
        decreases ls.len() - i,
    {
        proof {
            assert(all.take(i + 1).drop_last() =~= all.take(i as int));
            assert(all.take(i + 1).last() == ls@[i as int]@) by {
                assert(all[i as int] == ls@[i as int]@);
            }
            assert(f(all.take(i + 1).last(), all.take(i + 1).len()) == barcode_line(ls@[i as int]@));
        }
        let t: Vec<char> = trim_end_chars(ls[i].as_slice());
        if t.len() > 0 {
            let barcode: Vec<char> = trim_chars(t.as_slice());
            let ghost before = string_views(barcodes@);
            barcodes.push(string_of(barcode.as_slice()));
            proof {
                assert(string_views(barcodes@) =~= before.push(barcode@));
            }
        }
        i += 1;
    }
    proof {
        assert(all.take(i as int) =~= all);
    }
    if barcodes.len() == 0 {
        return Err(InputError::parse("barcodes file is empty"));
    }
    Ok(barcodes)
}

} // verus!
