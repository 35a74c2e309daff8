//! The prefix that the files of a data set share.

use vstd::prelude::*;
use crate::input::string_views;
use crate::text::{chars_of, copy_range, string_of};

verus! {

/// The endings of the file names that carry a data set prefix.
pub open spec fn prefixed_endings() -> Seq<Seq<char>> {
    seq![
        "_matrix.mtx"@,
        "_matrix.mtx.gz"@,
        "_features.tsv"@,
        "_features.tsv.gz"@,
        "_barcodes.tsv"@,
        "_barcodes.tsv.gz"@,
    ]
}

/// Whether `a` comes before `b` in the order of texts: at the first place
/// where they differ `a` has the smaller character, or `a` is a proper
/// beginning of `b`.
pub open spec fn text_before(a: Seq<char>, b: Seq<char>) -> bool
    decreases a.len(),
{
    if b.len() == 0 {
        false
    } else if a.len() == 0 {
        true
    } else if a[0] != b[0] {
        a[0] < b[0]
    } else {
        text_before(a.drop_first(), b.drop_first())
    }
}

/// Whether name `i` is `p` followed by ending `j`, with `p` not empty.
pub open spec fn prefix_at(names: Seq<Seq<char>>, p: Seq<char>, i: int, j: int) -> bool {
    &&& 0 <= i < names.len()
    &&& 0 <= j < prefixed_endings().len()
    &&& p.len() > 0
    &&& names[i] == p + prefixed_endings()[j]
}

/// Whether `p` is the prefix of a file name among `names`.
pub open spec fn is_prefix(names: Seq<Seq<char>>, p: Seq<char>) -> bool {
    exists|i: int, j: int| prefix_at(names, p, i, j)
}

/// Whether `p` is a prefix found at a place before name `i`, ending `j`.
pub open spec fn is_prefix_before(names: Seq<Seq<char>>, p: Seq<char>, i: int, j: int) -> bool {
    exists|i2: int, j2: int| prefix_at(names, p, i2, j2) && (i2 < i || (i2 == i && j2 < j))
}

/// No text comes before itself.
pub proof fn lemma_text_before_irreflexive(a: Seq<char>)
    ensures
        !text_before(a, a),
    decreases a.len(),
{
    if a.len() > 0 {
        lemma_text_before_irreflexive(a.drop_first());
    }
}

/// What comes before a text comes before every text after it.
pub proof fn lemma_text_before_transitive(a: Seq<char>, b: Seq<char>, c: Seq<char>)
    requires
        text_before(a, b),
        text_before(b, c),
    ensures
        text_before(a, c),
    decreases a.len(),
{
    if a.len() > 0 && b.len() > 0 && c.len() > 0 {
        if a[0] == b[0] && b[0] == c[0] {
            lemma_text_before_transitive(a.drop_first(), b.drop_first(), c.drop_first());
        }
    }
}

/// Two texts that give the same text when the same ending follows them are
/// the same text.
pub proof fn lemma_same_beginning(a: Seq<char>, b: Seq<char>, ending: Seq<char>)
    requires
        a + ending == b + ending,
    ensures
        a == b,
{
    assert((a + ending).len() == a.len() + ending.len());
    assert((b + ending).len() == b.len() + ending.len());
    assert forall|k: int| 0 <= k < a.len() implies a[k] == b[k] by {
        assert((a + ending)[k] == a[k]);
        assert((b + ending)[k] == b[k]);
    }
    assert(a =~= b);
}

/// Tests whether `a` comes before `b` in the order of texts.
pub fn chars_before(a: &[char], b: &[char]) -> (r: bool)
    ensures
        r == text_before(a@, b@),
{
    let mut i: usize = 0;
    proof {
        assert(a@.skip(0) =~= a@);
        assert(b@.skip(0) =~= b@);
    }
    while i < a.len() && i < b.len()
        invariant
            i <= a.len(),
            i <= b.len(),
            text_before(a@, b@) == text_before(a@.skip(i as int), b@.skip(i as int)),
        decreases a.len() - i,
    {
        if a[i] != b[i] {
            return a[i] < b[i];
        }
        proof {
            assert(a@.skip(i as int).drop_first() =~= a@.skip(i + 1));
            assert(b@.skip(i as int).drop_first() =~= b@.skip(i + 1));
        }
        i += 1;
    }
    i < b.len()
}

/// Tests whether `s` ends with `ending` after at least one character, and
/// gives what stands before the ending.
pub fn strip_ending(s: &[char], ending: &[char]) -> (r: Option<Vec<char>>)
    ensures
        match r {
            Some(p) => p@.len() > 0 && s@ == p@ + ending@,
            None => forall|p: Seq<char>| !(p.len() > 0 && s@ == p + ending@),
        },
{
    if s.len() <= ending.len() {
        proof {
            assert forall|p: Seq<char>| !(p.len() > 0 && s@ == p + ending@) by {
                if p.len() > 0 {
                    assert((p + ending@).len() == p.len() + ending@.len());
                }
            }
        }
        return None;
    }
    let cut: usize = s.len() - ending.len();
    let mut k: usize = 0;
    while k < ending.len()
        invariant
            k <= ending.len(),
            cut + ending.len() == s.len(),
            forall|j: int| 0 <= j < k ==> s@[cut + j] == ending@[j],
        decreases ending.len() - k,
    {
        if s[cut + k] != ending[k] {
            proof {
                assert forall|p: Seq<char>| !(p.len() > 0 && s@ == p + ending@) by {
                    if p.len() > 0 && s@ == p + ending@ {
                        assert((p + ending@).len() == p.len() + ending@.len());
                        assert((p + ending@)[cut + k] == ending@[k as int]);
                    }
                }
            }
            return None;
        }
        k += 1;
    }
    let p: Vec<char> = copy_range(s, 0, cut);
    proof {
        assert(s@ =~= p@ + ending@);
    }
    Some(p)
}

/// The endings of the file names that carry a data set prefix.
pub fn prefix_endings() -> (endings: Vec<Vec<char>>)
    ensures
        crate::text::views(endings@) == prefixed_endings(),
        endings@.len() == 6,
{
    let mut endings: Vec<Vec<char>> = Vec::new();
    endings.push(chars_of("_matrix.mtx"));
    endings.push(chars_of("_matrix.mtx.gz"));
    endings.push(chars_of("_features.tsv"));
    endings.push(chars_of("_features.tsv.gz"));
    endings.push(chars_of("_barcodes.tsv"));
    endings.push(chars_of("_barcodes.tsv.gz"));
    proof {
        assert(crate::text::views(endings@) =~= prefixed_endings());
    }
    endings
}

/// Whether `best` is the first, in the order of texts, of the prefixes
/// found before name `i`, ending `j`; nothing where none was found.
pub open spec fn first_prefix_before(
    names: Seq<Seq<char>>,
    best: Option<Seq<char>>,
    i: int,
    j: int,
) -> bool {
    match best {
        Some(p) => is_prefix(names, p) && forall|q: Seq<char>| #[trigger]
            is_prefix_before(names, q, i, j) ==> !text_before(q, p),
        None => forall|q: Seq<char>| !#[trigger] is_prefix_before(names, q, i, j),
    }
}

/// The text of an optional vector of characters.
pub open spec fn option_chars(v: Option<Vec<char>>) -> Option<Seq<char>> {
    match v {
        Some(p) => Some(p@),
        None => None,
    }
}

/// What is found before a place is found before every later place.
pub proof fn lemma_prefix_before_step(names: Seq<Seq<char>>, q: Seq<char>, i: int, j: int)
    requires
        is_prefix_before(names, q, i, j + 1),
        !prefix_at(names, q, i, j),
    ensures
        is_prefix_before(names, q, i, j),
{
    let (i2, j2) = choose|i2: int, j2: int|
        prefix_at(names, q, i2, j2) && (i2 < i || (i2 == i && j2 < j + 1));
    assert(prefix_at(names, q, i2, j2) && (i2 < i || (i2 == i && j2 < j)));
}

/// One more prefix, found at name `i` and ending `j`, either becomes the
/// first or leaves the first as it was.
pub proof fn lemma_first_prefix_step(
    names: Seq<Seq<char>>,
    best: Option<Seq<char>>,
    candidate: Seq<char>,
    i: int,
    j: int,
)
    requires
        first_prefix_before(names, best, i, j),
        prefix_at(names, candidate, i, j),
    ensures
        first_prefix_before(
            names,
            if best is None || text_before(candidate, best->0) {
                Some(candidate)
            } else {
                best
            },
            i,
            j + 1,
        ),
{
    lemma_text_before_irreflexive(candidate);
    let better = best is None || text_before(candidate, best->0);
    let next = if better {
        candidate
    } else {
        best->0
    };
    assert forall|q: Seq<char>| #[trigger]
        is_prefix_before(names, q, i, j + 1) implies !text_before(q, next) by {
        if prefix_at(names, q, i, j) {
            lemma_same_beginning(q, candidate, prefixed_endings()[j]);
        } else {
            lemma_prefix_before_step(names, q, i, j);
            if better && best is Some && text_before(q, candidate) {
                lemma_text_before_transitive(q, candidate, best->0);
            }
        }
    }
}

/// The prefix of a data set, from the names of the files of its directory:
/// the first, in the order of texts, of the prefixes that stand before one
/// of the known endings; nothing where no file name has a prefix.
pub fn detect_prefix(names: &[String]) -> (r: Option<String>)
    ensures
        match r {
            Some(p) => is_prefix(string_views(names@), p@) && forall|q: Seq<char>|
                is_prefix(string_views(names@), q) ==> !text_before(q, p@),
            None => forall|q: Seq<char>| !is_prefix(string_views(names@), q),
        },
{
    let ghost all = string_views(names@);
    let endings: Vec<Vec<char>> = prefix_endings();
    let mut best: Option<Vec<char>> = None;
    let mut i: usize = 0;
    while i < names.len()
        invariant
            i <= names.len(),
            all == string_views(names@),
            crate::text::views(endings@) == prefixed_endings(),
            endings@.len() == 6,
            first_prefix_before(all, option_chars(best), i as int, 0),
        decreases names.len() - i,
    {
        let name: Vec<char> = chars_of(names[i].as_str());
        proof {
            assert(all[i as int] == name@);
        }
        let mut j: usize = 0;
        while j < endings.len()
            invariant
                j <= endings@.len(),
                i < names.len(),
                all == string_views(names@),
                all[i as int] == name@,
                crate::text::views(endings@) == prefixed_endings(),
                endings@.len() == 6,
                first_prefix_before(all, option_chars(best), i as int, j as int),
            decreases endings@.len() - j,
        {
            let ghost old_best = option_chars(best);
            proof {
                assert(prefixed_endings()[j as int] == endings@[j as int]@);
            }
            let found: Option<Vec<char>> = strip_ending(name.as_slice(), endings[j].as_slice());
            match found {
                Some(candidate) => {
                    proof {
                        assert(prefix_at(all, candidate@, i as int, j as int));
                        lemma_first_prefix_step(all, old_best, candidate@, i as int, j as int);
                    }
                    let better: bool = match &best {
                        Some(p) => chars_before(candidate.as_slice(), p.as_slice()),
                        None => true,
                    };
                    if better {
                        best = Some(candidate);
                    }
                },
                None => {
                    proof {
                        assert forall|q: Seq<char>| #[trigger]
                            is_prefix_before(all, q, i as int, j + 1) implies is_prefix_before(
                            all,
                            q,
                            i as int,
                            j as int,
                        ) by {
                            if prefix_at(all, q, i as int, j as int) {
                                assert(q.len() > 0 && name@ == q + endings@[j as int]@);
                            }
                            lemma_prefix_before_step(all, q, i as int, j as int);
                        }
                    }
                },
            }
            j += 1;
        }
        proof {
            assert forall|q: Seq<char>| #[trigger]
                is_prefix_before(all, q, i + 1, 0) implies is_prefix_before(all, q, i as int, 6) by {
                let (i2, j2) = choose|i2: int, j2: int|
                    prefix_at(all, q, i2, j2) && (i2 < i + 1 || (i2 == i + 1 && j2 < 0));
                assert(prefix_at(all, q, i2, j2) && (i2 < i || (i2 == i && j2 < 6)));
            }
        }
        i += 1;
    }
    proof {
        assert forall|q: Seq<char>| is_prefix(all, q) implies is_prefix_before(
            all,
            q,
            names.len() as int,
            0,
        ) by {
            let (i2, j2) = choose|i2: int, j2: int| prefix_at(all, q, i2, j2);
            assert(prefix_at(all, q, i2, j2) && (i2 < names.len() || (i2 == names.len() && j2 < 0)));
        }
    }
    match best {
        Some(p) => Some(string_of(p.as_slice())),
        None => None,
    }
}

} // verus!
