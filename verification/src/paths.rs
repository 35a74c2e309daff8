//! File paths as plain text, with `/` between the parts.

use vstd::prelude::*;
use crate::input::features::last_index_of;
use crate::text::{chars_of, copy_range, string_of};

verus! {

/// A directory and a name as one path: the name alone for an empty
/// directory, else the directory, a `/` unless it ends in one, and the name.
pub open spec fn joined_path(dir: Seq<char>, name: Seq<char>) -> Seq<char> {
    if dir.len() == 0 {
        name
    } else if dir.last() == '/' {
        dir + name
    } else {
        dir + seq!['/'] + name
    }
}

/// How many characters at the beginning of a path are no part of a name:
/// one for the `/` of the root, one for a `.` that begins the path as a
/// part of its own, else none.
pub open spec fn path_start(path: Seq<char>) -> int {
    if path.len() > 0 && path[0] == '/' {
        1
    } else if path.len() > 0 && path[0] == '.' && (path.len() == 1 || path[1] == '/') {
        1
    } else {
        0
    }
}

/// A path without what ends it and names nothing: the `/` characters and
/// the parts that are a single `.`, as far as they stand after the first
/// `start` characters.
pub open spec fn without_end_parts(path: Seq<char>, start: int) -> Seq<char>
    decreases path.len(),
{
    if path.len() == 0 || path.len() <= start {
        path
    } else if path.last() == '/' {
        without_end_parts(path.drop_last(), start)
    } else if path.last() == '.' && (path.len() - 1 == start || path[path.len() - 2] == '/') {
        without_end_parts(path.drop_last(), start)
    } else {
        path
    }
}

/// The directory that holds `path`, if there is one. The parts of a path
/// stand between `/` characters; empty parts and parts that are a single
/// `.` name nothing and are passed over, but for a `.` that begins the
/// path. The last part that is left is taken off, with the `/` before it
/// and what names nothing before that. The root has no directory above it,
/// nor has the empty path; the directory of a lone name, and of `.`, is the
/// empty path.
pub open spec fn parent_path(path: Seq<char>) -> Option<Seq<char>> {
    let start = path_start(path);
    let rest = without_end_parts(path, start);
    if rest.len() <= start {
        if path.len() > 0 && path[0] == '.' {
            Some(Seq::empty())
        } else {
            None
        }
    } else {
        let at = last_index_of(rest, '/');
        if at < start {
            Some(rest.take(start))
        } else {
            Some(without_end_parts(rest.take(at), start))
        }
    }
}

/// The path of the file `name` in the directory that holds `path`: that
/// directory and the name as one path, and `./` and the name where `path`
/// has no directory above it.
pub open spec fn sibling_path(path: Seq<char>, name: Seq<char>) -> Seq<char> {
    match parent_path(path) {
        Some(dir) => joined_path(dir, name),
        None => seq!['.', '/'] + name,
    }
}

/// Joins a directory and a name.
pub fn join_path(dir: &str, name: &str) -> (path: String)
    ensures
        path@ == joined_path(dir@, name@),
{
    let chars: Vec<char> = chars_of(dir);
    if chars.len() == 0 {
        return String::from_str(name);
    }
    let mut path: String = String::from_str(dir);
    if chars[chars.len() - 1] != '/' {
        path.push('/');
    }
    path.append(name);
    proof {
        assert(path@ =~= joined_path(dir@, name@));
    }
    path
}

/// The number of characters at the beginning that are no part of a name.
fn start_of_path(chars: &[char]) -> (start: usize)
    ensures
        start == path_start(chars@),
        start <= chars@.len(),
{
    if chars.len() > 0 && chars[0] == '/' {
        1
    } else if chars.len() > 0 && chars[0] == '.' && (chars.len() == 1 || chars[1] == '/') {
        1
    } else {
        0
    }
}

/// The length of what is left of the first `end` characters without what
/// ends them and names nothing.
fn end_without_parts(chars: &[char], end: usize, start: usize) -> (k: usize)
    requires
        end <= chars@.len(),
    ensures
        k <= end,
        chars@.take(k as int) == without_end_parts(chars@.take(end as int), start as int),
{
    let mut k: usize = end;
    while k > start && (chars[k - 1] == '/' || (chars[k - 1] == '.' && (k - 1 == start || chars[k
        - 2] == '/')))
        invariant
            k <= end <= chars@.len(),
            without_end_parts(chars@.take(k as int), start as int) == without_end_parts(
                chars@.take(end as int),
                start as int,
            ),
        decreases k,
    {
        proof {
            assert(chars@.take(k as int).drop_last() =~= chars@.take(k - 1));
            assert(chars@.take(k as int).last() == chars@[k - 1]);
            if k >= 2 {
                assert(chars@.take(k as int)[k - 2] == chars@[k - 2]);
            }
        }
        k -= 1;
    }
    proof {
        if k > 0 {
            assert(chars@.take(k as int).last() == chars@[k - 1]);
        }
        if k >= 2 {
            assert(chars@.take(k as int)[k - 2] == chars@[k - 2]);
        }
    }
    k
}

/// The path of the file `name` beside the file `path`.
pub fn sibling(path: &str, name: &str) -> (out: String)
    ensures
        out@ == sibling_path(path@, name@),
{
    let chars: Vec<char> = chars_of(path);
    let start: usize = start_of_path(chars.as_slice());
    let end: usize = end_without_parts(chars.as_slice(), chars.len(), start);
    proof {
        assert(chars@.take(chars@.len() as int) =~= chars@);
    }
    let ghost rest = chars@.take(end as int);
    if end <= start {
        if chars.len() > 0 && chars[0] == '.' {
            return String::from_str(name);
        }
        let mut out: String = String::from_str("./");
        out.append(name);
        proof {
            reveal_strlit("./");
            assert("./"@ =~= seq!['.', '/']);
        }
        return out;
    }
    let mut k: usize = end;
    while k > 0 && chars[k - 1] != '/'
        invariant
            k <= end <= chars@.len(),
            rest == chars@.take(end as int),
            last_index_of(rest, '/') == last_index_of(chars@.take(k as int), '/'),
        decreases k,
    {
        proof {
            assert(chars@.take(k as int).drop_last() =~= chars@.take(k - 1));
        }
        k -= 1;
    }
    proof {
        if k > 0 {
            assert(chars@.take(k as int).last() == '/');
        }
        assert(last_index_of(rest, '/') + 1 == k);
    }
    let dir_end: usize = if k <= start {
        proof {
            assert(rest.take(start as int) =~= chars@.take(start as int));
        }
        start
    } else {
        proof {
            assert(rest.take(k - 1) =~= chars@.take(k - 1));
        }
        end_without_parts(chars.as_slice(), k - 1, start)
    };
    proof {
        assert(chars@.subrange(0, dir_end as int) =~= chars@.take(dir_end as int));
        assert(parent_path(chars@) == Some(chars@.take(dir_end as int)));
    }
    let dir: Vec<char> = copy_range(chars.as_slice(), 0, dir_end);
    let mut out: String = string_of(dir.as_slice());
    if dir_end == 0 {
        out.append(name);
        proof {
            assert(out@ =~= name@);
        }
        return out;
    }
    if chars[dir_end - 1] != '/' {
        out.push('/');
    }
    out.append(name);
    proof {
        assert(dir@.last() == chars@[dir_end - 1]);
        assert(out@ =~= joined_path(dir@, name@));
    }
    out
}

} // verus!
