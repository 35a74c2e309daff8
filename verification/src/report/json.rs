//! The pieces that JSON text is built from.

use vstd::prelude::*;
use crate::text::chars_of;

verus! {

/// What a character becomes inside a JSON string: quote, backslash, line
/// feed, carriage return and tab get a backslash form, any other character
/// stays.
pub open spec fn escaped_char(c: char) -> Seq<char> {
    if c == '"' {
        seq!['\\', '"']
    } else if c == '\\' {
        seq!['\\', '\\']
    } else if c == '\n' {
        seq!['\\', 'n']
    } else if c == '\r' {
        seq!['\\', 'r']
    } else if c == '\t' {
        seq!['\\', 't']
    } else {
        seq![c]
    }
}

/// A text as it stands inside a JSON string.
pub open spec fn escaped(s: Seq<char>) -> Seq<char>
    decreases s.len(),
{
    if s.len() == 0 {
        Seq::empty()
    } else {
        escaped(s.drop_last()) + escaped_char(s.last())
    }
}

/// A text as a JSON string, between quotes.
pub open spec fn quoted(s: Seq<char>) -> Seq<char> {
    seq!['"'] + escaped(s) + seq!['"']
}

/// Escapes a text for a JSON string.
pub fn escape_json(s: &str) -> (out: String)
    ensures
        out@ == escaped(s@),
{
    let chars: Vec<char> = chars_of(s);
    let mut out: String = String::new();
    let mut i: usize = 0;
    proof {
        assert(chars@.take(0) =~= Seq::<char>::empty());
    }
    while i < chars.len()
        invariant
            i <= chars@.len(),
            out@ == escaped(chars@.take(i as int)),
        decreases chars@.len() - i,
    {
        let ch: char = chars[i];
        let ghost before = out@;
        proof {
            assert(chars@.take(i + 1).drop_last() =~= chars@.take(i as int));
        }
        if ch == '"' {
            out.push('\\');
            out.push('"');
        } else if ch == '\\' {
            out.push('\\');
            out.push('\\');
        } else if ch == '\n' {
            out.push('\\');
            out.push('n');
        } else if ch == '\r' {
            out.push('\\');
            out.push('r');
        } else if ch == '\t' {
            out.push('\\');
            out.push('t');
        } else {
            out.push(ch);
        }
        proof {
            assert(out@ =~= before + escaped_char(ch));
        }
        i += 1;
    }
    proof {
        assert(chars@.take(i as int) =~= chars@);
    }
    out
}

/// Appends a key as a JSON string.
pub fn push_str_key(out: &mut String, key: &str)
    ensures
        final(out)@ == old(out)@ + quoted(key@),
{
    let inner: String = escape_json(key);
    out.push('"');
    out.append(inner.as_str());
    out.push('"');
    proof {
        assert(final(out)@ =~= old(out)@ + quoted(key@));
    }
}

/// Appends a value as a JSON string.
pub fn push_str_val(out: &mut String, value: &str)
    ensures
        final(out)@ == old(out)@ + quoted(value@),
{
    let inner: String = escape_json(value);
    out.push('"');
    out.append(inner.as_str());
    out.push('"');
    proof {
        assert(final(out)@ =~= old(out)@ + quoted(value@));
    }
}

/// Appends a key and a string value, with a colon between them.
pub fn push_kv_str(out: &mut String, key: &str, value: &str)
    ensures
        final(out)@ == old(out)@ + quoted(key@) + seq![':'] + quoted(value@),
{
    push_str_key(out, key);
    out.push(':');
    push_str_val(out, value);
    proof {
        assert(final(out)@ =~= old(out)@ + quoted(key@) + seq![':'] + quoted(value@));
    }
}

/// Appends a key and a truth value, with a colon between them.
pub fn push_kv_bool(out: &mut String, key: &str, value: bool)
    ensures
        final(out)@ == old(out)@ + quoted(key@) + seq![':'] + (if value {
            "true"@
        } else {
            "false"@
        }),
{
    push_str_key(out, key);
    out.push(':');
    out.append(if value { "true" } else { "false" });
    proof {
        assert(final(out)@ =~= old(out)@ + quoted(key@) + seq![':'] + (if value {
            "true"@
        } else {
            "false"@
        }));
    }
}

} // verus!
