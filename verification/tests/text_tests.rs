use kira_nuclearqc::paths::{join_path, sibling};
use kira_nuclearqc::text::{
    char_is_whitespace, chars_of, chars_start_with, numbered_message, parse_i64, parse_usize,
    push_decimal, split_chars, split_fields, split_lines, str_eq, string_of, trim_chars,
    trim_end_chars,
};

fn chars(s: &str) -> Vec<char> {
    s.chars().collect()
}

fn strings(v: Vec<Vec<char>>) -> Vec<String> {
    v.into_iter().map(|c| c.into_iter().collect()).collect()
}

#[test]
fn test_whitespace_is_what_the_standard_library_calls_whitespace() {
    for code in 0..=0x11_0000u32 {
        if let Some(c) = char::from_u32(code) {
            assert_eq!(char_is_whitespace(c), c.is_whitespace(), "{:x}", code);
        }
    }
}

#[test]
fn test_trimming_agrees_with_the_standard_library() {
    for s in ["", " ", " a ", "a", "\t a b \r\n", "\u{2003}x\u{85}", "  \u{a0}  ", "a \u{200b} "] {
        let t: String = trim_chars(&chars(s)).into_iter().collect();
        assert_eq!(t, s.trim(), "{:?}", s);
        let t: String = trim_end_chars(&chars(s)).into_iter().collect();
        assert_eq!(t, s.trim_end(), "{:?}", s);
    }
}

#[test]
fn test_splitting_agrees_with_the_standard_library() {
    for s in ["", "a", "\t", "a\tb", "a\t\tb\t", "\ta", " a \t b "] {
        let expected: Vec<String> = s.split('\t').map(|p| p.to_string()).collect();
        assert_eq!(strings(split_chars(&chars(s), '\t')), expected, "{:?}", s);
    }
    for s in ["", " ", "a", " a  b\tc\n", "a\u{3000}b", "ab cd", "\u{200b} x"] {
        let expected: Vec<String> = s.split_whitespace().map(|p| p.to_string()).collect();
        assert_eq!(strings(split_fields(&chars(s))), expected, "{:?}", s);
    }
    for s in ["", "\n", "a", "a\n", "a\nb", "a\n\nb\n", "\n\n", "a\r\nb"] {
        let expected: Vec<String> = s.split_inclusive('\n').map(|l| {
            l.strip_suffix('\n').unwrap_or(l).to_string()
        }).collect();
        assert_eq!(strings(split_lines(&chars(s))), expected, "{:?}", s);
    }
}

#[test]
fn test_numbers_agree_with_the_standard_library() {
    let cases = [
        "", "0", "7", "+7", "-7", "-0", "+", "-", "++1", "+-1", "007", " 1", "1 ", "1_0", "１",
        "18446744073709551615", "18446744073709551616", "9223372036854775807",
        "9223372036854775808", "-9223372036854775808", "-9223372036854775809",
        "000000000000000000000000000012", "99999999999999999999999999", "0x10", "1e3", "1.0",
    ];
    for s in cases {
        assert_eq!(parse_usize(&chars(s)), s.parse::<usize>().ok(), "{:?}", s);
        assert_eq!(parse_i64(&chars(s)), s.parse::<i64>().ok(), "{:?}", s);
    }
}

#[test]
fn test_decimal_notation() {
    for n in [0u64, 1, 9, 10, 11, 99, 100, 12345, u32::MAX as u64, u64::MAX] {
        let mut s = String::from("n=");
        push_decimal(&mut s, n);
        assert_eq!(s, format!("n={}", n));
    }
    assert_eq!(numbered_message("line ", 42), "line 42");
    assert_eq!(numbered_message("", usize::MAX), usize::MAX.to_string());
}

#[test]
fn test_text_helpers() {
    assert_eq!(chars_of("a\u{e9}\u{1f600}"), vec!['a', '\u{e9}', '\u{1f600}']);
    assert_eq!(string_of(&['x', '\u{3b2}']), "x\u{3b2}");
    assert!(str_eq("", ""));
    assert!(str_eq("\u{e9}", "\u{e9}"));
    assert!(!str_eq("a", "b"));
    assert!(!str_eq("a", "ab"));
    assert!(!str_eq("ab", "a"));
    assert!(chars_start_with(&chars("%%MatrixMarket x"), &chars("%%MatrixMarket")));
    assert!(chars_start_with(&chars("abc"), &chars("")));
    assert!(!chars_start_with(&chars("%MatrixMarket"), &chars("%%MatrixMarket")));
    assert!(!chars_start_with(&chars("ab"), &chars("abc")));
}

#[test]
fn test_paths() {
    assert_eq!(join_path("a", "b"), "a/b");
    assert_eq!(join_path("a/", "b"), "a/b");
    assert_eq!(join_path("", "b"), "b");
    assert_eq!(join_path("/", "b"), "/b");
    assert_eq!(sibling("a/b/c.txt", "d"), "a/b/d");
    assert_eq!(sibling("c.txt", "d"), "d");
    assert_eq!(sibling("/c.txt", "d"), "/d");
    assert_eq!(sibling("./c.txt", "d"), "./d");
    // The slashes that end a path play no part, nor do repeated ones.
    assert_eq!(sibling("a/", "d"), "d");
    assert_eq!(sibling("a/b/", "d"), "a/d");
    assert_eq!(sibling("a/b///", "d"), "a/d");
    assert_eq!(sibling("a//b", "d"), "a/d");
    assert_eq!(sibling("//c.txt", "d"), "/d");
    // A path with no directory above it.
    assert_eq!(sibling("/", "d"), "./d");
    assert_eq!(sibling("///", "d"), "./d");
    assert_eq!(sibling("", "d"), "./d");
    // A part that is a single dot names nothing, but where it begins the path.
    assert_eq!(sibling("a/.", "d"), "d");
    assert_eq!(sibling("a/./b", "d"), "a/d");
    assert_eq!(sibling("a/b/./", "d"), "a/d");
    assert_eq!(sibling("./a", "d"), "./d");
    assert_eq!(sibling(".", "d"), "d");
    assert_eq!(sibling("./.", "d"), "d");
    assert_eq!(sibling("/.", "d"), "./d");
    // Two dots are a name like any other.
    assert_eq!(sibling("a/..", "d"), "a/d");
    assert_eq!(sibling("..", "d"), "d");
    assert_eq!(sibling("../x", "d"), "../d");
}

fn all_texts(alphabet: &[char], max_len: usize) -> Vec<String> {
    let mut all = vec![String::new()];
    let mut from = 0;
    for _ in 0..max_len {
        let until = all.len();
        for at in from..until {
            for c in alphabet {
                let mut longer = all[at].clone();
                longer.push(*c);
                all.push(longer);
            }
        }
        from = until;
    }
    all
}

#[test]
fn test_sibling_is_the_parent_joined_with_the_name() {
    let texts = all_texts(&['/', '.', 'a', 'b'], 7);
    assert_eq!(texts.len(), 21845);
    for text in &texts {
        let path = std::path::Path::new(text);
        let dir = path.parent().unwrap_or_else(|| std::path::Path::new("."));
        let expected = dir.join("n.cache");
        assert_eq!(sibling(text, "n.cache"), expected.to_str().unwrap(), "{text:?}");
    }
}
