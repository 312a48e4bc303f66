use vnts::text::{chars_of, is_white_space, push_decimal, string_of, trim_range, trimmed};
use vnts::tokens::TokenSet;

fn texts(set: &TokenSet) -> Vec<&str> {
    set.as_vec().iter().map(|t| t.as_str()).collect()
}

#[test]
fn white_space_is_that_of_the_standard_library() {
    for n in 0..=0x10_ffffu32 {
        if let Some(c) = char::from_u32(n) {
            assert_eq!(is_white_space(c), c.is_whitespace(), "{:x}", n);
        }
    }
}

#[test]
fn trims_as_the_standard_library_does() {
    for s in ["", " ", "a", " a", "a ", "\t a b \r\n", "\u{3000}x\u{a0}", "  \n  ", "é ", "\u{85}#"] {
        assert_eq!(trimmed(s), s.trim());
    }
}

#[test]
fn characters_and_ranges() {
    let cs = chars_of(" ab c ");
    assert_eq!(cs, vec![' ', 'a', 'b', ' ', 'c', ' ']);
    assert_eq!(trim_range(&cs, 0, 6), (1, 5));
    assert_eq!(trim_range(&cs, 3, 4), (4, 4));
    assert_eq!(string_of(&cs, 1, 5), "ab c");
}

#[test]
fn decimal_numerals() {
    for n in [0u64, 7, 10, 99, 100, 65535, 29872, u64::MAX] {
        let mut s = String::from("n=");
        push_decimal(&mut s, n);
        assert_eq!(s, format!("n={}", n));
    }
}

#[test]
fn no_token_is_stored_twice() {
    let mut set = TokenSet::new();
    assert!(set.is_empty());
    set.insert("b".to_string());
    set.insert("a".to_string());
    set.insert("b".to_string());
    assert_eq!(set.len(), 2);
    assert_eq!(texts(&set), vec!["b", "a"]);
    assert!(set.contains(&"a".to_string()));
    assert!(!set.contains(&"c".to_string()));
    assert!(!set.is_empty());
    let copy = set.clone();
    assert_eq!(texts(&copy), texts(&set));
}

#[test]
fn extends_by_a_list() {
    let mut set = TokenSet::new();
    set.insert("x".to_string());
    set.extend(&vec!["y".to_string(), "x".to_string(), "".to_string()]);
    assert_eq!(texts(&set), vec!["x", "y", ""]);
}

#[test]
fn loads_a_token_file() {
    let mut set = TokenSet::new();
    set.load("# comment\n\n  alpha  \r\nbeta\n\t#gamma\nalpha\n del ta \n\u{3000}eps\u{3000}");
    assert_eq!(texts(&set), vec!["alpha", "beta", "del ta", "eps"]);
}

#[test]
fn loads_what_the_standard_library_splits() {
    let samples = ["", "\n", "a", "a\n", "\r\n", "a\rb\n", "\n\na\n#b\nc#d", "a\n\n", " # x\n#\n y"];
    for content in samples {
        let mut expected: Vec<String> = Vec::new();
        for line in content.lines() {
            let t = line.trim();
            if !t.is_empty() && !t.starts_with('#') && !expected.contains(&t.to_string()) {
                expected.push(t.to_string());
            }
        }
        let mut set = TokenSet::new();
        set.load(content);
        assert_eq!(set.as_vec(), &expected, "{:?}", content);
    }
}
