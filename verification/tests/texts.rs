use bizbuz::text::{
    chars_of, decimal_of, filled_str, has_prefix, join, replace_char, same, slice_of, string_of,
    trim, words_of,
};
use bizbuz::StrMap;

#[test]
fn white_space_is_the_unicode_property() {
    let listed: Vec<char> = vec![
        '\u{9}', '\u{a}', '\u{b}', '\u{c}', '\u{d}', '\u{20}', '\u{85}', '\u{a0}', '\u{1680}',
        '\u{2000}', '\u{2001}', '\u{2002}', '\u{2003}', '\u{2004}', '\u{2005}', '\u{2006}',
        '\u{2007}', '\u{2008}', '\u{2009}', '\u{200a}', '\u{2028}', '\u{2029}', '\u{202f}',
        '\u{205f}', '\u{3000}',
    ];
    for c in '\u{0}'..=char::MAX {
        assert_eq!(trim(&c.to_string()).is_empty(), listed.contains(&c));
    }
}

#[test]
fn trimming() {
    assert_eq!(trim("  a b\t"), "a b");
    assert_eq!(trim("a"), "a");
    assert_eq!(trim(" \n "), "");
    assert_eq!(trim("\u{3000}\u{e9}\u{a0}"), "\u{e9}");
}

#[test]
fn splitting_into_words() {
    let words: Vec<String> = words_of(" a  bc\td\u{2003}\u{e9} ").iter().map(string_of).collect();
    assert_eq!(words, vec!["a", "bc", "d", "\u{e9}"]);
    assert!(words_of("  ").is_empty());
}

#[test]
fn numerals() {
    assert_eq!(decimal_of(0), "0");
    assert_eq!(decimal_of(10), "10");
    assert_eq!(decimal_of(1700000000123), "1700000000123");
    assert_eq!(decimal_of(u128::MAX), u128::MAX.to_string());
}

#[test]
fn joining_and_comparing() {
    assert_eq!(join(&vec![], ", "), "");
    assert_eq!(join(&vec!["a".to_string()], ", "), "a");
    assert_eq!(join(&vec!["a".to_string(), "".to_string(), "b".to_string()], ", "), "a, , b");
    assert!(same("a", "a"));
    assert!(!same("a", "A"));
    assert!(has_prefix(&chars_of("abc"), "ab"));
    assert!(!has_prefix(&chars_of("a"), "ab"));
    assert_eq!(replace_char("a.b.c", '.', '-'), "a-b-c");
    assert_eq!(string_of(&slice_of(&chars_of("abcd"), 1, 3)), "bc");
    assert_eq!(filled_str(&Some("a".to_string())), Some("a"));
    assert_eq!(filled_str(&Some("".to_string())), None);
    assert_eq!(filled_str(&None), None);
}

#[test]
fn maps() {
    let mut map: StrMap<String> = StrMap::new();
    assert_eq!(map.len(), 0);
    map.insert("a".to_string(), "1".to_string());
    map.insert("b".to_string(), "2".to_string());
    map.insert("a".to_string(), "3".to_string());
    assert_eq!(map.len(), 2);
    assert_eq!(map.get("a").map(|v| v.as_str()), Some("3"));
    assert_eq!(map.get("c"), None);
    assert!(map.contains_key("b"));
    assert_eq!(map.key_at(0), "a");
    assert_eq!(map.value_at(1), "2");
    let copy = map.clone();
    assert!(map.remove("a"));
    assert!(!map.remove("a"));
    assert_eq!(map.len(), 1);
    assert_eq!(map.key_at(0), "b");
    assert_eq!(copy.len(), 2);
    assert_eq!(copy.get("a").map(|v| v.as_str()), Some("3"));
}
