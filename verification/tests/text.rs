use openshell_drivers::string_map::StringMap;
use openshell_drivers::text::{
    i32_text, join, less, parse_u32, same, starts_with, strip_prefix, tail_after, take_chars, trim,
    u64_text,
};

#[test]
fn numbers_in_decimal() {
    assert_eq!(u64_text(0), "0");
    assert_eq!(u64_text(10), "10");
    assert_eq!(u64_text(u64::MAX), u64::MAX.to_string());
    assert_eq!(i32_text(-7), "-7");
    assert_eq!(i32_text(i32::MIN), i32::MIN.to_string());
    assert_eq!(parse_u32(&u64_text(123_456)), Some(123_456));
}

#[test]
fn strings_compare_as_in_the_standard_library() {
    let words = ["", "a", "ab", "b", "A", "\u{e9}", "\u{1f600}", "a\u{0}"];
    for x in words {
        for y in words {
            assert_eq!(same(x, y), x == y);
            assert_eq!(less(x, y), x < y);
            assert_eq!(starts_with(x, y), x.starts_with(y));
            assert_eq!(strip_prefix(x, y), x.strip_prefix(y));
        }
    }
}

#[test]
fn parts_of_strings() {
    assert_eq!(take_chars("h\u{e9}llo", 2), "h\u{e9}");
    assert_eq!(take_chars("h", 2), "h");
    for s in ["", "a", "a/b", "a/b/", "//"] {
        assert_eq!(tail_after(s, '/'), s.rsplit('/').next().unwrap());
    }
    for s in ["", " ", "\t a b\n", "\u{a0}x\u{3000}", "\u{200b}x"] {
        assert_eq!(trim(s), s.trim());
    }
    for s in ["", "+", "0", "+1", "-1", "4294967295", "4294967296", "00012", "1x", "99999999999x"] {
        assert_eq!(parse_u32(s), s.parse::<u32>().ok());
    }
    let parts = vec!["a".to_string(), String::new(), "c".to_string()];
    assert_eq!(join(&parts, ", "), "a, , c");
    assert_eq!(join(&vec![], ", "), "");
}

#[test]
fn maps_are_walked_in_order() {
    let mut m: StringMap<u32> = StringMap::new();
    assert!(m.is_empty());
    for (i, k) in ["b", "a", "c", "b"].iter().enumerate() {
        m.insert(k.to_string(), i as u32);
    }
    assert_eq!(m.len(), 3);
    let keys: Vec<&str> = (0..m.len()).map(|i| m.key_at(i)).collect();
    assert_eq!(keys, vec!["a", "b", "c"]);
    assert_eq!(m.get("b"), Some(&3));
    assert_eq!(*m.value_at(2), 2);
    assert_eq!(m.position("c"), Some(2));
    assert!(m.contains_key("a"));
    assert_eq!(m.remove("a"), Some(1));
    assert_eq!(m.remove("a"), None);
    assert!(!m.contains_key("a"));
}
