use navetted::paths::{join_path, path_components, same_path};
use navetted::sorted_map::SortedMap;
use navetted::text::{
    contains_char, ends_with_text, hex_of, is_text_before, parse_u64, push_decimal,
    push_hexadecimal, same_text, split_text, strip_text_prefix, strip_text_suffix, trim_text,
};

#[test]
fn numbers_are_written_and_read() {
    let mut out = String::new();
    push_decimal(&mut out, 0);
    push_decimal(&mut out, 1234567890);
    push_hexadecimal(&mut out, 0xdead);
    assert_eq!(out, "01234567890dead");
    assert_eq!(hex_of(&[0x00, 0xff, 0x1a]), "00ff1a");
    assert_eq!(parse_u64("18446744073709551615"), Some(u64::MAX));
    assert_eq!(parse_u64("18446744073709551616"), None);
    assert_eq!(parse_u64("+7"), Some(7));
    assert_eq!(parse_u64("007"), Some(7));
    for text in ["", "+", "-1", "1 ", "1_0", "\u{0661}"] {
        assert_eq!(parse_u64(text), None, "{text:?}");
        assert!(text.parse::<u64>().is_err());
    }
}

#[test]
fn texts_are_taken_apart() {
    assert_eq!(split_text("a;b;", ';'), ["a", "b", ""]);
    assert_eq!(split_text("", ';'), [""]);
    assert_eq!(trim_text(" \t x y\u{a0}\u{3000}"), "x y");
    assert_eq!(trim_text(" \n "), "");
    assert_eq!(strip_text_prefix("Bearer x", "Bearer "), Some("x".to_string()));
    assert_eq!(strip_text_prefix("Bear", "Bearer "), None);
    assert_eq!(strip_text_suffix("icon.png", ".png"), Some("icon".to_string()));
    assert_eq!(strip_text_suffix("icon", ".png"), None);
    assert!(ends_with_text("a.part", ".part"));
    assert!(contains_char("a;b", ';') && !contains_char("ab", ';'));
    assert!(same_text("\u{e9}", "\u{e9}") && !same_text("e", "\u{e9}"));
}

#[test]
fn texts_are_ordered_like_strings() {
    let words = ["", "a", "aa", "b", "\u{e9}", "\u{10000}", "\u{ffff}"];
    for a in words {
        for b in words {
            assert_eq!(is_text_before(a, b), a < b, "{a:?} {b:?}");
        }
    }
}

#[test]
fn paths_follow_the_rules_of_the_system() {
    assert_eq!(join_path("/a", "b"), "/a/b");
    assert_eq!(join_path("/a/", "b"), "/a/b");
    assert_eq!(join_path("", "b"), "b");
    assert_eq!(join_path("/a", "/b"), "/b");
    for path in ["/a//b/./c/", "./a", ".", "", "a/..", "/", "a/.", "//"] {
        let expected: Vec<String> = std::path::Path::new(path)
            .components()
            .map(|c| c.as_os_str().to_str().unwrap().to_string())
            .collect();
        assert_eq!(path_components(path), expected, "{path:?}");
    }
    assert!(same_path("/a/b/", "/a//b"));
    assert!(!same_path("/a/b", "a/b"));
}

#[test]
fn a_sorted_map_keeps_its_keys_in_order() {
    let mut map: SortedMap<String, u32> = SortedMap::new();
    for (i, name) in ["m", "z", "a", "m"].iter().enumerate() {
        map.insert(name.to_string(), i as u32);
    }
    assert_eq!(map.len(), 3);
    let keys: Vec<&String> = (0..map.len()).map(|i| map.key_at(i)).collect();
    assert_eq!(keys, ["a", "m", "z"]);
    assert_eq!(map.get(&"m".to_string()), Some(&3));
    assert_eq!(map.remove(&"a".to_string()), Some(2));
    assert!(!map.contains_key(&"a".to_string()));
}
