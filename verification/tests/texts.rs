use repo_debug::hash::{hash_bytes, hash_text, hash_texts};
use repo_debug::maps::{sorted_set, TextMap, TextSet};
use repo_debug::text;
use std::collections::hash_map::DefaultHasher;
use std::hash::{Hash, Hasher};

fn names(list: &[&str]) -> Vec<String> {
    list.iter().map(|s| s.to_string()).collect()
}

#[test]
fn texts_are_trimmed_like_strings() {
    for s in ["", " ", "\u{feff}x ", "\u{3000}a b\u{2003}\n", "\t\r\n", "x\u{a0}", "\u{85}y"] {
        assert_eq!(text::trim(s), s.trim());
        assert_eq!(text::trim_start(s), s.trim_start());
    }
    assert_eq!(text::indent_of("\t  x "), "\t  ");
    assert_eq!(text::trim_char("\"\"a\"b\"", '"'), "a\"b");
    assert_eq!(text::trim_prefixes("ababc", "ab"), "c");
}

#[test]
fn texts_are_taken_apart_like_strings() {
    for s in ["", "a", "a;b", ";", "a;;b;", "\r\n", "a\nb\r\nc", "a\r\n\r\n", "x\r"] {
        assert_eq!(text::split(s, ';'), s.split(';').collect::<Vec<_>>());
        assert_eq!(text::lines(s), s.lines().collect::<Vec<_>>());
        assert_eq!(
            text::split_once(s, ';'),
            s.split_once(';').map(|(a, b)| (a.to_string(), b.to_string()))
        );
    }
    assert_eq!(text::after_last("a/b/c", '/'), "c");
    assert_eq!(text::after_last("abc", '/'), "abc");
    assert_eq!(text::strip_prefix("abc", "ab").unwrap(), "c");
    assert!(text::strip_prefix("abc", "b").is_none());
    assert_eq!(text::strip_suffix("abc", "bc").unwrap(), "a");
    assert!(text::strip_suffix("abc", "abcd").is_none());
}

#[test]
fn texts_are_searched_and_replaced_like_strings() {
    for (s, part) in [("", ""), ("abc", ""), ("aaa", "aa"), ("abcabc", "bc"), ("x", "xyz")] {
        assert_eq!(text::contains(s, part), s.contains(part));
        assert_eq!(text::starts_with(s, part), s.starts_with(part));
        assert_eq!(text::ends_with(s, part), s.ends_with(part));
        assert_eq!(text::replace(s, part, "<>"), s.replace(part, "<>"));
    }
    assert_eq!(text::join(&names(&["a", "", "b"]), ", "), "a, , b");
    assert_eq!(text::decimal(0), "0");
    assert_eq!(text::decimal(120), "120");
}

#[test]
fn letter_case_is_changed_like_in_strings() {
    assert_eq!(text::to_ascii_lowercase("ÄBc"), "ÄBc".to_ascii_lowercase());
    assert!(text::eq_ignore_ascii_case("Path", "PATH"));
    assert!(!text::eq_ignore_ascii_case("ä", "Ä"));
    assert!(text::comes_before("a", "ab"));
    assert!(text::comes_before("B", "a"));
    assert!(!text::comes_before("a", "a"));
}

#[test]
fn hashes_are_those_of_the_default_hasher() {
    let mut hasher = DefaultHasher::new();
    "conanfile".hash(&mut hasher);
    assert_eq!(hash_text("conanfile"), hasher.finish());
    "x".hash(&mut hasher);
    assert_eq!(hash_texts(&names(&["conanfile", "x"])), hasher.finish());
    let mut bytes = DefaultHasher::new();
    bytes.write(b"abc");
    assert_eq!(hash_bytes(&b"abc".to_vec()), bytes.finish());
    assert_ne!(hash_texts(&names(&["ab", "c"])), hash_texts(&names(&["a", "bc"])));
}

#[test]
fn maps_keep_their_keys_in_order() {
    let mut map: TextMap<String> = TextMap::new();
    for name in ["b", "a", "c", "b"] {
        map.insert(name.to_string(), format!("{name}{}", map.len()));
    }
    assert_eq!(map.key_list(), vec!["a", "b", "c"]);
    assert_eq!(map.get("b").unwrap(), "b3");
    assert_eq!(map.key_at(2), "c");
    assert_eq!(map.value_at(0), "a1");
    assert_eq!(map.find("c"), Some(2));
    assert!(!map.contains_key("d"));
    assert_eq!(map.remove("a").unwrap(), "a1");
    assert!(map.remove("a").is_none());
    assert_eq!(map.len(), 2);
    assert_eq!(sorted_set(&names(&["b", "a", "b"])), vec!["a", "b"]);
}

#[test]
fn sets_hold_no_text_twice() {
    let mut set = TextSet::new();
    set.insert("b".to_string());
    set.insert("a".to_string());
    set.insert("b".to_string());
    assert_eq!(set.items().len(), 2);
    assert!(set.contains("a"));
    assert!(!set.contains("c"));
}

#[test]
fn occurrences_are_counted_at_every_place() {
    assert_eq!(text::count("aaaa", "aa"), 3);
    assert_eq!(text::count("<a><b/></a>", "<"), 3);
    assert_eq!(text::count("abc", "x"), 0);
    assert_eq!(text::count("ab", "abc"), 0);
}
