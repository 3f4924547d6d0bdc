use envsync::env_map::{Entry, EnvMap};
use envsync::order::{rank, Rank};

fn map_from(pairs: &[(&str, &str)]) -> EnvMap {
    let mut map = EnvMap::new();
    for (key, value) in pairs {
        map.insert(key.to_string(), value.to_string());
    }
    map
}

fn keys_of(map: &EnvMap) -> Vec<String> {
    map.entries().iter().map(|entry| entry.key.clone()).collect()
}

#[test]
fn new_map_is_empty() {
    let map = EnvMap::new();
    assert!(map.is_empty());
    assert_eq!(map.len(), 0);
    assert!(!map.contains_key("A"));
    assert_eq!(map.get("A"), None);
    assert!(map.entries().is_empty());
}

#[test]
fn insert_then_get() {
    let mut map = EnvMap::new();
    map.insert("A".to_string(), "1".to_string());
    assert!(!map.is_empty());
    assert_eq!(map.len(), 1);
    assert!(map.contains_key("A"));
    assert_eq!(map.get("A"), Some(&"1".to_string()));
    assert!(!map.contains_key("B"));
    assert_eq!(map.get("B"), None);
    assert!(!map.contains_key(""));
    assert!(!map.contains_key("a"));
    assert!(!map.contains_key("AA"));
}

#[test]
fn insert_replaces_the_value_of_a_name_already_there() {
    let mut map = map_from(&[("A", "1"), ("B", "2"), ("C", "3")]);
    map.insert("B".to_string(), "two".to_string());
    assert_eq!(map.len(), 3);
    assert_eq!(map.get("A"), Some(&"1".to_string()));
    assert_eq!(map.get("B"), Some(&"two".to_string()));
    assert_eq!(map.get("C"), Some(&"3".to_string()));
}

#[test]
fn entries_ascend_whatever_the_order_of_insertion() {
    let map = map_from(&[("m", "1"), ("b", "2"), ("z", "3"), ("a", "4"), ("ma", "5"), ("", "6"), ("B", "7")]);
    assert_eq!(keys_of(&map), vec!["", "B", "a", "b", "m", "ma", "z"]);
    let other = map_from(&[("B", "7"), ("", "6"), ("ma", "5"), ("a", "4"), ("z", "3"), ("b", "2"), ("m", "1")]);
    assert_eq!(map.entries(), other.entries());
    assert_eq!(
        map.entries()[1],
        Entry { key: "B".to_string(), value: "7".to_string() }
    );
}

#[test]
fn entries_are_in_the_order_of_str() {
    let names = [
        "PATH", "path", "Path", "", "A", "AA", "A_B", "AB", "a", "é", "e", "z", "Z", "鍵", "ключ", "1", "10",
        "2", " ", "A B", "\u{10FFFF}", "\u{7f}", "\u{80}", "\u{d7ff}", "\u{e000}",
    ];
    let mut map = EnvMap::new();
    for name in names {
        map.insert(name.to_string(), String::new());
    }
    let mut expected: Vec<String> = names.iter().map(|name| name.to_string()).collect();
    expected.sort();
    assert_eq!(keys_of(&map), expected);
    for name in names {
        assert!(map.contains_key(name));
    }
    assert!(!map.contains_key("absent"));
}

#[test]
fn many_insertions_keep_every_name() {
    let mut map = EnvMap::new();
    let mut step: u32 = 7;
    for _ in 0..200 {
        step = (step * 31 + 11) % 1009;
        map.insert(format!("K{}", step), format!("{}", step));
    }
    let keys = keys_of(&map);
    let mut sorted = keys.clone();
    sorted.sort();
    sorted.dedup();
    assert_eq!(keys, sorted);
    assert_eq!(map.len(), keys.len());
    for key in &keys {
        assert_eq!(map.get(key), Some(&key[1..].to_string()));
    }
}

#[test]
fn rank_orders_names_as_str_does() {
    let names = ["", "a", "A", "ab", "abc", "abd", "b", "é", "e", "z", "鍵", "ключ", "\u{10FFFF}", "a\u{0}"];
    for a in names {
        for b in names {
            let expected = if a < b {
                Rank::Before
            } else if a == b {
                Rank::Same
            } else {
                Rank::After
            };
            assert_eq!(rank(a, b), expected, "{:?} against {:?}", a, b);
        }
    }
}

#[test]
fn rank_of_a_prefix() {
    assert_eq!(rank("APP", "APP_NAME"), Rank::Before);
    assert_eq!(rank("APP_NAME", "APP"), Rank::After);
    assert_eq!(rank("APP", "APP"), Rank::Same);
    assert_eq!(rank("", ""), Rank::Same);
    assert_eq!(rank("", "A"), Rank::Before);
}

#[test]
fn without_keys_of_keeps_what_the_other_lacks() {
    let left = map_from(&[("A", "1"), ("B", "2"), ("C", "3"), ("D", "4")]);
    let right = map_from(&[("B", "other"), ("D", "4"), ("E", "5")]);
    let rest = left.without_keys_of(&right);
    assert_eq!(
        rest.entries(),
        &vec![
            Entry { key: "A".to_string(), value: "1".to_string() },
            Entry { key: "C".to_string(), value: "3".to_string() },
        ]
    );
    let none = left.without_keys_of(&left);
    assert!(none.is_empty());
    let all = left.without_keys_of(&EnvMap::new());
    assert_eq!(all.entries(), left.entries());
    let nothing = EnvMap::new().without_keys_of(&left);
    assert!(nothing.is_empty());
}
