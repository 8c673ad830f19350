use localpost::lex::str_lt;
use localpost::table::StrMap;

fn keys_of<V>(m: &StrMap<V>) -> Vec<String> {
    let mut out = Vec::new();
    for i in 0..m.len() {
        out.push(m.key_at(i).clone());
    }
    out
}

#[test]
fn lexicographic_order_of_strings() {
    assert!(str_lt("apple", "banana"));
    assert!(!str_lt("banana", "apple"));
    assert!(str_lt("ab", "abc"));
    assert!(!str_lt("abc", "ab"));
    assert!(!str_lt("same", "same"));
    assert!(str_lt("", "a"));
    assert!(!str_lt("", ""));
    // Code-point order agrees with the byte order of `String`.
    assert!(str_lt("z", "\u{e9}"));
    assert_eq!(str_lt("z", "\u{e9}"), "z" < "\u{e9}");
    assert_eq!(str_lt("Zebra", "apple"), "Zebra" < "apple");
}

#[test]
fn map_keeps_keys_in_order() {
    let mut m: StrMap<u32> = StrMap::new();
    m.insert("b".to_string(), 2);
    m.insert("a".to_string(), 1);
    m.insert("c".to_string(), 3);
    assert_eq!(keys_of(&m), vec!["a", "b", "c"]);
    assert_eq!(*m.value_at(0), 1);
    assert_eq!(*m.value_at(2), 3);
}

#[test]
fn map_insert_overwrites() {
    let mut m: StrMap<u32> = StrMap::new();
    m.insert("k".to_string(), 1);
    m.insert("k".to_string(), 7);
    assert_eq!(m.len(), 1);
    assert_eq!(m.get("k"), Some(&7));
}

#[test]
fn map_get_and_contains() {
    let mut m: StrMap<u32> = StrMap::new();
    assert!(m.is_empty());
    assert_eq!(m.get("x"), None);
    m.insert("x".to_string(), 5);
    assert!(!m.is_empty());
    assert!(m.contains_key("x"));
    assert!(!m.contains_key("y"));
    assert_eq!(m.get("x"), Some(&5));
}

#[test]
fn map_remove_and_clear() {
    let mut m: StrMap<u32> = StrMap::new();
    m.insert("a".to_string(), 1);
    m.insert("b".to_string(), 2);
    m.insert("c".to_string(), 3);
    assert!(m.remove("b"));
    assert!(!m.remove("b"));
    assert_eq!(keys_of(&m), vec!["a", "c"]);
    m.clear();
    assert!(m.is_empty());
    assert_eq!(m.len(), 0);
}

#[test]
fn file_table_copy_is_equal() {
    let mut m: StrMap<(String, usize)> = StrMap::new();
    m.insert("k1".to_string(), ("/tmp/a".to_string(), 3));
    m.insert("k0".to_string(), ("/tmp/b".to_string(), 1));
    let c = m.clone_table();
    assert_eq!(keys_of(&c), vec!["k0", "k1"]);
    assert_eq!(c.get("k1"), Some(&("/tmp/a".to_string(), 3)));
    assert_eq!(c.get("k0"), Some(&("/tmp/b".to_string(), 1)));
}
