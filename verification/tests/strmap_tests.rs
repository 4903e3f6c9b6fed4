use gossip_glomers::strmap::StrMap;
use gossip_glomers::text::{clone_names, str_eq};

#[test]
fn a_new_map_is_empty() {
    let m: StrMap<u8> = StrMap::new();
    assert_eq!(m.len(), 0);
    assert!(m.get("a").is_none());
    assert!(!m.contains_key("a"));
    assert_eq!(m.position("a"), None);
}

#[test]
fn insert_adds_and_replaces() {
    let mut m: StrMap<u32> = StrMap::new();
    assert_eq!(m.insert("a".to_string(), 1), None);
    assert_eq!(m.insert("b".to_string(), 2), None);
    assert_eq!(m.insert("a".to_string(), 3), Some(1));
    assert_eq!(m.len(), 2);
    assert_eq!(m.get("a"), Some(&3));
    assert_eq!(m.get("b"), Some(&2));
    assert!(m.contains_key("b"));
}

#[test]
fn keys_keep_their_insertion_order() {
    let mut m: StrMap<u32> = StrMap::new();
    m.insert("z".to_string(), 1);
    m.insert("a".to_string(), 2);
    m.insert("z".to_string(), 3);
    m.insert("m".to_string(), 4);
    assert_eq!(m.position("z"), Some(0));
    assert_eq!(m.position("a"), Some(1));
    assert_eq!(m.position("m"), Some(2));
    assert_eq!(m.key_at(0), "z");
    assert_eq!(m.key_at(2), "m");
    assert_eq!(*m.value_at(0), 3);
    assert_eq!(*m.value_at(1), 2);
}

#[test]
fn replace_at_returns_the_old_value() {
    let mut m: StrMap<String> = StrMap::new();
    m.insert("a".to_string(), "one".to_string());
    m.insert("b".to_string(), "two".to_string());
    assert_eq!(m.replace_at(1, "three".to_string()), "two");
    assert_eq!(m.get("b").map(|s| s.as_str()), Some("three"));
    assert_eq!(m.get("a").map(|s| s.as_str()), Some("one"));
    assert_eq!(m.len(), 2);
}

#[test]
fn keys_are_compared_by_their_text() {
    let mut m: StrMap<u8> = StrMap::new();
    m.insert("node".to_string(), 1);
    assert!(m.get("nod").is_none());
    assert!(m.get("node ").is_none());
    assert!(m.get("Node").is_none());
    assert!(m.get("n\u{f6}de").is_none());
    assert_eq!(m.get("node"), Some(&1));
}

#[test]
fn str_eq_compares_text() {
    assert!(str_eq("", ""));
    assert!(str_eq("seq-kv", "seq-kv"));
    assert!(!str_eq("seq-kv", "seq-kw"));
    assert!(!str_eq("a", "ab"));
    assert!(!str_eq("ab", "a"));
    assert!(str_eq("gr\u{fc}n", "gr\u{fc}n"));
    assert!(!str_eq("gr\u{fc}n", "grun"));
}

#[test]
fn clone_names_copies_every_name() {
    let v = vec!["n1".to_string(), "".to_string(), "n3".to_string()];
    assert_eq!(clone_names(&v), v);
    assert_eq!(clone_names(&vec![]), Vec::<String>::new());
}
