use grok::strmap::StrMap;
use grok::text::{decimal_text, rank, Rank};

#[test]
fn texts_are_ranked_by_their_bytes() {
    assert_eq!(rank("a", "b"), Rank::Before);
    assert_eq!(rank("b", "a"), Rank::After);
    assert_eq!(rank("ab", "ab"), Rank::Same);
    assert_eq!(rank("", ""), Rank::Same);
    assert_eq!(rank("", "a"), Rank::Before);
    assert_eq!(rank("ab", "a"), Rank::After);
    assert_eq!(rank("Z", "a"), Rank::Before);
    assert_eq!(rank("a[1]", "a[10]"), Rank::After);
    assert_eq!(rank("z", "é"), Rank::Before);
    for (a, b) in [("x", "y"), ("abc", "abd"), ("é", "ü"), ("_n_10", "_n_9")] {
        let expected = match a.cmp(b) {
            std::cmp::Ordering::Less => Rank::Before,
            std::cmp::Ordering::Equal => Rank::Same,
            std::cmp::Ordering::Greater => Rank::After,
        };
        assert_eq!(rank(a, b), expected);
    }
}

#[test]
fn numbers_are_written_in_decimal() {
    assert_eq!(decimal_text(0), "0");
    assert_eq!(decimal_text(7), "7");
    assert_eq!(decimal_text(10), "10");
    assert_eq!(decimal_text(1023), "1023");
    assert_eq!(decimal_text(9876543210), "9876543210");
    assert_eq!(decimal_text(usize::MAX), usize::MAX.to_string());
}

#[test]
fn map_keeps_its_keys_in_order() {
    let mut map: StrMap<usize> = StrMap::new();
    assert_eq!(map.len(), 0);
    assert_eq!(map.get("a"), None);
    for (i, key) in ["m", "b", "z", "a", "q", "b"].iter().enumerate() {
        map.insert(key.to_string(), i);
    }
    assert_eq!(map.len(), 5);
    assert_eq!(map.key_list(), vec!["a", "b", "m", "q", "z"]);
    assert_eq!(map.get("b"), Some(&5));
    assert_eq!(map.get("m"), Some(&0));
    assert_eq!(map.get("c"), None);
    assert!(map.contains_key("z"));
    assert!(!map.contains_key(""));
    assert_eq!(map.key_at(2), "m");
    assert_eq!(*map.value_at(4), 2);
    let mut texts: StrMap<String> = StrMap::new();
    texts.insert("k".to_string(), "v".to_string());
    let mut copy = texts.duplicate();
    copy.insert("k".to_string(), "w".to_string());
    assert_eq!(texts.get("k").unwrap(), "v");
    assert_eq!(copy.get("k").unwrap(), "w");
}
