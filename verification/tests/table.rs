use sif_rs::order::{rank_text, Key, Rank};
use sif_rs::table::Table;

#[test]
fn texts_are_ranked_as_their_bytes() {
    let samples = ["", "a", "ab", "b", "B", "abc", "\u{e9}", "z", "zz", "\u{1F600}", "a b"];
    for a in samples {
        for b in samples {
            let expected = match a.cmp(b) {
                std::cmp::Ordering::Less => Rank::Before,
                std::cmp::Ordering::Equal => Rank::Same,
                std::cmp::Ordering::Greater => Rank::After,
            };
            assert_eq!(rank_text(a, b), expected, "{:?} against {:?}", a, b);
        }
    }
}

#[test]
fn pairs_are_ranked_by_first_then_second() {
    let p = |a: &str, b: &str| (a.to_string(), b.to_string());
    assert_eq!(p("a", "z").rank(&p("b", "a")), Rank::Before);
    assert_eq!(p("a", "b").rank(&p("a", "c")), Rank::Before);
    assert_eq!(p("a", "b").rank(&p("a", "b")), Rank::Same);
    assert_eq!(p("b", "a").rank(&p("a", "z")), Rank::After);
    assert_eq!(p("a", "b").copy(), p("a", "b"));
}

#[test]
fn table_keeps_the_last_value_of_a_key() {
    let mut t: Table<String, u8> = Table::new();
    assert!(t.is_empty());
    t.insert("m".to_string(), 1);
    t.insert("a".to_string(), 2);
    t.insert("z".to_string(), 3);
    t.insert("m".to_string(), 4);
    assert_eq!(t.len(), 3);
    assert!(!t.is_empty());
    assert_eq!(t.get(&"m".to_string()), Some(&4));
    assert_eq!(t.get(&"a".to_string()), Some(&2));
    assert_eq!(t.get(&"q".to_string()), None);
    assert!(t.contains_key(&"z".to_string()));
    assert!(!t.contains_key(&"".to_string()));
}

#[test]
fn table_is_walked_in_the_order_of_its_keys() {
    let mut t: Table<String, u8> = Table::new();
    for (i, k) in ["pear", "apple", "fig", "apple", "kiwi", "banana"].iter().enumerate() {
        t.insert(k.to_string(), i as u8);
    }
    let mut keys: Vec<String> = Vec::new();
    let mut i = 0;
    while i < t.len() {
        keys.push(t.entry(i).0.clone());
        i += 1;
    }
    assert_eq!(keys, vec!["apple", "banana", "fig", "kiwi", "pear"]);
    assert_eq!(t.entry(0).1, &3);
}

#[test]
fn table_of_many_keys() {
    let mut t: Table<(String, String), u32> = Table::new();
    let mut n: u32 = 0;
    while n < 500 {
        let k = (n * 7919) % 500;
        t.insert((format!("r{}", k % 20), format!("c{}", k)), k);
        n += 1;
    }
    assert_eq!(t.len(), 500);
    let mut i = 1;
    while i < t.len() {
        assert_eq!(t.entry(i - 1).0.rank(t.entry(i).0), Rank::Before);
        i += 1;
    }
    assert_eq!(t.get(&("r3".to_string(), "c123".to_string())), Some(&123));
}

#[test]
fn merged_table_prefers_the_later_value() {
    let mut a: Table<String, u8> = Table::new();
    a.insert("a".to_string(), 1);
    a.insert("c".to_string(), 3);
    a.insert("e".to_string(), 5);
    let mut b: Table<String, u8> = Table::new();
    b.insert("b".to_string(), 20);
    b.insert("c".to_string(), 30);
    b.insert("f".to_string(), 60);
    let t = Table::merge(a, b);
    assert_eq!(t.len(), 5);
    assert_eq!(t.get(&"a".to_string()), Some(&1));
    assert_eq!(t.get(&"b".to_string()), Some(&20));
    assert_eq!(t.get(&"c".to_string()), Some(&30));
    assert_eq!(t.get(&"e".to_string()), Some(&5));
    assert_eq!(t.get(&"f".to_string()), Some(&60));
    assert_eq!(t.entry(0).0, "a");
    assert_eq!(t.entry(4).0, "f");
}

#[test]
fn merging_with_the_empty_table_changes_nothing() {
    let mut a: Table<String, u8> = Table::new();
    a.insert("a".to_string(), 1);
    let t = Table::merge(Table::new(), a);
    assert_eq!(t.len(), 1);
    let u = Table::merge(t, Table::new());
    assert_eq!(u.len(), 1);
    assert_eq!(u.get(&"a".to_string()), Some(&1));
    let e: Table<String, u8> = Table::merge(Table::new(), Table::new());
    assert!(e.is_empty());
}

#[test]
fn table_from_pairs_keeps_the_last_value_of_a_key() {
    let pairs: Vec<(String, u32)> = ["d", "b", "a", "b", "c", "a", "d", "b"]
        .iter()
        .enumerate()
        .map(|(i, k)| (k.to_string(), i as u32))
        .collect();
    let t = Table::from_pairs(pairs);
    assert_eq!(t.len(), 4);
    assert_eq!(t.get(&"a".to_string()), Some(&5));
    assert_eq!(t.get(&"b".to_string()), Some(&7));
    assert_eq!(t.get(&"c".to_string()), Some(&4));
    assert_eq!(t.get(&"d".to_string()), Some(&6));
    assert_eq!(t.entry(0).0, "a");
    assert_eq!(t.entry(3).0, "d");
    let none: Table<String, u32> = Table::from_pairs(Vec::new());
    assert!(none.is_empty());
    let one = Table::from_pairs(vec![("x".to_string(), 9u32)]);
    assert_eq!(one.get(&"x".to_string()), Some(&9));
}

#[test]
fn table_from_pairs_agrees_with_insertion() {
    let mut pairs: Vec<(String, u32)> = Vec::new();
    let mut t: Table<String, u32> = Table::new();
    let mut n: u32 = 0;
    while n < 2000 {
        let k = format!("k{}", (n * 7919) % 700);
        pairs.push((k.clone(), n));
        t.insert(k, n);
        n += 1;
    }
    assert_eq!(Table::from_pairs(pairs), t);
}
