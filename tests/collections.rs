use mu_calculus::collections::{merge_map, merge_set};
use std::collections::{HashMap, HashSet};

#[test]
fn merge_set_keeps_keys_of_both() {
    let a: HashSet<String> = ["X", "Y"].iter().map(|s| s.to_string()).collect();
    let b: HashSet<String> = ["Y", "Z"].iter().map(|s| s.to_string()).collect();
    let m = merge_set(&a, &b);
    let mut keys: Vec<&String> = m.iter().collect();
    keys.sort();
    assert_eq!(keys, vec!["X", "Y", "Z"]);
    assert!(merge_set::<u32>(&HashSet::new(), &HashSet::new()).is_empty());
}

#[test]
fn merge_map_prefers_second() {
    let mut a: HashMap<u32, &str> = HashMap::new();
    a.insert(1, "one");
    a.insert(2, "two");
    let mut b: HashMap<u32, &str> = HashMap::new();
    b.insert(2, "deux");
    b.insert(3, "trois");
    let m = merge_map(&a, &b);
    assert_eq!(m.len(), 3);
    assert_eq!(m[&1], "one");
    assert_eq!(m[&2], "deux");
    assert_eq!(m[&3], "trois");
}
