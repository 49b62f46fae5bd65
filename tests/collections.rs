use maelstrom_node::ack_table::AckTable;
use maelstrom_node::value_set::ValueSet;

fn sorted(mut v: Vec<u64>) -> Vec<u64> {
    v.sort();
    v
}

#[test]
fn value_set_holds_each_value_once() {
    let mut s = ValueSet::new();
    assert!(s.is_empty());
    s.insert(3);
    s.insert(1);
    s.insert(3);
    assert_eq!(sorted(s.to_vec()), vec![1, 3]);
    assert_eq!(s.len(), 2);
    assert!(s.contains(1));
    assert!(!s.contains(2));
}

#[test]
fn value_set_from_vec_drops_repeats() {
    let s = ValueSet::from_vec(&vec![5, 5, 6, 5]);
    assert_eq!(sorted(s.to_vec()), vec![5, 6]);
    assert!(ValueSet::from_vec(&vec![]).is_empty());
}

#[test]
fn value_set_union_and_difference() {
    let mut a = ValueSet::from_vec(&vec![1, 2, 3]);
    let b = ValueSet::from_vec(&vec![2, 4]);
    assert_eq!(sorted(a.difference(&b).to_vec()), vec![1, 3]);
    assert!(a.difference(&a.snapshot()).is_empty());
    a.extend(&b);
    assert_eq!(sorted(a.to_vec()), vec![1, 2, 3, 4]);
    assert_eq!(u64::MAX, ValueSet::from_vec(&vec![u64::MAX]).to_vec()[0]);
}

#[test]
fn ack_table_accumulates_per_peer() {
    let mut t = AckTable::new();
    assert!(t.get(&"n2".to_string()).is_none());
    t.record(&"n2".to_string(), &ValueSet::from_vec(&vec![1]));
    t.record(&"n3".to_string(), &ValueSet::from_vec(&vec![9]));
    t.record(&"n2".to_string(), &ValueSet::from_vec(&vec![2, 1]));
    assert_eq!(sorted(t.get(&"n2".to_string()).unwrap().to_vec()), vec![1, 2]);
    assert_eq!(t.get(&"n3".to_string()).unwrap().to_vec(), vec![9]);
}
