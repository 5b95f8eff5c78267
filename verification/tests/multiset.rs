use hash_multiset::HashMultiset;
use std::collections::hash_map::RandomState;
use std::collections::HashSet;

#[test]
fn can_construct_empty_and_debug() {
    let mset = HashMultiset::<i32>::new();
    println!("{mset:?}");
}

#[test]
fn can_insert_stuff() {
    let mut mset = HashMultiset::<i32, usize>::new();
    mset.insert(1, 1);
    mset.insert(2, 42);
    mset.insert(1, 3);
    assert_eq!(mset.get(&0), None);
    assert_eq!(mset.get(&1), Some(&4));
    assert_eq!(mset.get(&2), Some(&42));
    println!("{mset:?}");
}

#[test]
fn can_remove_stuff() {
    let mut mset = HashMultiset::<i32, isize>::new();
    mset.insert(1, 1);
    mset.insert(2, 42);
    mset.insert(1, 3);
    mset.remove_all(&1);
    assert_eq!(mset.get(&0), None);
    assert_eq!(mset.get(&1), None);
    assert_eq!(mset.get(&2), Some(&42));
    println!("{mset:?}");
}

#[test]
fn len_and_cardinality() {
    let mut mset = HashMultiset::<i32, usize>::new();
    mset.insert(1, 1);
    mset.insert(2, 42);
    mset.insert(1, 3);
    assert_eq!(mset.len(), 2);
    assert_eq!(mset.cardinality(), 46);
    println!("{mset:?}");
}

fn sample() -> HashMultiset<i32, usize> {
    let mut mset = HashMultiset::<i32, usize>::new();
    mset.insert(1, 1);
    mset.insert(2, 42);
    mset.insert(1, 3);
    mset
}

#[test]
fn insert_returns_the_stored_count() {
    let mut mset = HashMultiset::<i32, usize>::new();
    assert_eq!(*mset.insert(7, 5), 5);
    assert_eq!(*mset.insert(7, 6), 11);
    assert_eq!(*mset.insert(8, 0), 0);
    assert_eq!(*mset.insert(7, 0), 11);
}

#[test]
fn repeated_inserts_add_up() {
    let mut mset = HashMultiset::<u32, u64>::new();
    let parts: [u64; 5] = [3, 0, 10, 7, 100];
    for p in parts {
        mset.insert(9, p);
    }
    assert_eq!(mset.get(&9), Some(&120));
    assert_eq!(mset.multiplicity(&9), 120);
    assert_eq!(mset.len(), 1);
}

#[test]
fn multiplicity_of_absent_item_is_zero() {
    let mset = sample();
    assert_eq!(mset.multiplicity(&0), 0);
    assert_eq!(mset.multiplicity(&1), 4);
    assert_eq!(mset.multiplicity(&2), 42);
    let empty = HashMultiset::<i32, i64>::new();
    assert_eq!(empty.multiplicity(&5), 0);
    let empty = HashMultiset::<i32, isize>::new();
    assert_eq!(empty.multiplicity(&5), 0);
    let empty = HashMultiset::<i32, i32>::new();
    assert_eq!(empty.multiplicity(&5), 0);
    let empty = HashMultiset::<i32, u32>::new();
    assert_eq!(empty.multiplicity(&5), 0);
    let empty = HashMultiset::<i32, u64>::new();
    assert_eq!(empty.multiplicity(&5), 0);
    let empty = HashMultiset::<i32, u8>::new();
    assert_eq!(empty.multiplicity(&5), 0);
    let empty = HashMultiset::<i32, u16>::new();
    assert_eq!(empty.multiplicity(&5), 0);
    let empty = HashMultiset::<i32, u128>::new();
    assert_eq!(empty.multiplicity(&5), 0);
    let empty = HashMultiset::<i32, i8>::new();
    assert_eq!(empty.multiplicity(&5), 0);
    let empty = HashMultiset::<i32, i16>::new();
    assert_eq!(empty.multiplicity(&5), 0);
    let empty = HashMultiset::<i32, i128>::new();
    assert_eq!(empty.multiplicity(&5), 0);
}

#[test]
fn remove_all_returns_the_count() {
    let mut mset = sample();
    assert_eq!(mset.remove_all(&1), Some(4));
    assert_eq!(mset.get(&1), None);
    assert_eq!(mset.get(&2), Some(&42));
    assert_eq!(mset.len(), 1);
    assert_eq!(mset.remove_all(&1), None);
    assert_eq!(mset.remove_all(&0), None);
    assert_eq!(mset.get(&2), Some(&42));
    assert_eq!(mset.len(), 1);
}

#[test]
fn remove_then_insert_restores() {
    let mut mset = sample();
    let c = mset.remove_all(&2).unwrap();
    mset.insert(2, c);
    assert_eq!(mset.get(&1), Some(&4));
    assert_eq!(mset.get(&2), Some(&42));
    assert_eq!(mset.len(), 2);
    assert_eq!(mset.cardinality(), 46);
}

#[test]
fn insert_raises_cardinality_by_the_multiplicity() {
    let mut mset = sample();
    assert_eq!(mset.cardinality(), 46);
    mset.insert(5, 10);
    assert_eq!(mset.cardinality(), 56);
    mset.insert(1, 4);
    assert_eq!(mset.cardinality(), 60);
}

#[test]
fn cardinality_of_empty_is_zero() {
    let mset = HashMultiset::<String, u64>::new();
    assert_eq!(mset.cardinality(), 0);
    assert_eq!(mset.len(), 0);
    assert!(mset.is_empty());
}

#[test]
fn cardinality_with_signed_counts() {
    let mut mset = HashMultiset::<i32, i64>::new();
    mset.insert(1, 10);
    mset.insert(2, -3);
    mset.insert(3, -7);
    mset.insert(4, 5);
    assert_eq!(mset.cardinality(), 5);
    assert_eq!(mset.len(), 4);
}

#[test]
fn zero_counts_stay() {
    let mut mset = HashMultiset::<i32, isize>::new();
    mset.insert(1, 0);
    mset.insert(2, 5);
    mset.insert(2, -5);
    assert_eq!(mset.len(), 2);
    assert_eq!(mset.get(&1), Some(&0));
    assert_eq!(mset.get(&2), Some(&0));
    assert_eq!(mset.cardinality(), 0);
    assert!(!mset.is_empty());
}

#[test]
fn retain_keeps_what_the_predicate_accepts() {
    let mut mset = sample();
    mset.insert(3, 0);
    mset.insert(4, 7);
    mset.retain(|item, count| *count > 0 && *item != 4);
    assert_eq!(mset.len(), 2);
    assert_eq!(mset.get(&1), Some(&4));
    assert_eq!(mset.get(&2), Some(&42));
    assert_eq!(mset.get(&3), None);
    assert_eq!(mset.get(&4), None);
}

#[test]
fn clear_removes_everything() {
    let mut mset = sample();
    mset.clear();
    assert!(mset.is_empty());
    assert_eq!(mset.len(), 0);
    assert_eq!(mset.get(&1), None);
}

#[test]
fn capacity_covers_the_entries() {
    let mset = HashMultiset::<i32, usize>::with_capacity(10);
    assert!(mset.capacity() >= 10);
    assert!(mset.is_empty());
    let mset = sample();
    assert!(mset.capacity() >= mset.len());
}

#[test]
fn with_hasher_starts_empty() {
    let mut mset = HashMultiset::<i32, usize, RandomState>::with_hasher(RandomState::new());
    assert!(mset.is_empty());
    mset.insert(1, 2);
    assert_eq!(mset.get(&1), Some(&2));
    let mset = HashMultiset::<i32, usize, RandomState>::with_capacity_and_hasher(
        4,
        RandomState::new(),
    );
    assert!(mset.is_empty());
    assert!(mset.capacity() >= 4);
    let mset: HashMultiset<i32, usize> = Default::default();
    assert!(mset.is_empty());
}

#[test]
fn get_key_value_gives_the_stored_item() {
    let mut mset = HashMultiset::<String, usize>::new();
    mset.insert(String::from("a"), 2);
    mset.insert(String::from("b"), 3);
    let a = String::from("a");
    assert_eq!(mset.get_key_value("a"), Some((&a, &2)));
    assert_eq!(mset.get_key_value("c"), None);
    assert_eq!(mset.get("b"), Some(&3));
    assert_eq!(mset.multiplicity("c"), 0);
    assert_eq!(mset.multiplicity("b"), 3);
    assert_eq!(mset["a"], 2);
    assert_eq!(mset.remove_all("a"), Some(2));
    assert_eq!(mset.remove_all("a"), None);
    assert_eq!(mset.get_key_value("a"), None);
    assert_eq!(mset.len(), 1);
}

#[test]
fn iteration_visits_each_entry_once() {
    let mset = sample();
    let mut pairs: Vec<(i32, usize)> = mset.iter().map(|(t, c)| (*t, *c)).collect();
    pairs.sort();
    assert_eq!(pairs, vec![(1, 4), (2, 42)]);
    let mut items: Vec<i32> = mset.items().copied().collect();
    items.sort();
    assert_eq!(items, vec![1, 2]);
    let mut counts: Vec<usize> = mset.counts().copied().collect();
    counts.sort();
    assert_eq!(counts, vec![4, 42]);
}

#[test]
fn consuming_gives_items_counts_and_set() {
    let mut items = sample().into_items();
    items.sort();
    assert_eq!(items, vec![1, 2]);
    let mut counts = sample().into_counts();
    counts.sort();
    assert_eq!(counts, vec![4, 42]);
    let set: HashSet<i32> = sample().into_set();
    assert_eq!(set.len(), 2);
    assert!(set.contains(&1));
    assert!(set.contains(&2));
    assert!(!set.contains(&0));
}

#[test]
fn equality_ignores_insertion_order() {
    let mut a = HashMultiset::<i32, usize>::new();
    a.insert(1, 4);
    a.insert(2, 42);
    let mut b = HashMultiset::<i32, usize>::new();
    b.insert(2, 42);
    b.insert(1, 1);
    assert!(a != b);
    b.insert(1, 3);
    assert!(a == b);
    b.insert(3, 0);
    assert!(a != b);
    assert!(a != HashMultiset::<i32, usize>::new());
    assert!(HashMultiset::<i32, usize>::new() == HashMultiset::<i32, usize>::new());
}

#[test]
fn index_gives_the_stored_count() {
    let mset = sample();
    assert_eq!(mset[&1], 4);
    assert_eq!(mset[&2], 42);
}

#[test]
fn clone_holds_the_same_entries() {
    let mset = sample();
    let copy = mset.clone();
    assert!(mset == copy);
}
