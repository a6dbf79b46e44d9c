use butler::util::functional::{Accumulable, FoldInto};
use butler::util::keyed::KeyedMap;

#[test]
fn lists_are_gathered_in_their_order() {
    assert_eq!(<Vec<u8> as Accumulable>::init(), Vec::<u8>::new());
    assert_eq!(Accumulable::accum(vec![1, 2], vec![3]), vec![1, 2, 3]);
    let all = vec![vec![1, 2], vec![], vec![3], vec![4, 5]].fold_into();
    assert_eq!(all, vec![1, 2, 3, 4, 5]);
    assert_eq!(Vec::<Vec<u8>>::new().fold_into(), Vec::<u8>::new());
}

#[test]
fn pairs_are_gathered_side_by_side() {
    let all = vec![(vec![1], vec!["a"]), (vec![2, 3], vec![]), (vec![], vec!["b"])].fold_into();
    assert_eq!(all, (vec![1, 2, 3], vec!["a", "b"]));
}

#[test]
fn a_keyed_map_keeps_its_keys_in_order() {
    let mut map: KeyedMap<u32> = KeyedMap::new();
    assert_eq!(map.len(), 0);
    assert_eq!(map.insert(2, b"b".to_vec(), 1), None);
    assert_eq!(map.insert(1, b"z".to_vec(), 2), None);
    assert_eq!(map.insert(2, b"a".to_vec(), 3), None);
    assert_eq!(map.insert(2, b"ab".to_vec(), 4), None);
    assert_eq!(map.insert(2, b"a".to_vec(), 5), Some(3));
    assert_eq!(map.len(), 4);
    let keys: Vec<(u128, Vec<u8>, u32)> =
        (0..map.len()).map(|i| map.entry_at(i)).map(|e| (e.major, e.minor.clone(), e.value)).collect();
    assert_eq!(
        keys,
        vec![(1, b"z".to_vec(), 2), (2, b"a".to_vec(), 5), (2, b"ab".to_vec(), 4), (2, b"b".to_vec(), 1)]
    );
    assert_eq!(map.get(2, b"ab"), Some(&4));
    assert_eq!(map.get(2, b"c"), None);
    assert!(map.contains_key(1, b"z"));
    assert!(!map.contains_key(3, b"z"));
    assert_eq!(map.remove(2, b"a"), Some(5));
    assert_eq!(map.remove(2, b"a"), None);
    assert_eq!(map.len(), 3);
    assert_eq!(map.get(2, b"b"), Some(&1));
}

#[test]
fn tuples_of_one_and_of_three_are_gathered_member_by_member() {
    let one = vec![(vec![1],), (vec![],), (vec![2, 3],)].fold_into();
    assert_eq!(one, (vec![1, 2, 3],));
    let three = vec![(vec![1], vec!["a"], vec![true]), (vec![2], vec![], vec![false, true])].fold_into();
    assert_eq!(three, (vec![1, 2], vec!["a"], vec![true, false, true]));
    assert_eq!(<(Vec<u8>, Vec<u8>, Vec<u8>) as Accumulable>::init(), (vec![], vec![], vec![]));
}
