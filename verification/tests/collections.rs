use charli3_oracle_core::bounded::BoundedVec;
use charli3_oracle_core::model::{rank_bytes, same_array, same_bytes, Key, Model, Rank};
use charli3_oracle_core::sorted_map::SortedMap;

fn account(byte: u8) -> [u8; 32] {
    [byte; 32]
}

#[test]
fn bounded_lists_refuse_too_many_elements() {
    let three: Result<BoundedVec<u8, 3>, Vec<u8>> = BoundedVec::try_from(vec![1, 2, 3]);
    assert_eq!(three.unwrap().into_inner(), vec![1, 2, 3]);
    let four: Result<BoundedVec<u8, 3>, Vec<u8>> = BoundedVec::try_from(vec![1, 2, 3, 4]);
    assert_eq!(four.unwrap_err(), vec![1, 2, 3, 4]);
}

#[test]
fn bounded_lists_truncate() {
    let list: BoundedVec<u8, 2> = BoundedVec::truncate_from(vec![1, 2, 3]);
    assert_eq!(list.into_inner(), vec![1, 2]);
    let short: BoundedVec<u8, 2> = BoundedVec::truncate_from(vec![9]);
    assert_eq!(short.into_inner(), vec![9]);
}

#[test]
fn bounded_lists_push_until_full() {
    let mut list: BoundedVec<u8, 2> = BoundedVec::new();
    assert_eq!(list.try_push(1), Ok(()));
    assert_eq!(list.try_push(2), Ok(()));
    assert_eq!(list.try_push(3), Err(3));
    assert_eq!(list.len(), 2);
    assert_eq!(list.get(1), Some(&2));
    assert_eq!(list.get(2), None);
    assert_eq!(list.duplicate(), list);
}

#[test]
fn byte_strings_are_in_dictionary_order() {
    assert_eq!(rank_bytes(&[1, 2], &[1, 3]), Rank::Before);
    assert_eq!(rank_bytes(&[2], &[1, 9]), Rank::After);
    assert_eq!(rank_bytes(&[1], &[1, 0]), Rank::Before);
    assert_eq!(rank_bytes(&[], &[]), Rank::Same);
    assert!(same_bytes(&[4, 5], &[4, 5]));
    assert!(!same_bytes(&[4, 5], &[4]));
    assert!(same_array(&account(3), &account(3)));
    assert!(!same_array(&account(3), &account(4)));
    assert_eq!((1u64, account(2)).rank(&(1u64, account(1))), Rank::After);
}

#[test]
fn maps_keep_one_value_per_key() {
    let mut map: SortedMap<u64, u8> = SortedMap::new();
    map.insert(7, 1);
    map.insert(3, 2);
    map.insert(7, 3);
    assert_eq!(map.len(), 2);
    assert_eq!(map.get(&7), Some(3));
    assert_eq!(map.get(&4), None);
    assert!(map.contains_key(&3));
    assert_eq!(map.iter(), vec![(3, 2), (7, 3)]);
    map.remove(&3);
    map.remove(&5);
    assert_eq!(map.iter(), vec![(7, 3)]);
}

#[test]
fn maps_list_groups_in_the_order_of_the_second_key() {
    let mut map: SortedMap<([u8; 32], [u8; 32]), u64> = SortedMap::new();
    map.insert((account(1), account(9)), 19);
    map.insert((account(2), account(1)), 21);
    map.insert((account(1), account(3)), 13);
    assert_eq!(map.iter_prefix(&account(1)), vec![(account(3), 13), (account(9), 19)]);
    assert_eq!(map.iter_prefix(&account(4)), vec![]);
    map.clear_prefix(&account(1));
    assert_eq!(map.iter(), vec![((account(2), account(1)), 21)]);
}
