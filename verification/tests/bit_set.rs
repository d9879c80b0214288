use honeydew::bit_set::{BitIndex, BitIndexSet, FullBitIndexMap, INDICES};
use honeydew::rng::CachedRng;

#[test]
fn an_empty_set_holds_nothing() {
    let set = BitIndexSet::default();
    assert_eq!(set.len(), 0);
    for bi in BitIndex::iter_domain() {
        assert!(!set.contains(bi));
    }
    assert_eq!(set.iter().next(), None);
}

#[test]
fn a_full_set_holds_every_index() {
    let set = BitIndexSet::full();
    assert_eq!(set.len(), INDICES);
    for bi in BitIndex::iter_domain() {
        assert!(set.contains(bi));
    }
}

#[test]
fn insert_and_remove_report_whether_they_changed_the_set() {
    let mut set = BitIndexSet::default();
    assert!(set.insert(BitIndex(5)));
    assert!(!set.insert(BitIndex(5)));
    assert!(set.insert(BitIndex(64)));
    assert!(set.insert(BitIndex(127)));
    assert_eq!(set.len(), 3);
    assert!(set.contains(BitIndex(5)));
    assert!(set.contains(BitIndex(64)));
    assert!(set.contains(BitIndex(127)));
    assert!(!set.contains(BitIndex(6)));
    assert!(!set.contains(BitIndex(63)));
    assert!(set.remove(BitIndex(64)));
    assert!(!set.remove(BitIndex(64)));
    assert!(!set.contains(BitIndex(64)));
    assert_eq!(set.len(), 2);
}

#[test]
fn set_all_fills_and_clears() {
    let mut set = BitIndexSet::default();
    set.insert(BitIndex(3));
    set.set_all(true);
    assert_eq!(set, BitIndexSet::full());
    set.set_all(false);
    assert_eq!(set, BitIndexSet::default());
}

#[test]
fn the_iterator_hands_out_members_in_ascending_order() {
    let mut set = BitIndexSet::default();
    for i in [100u16, 3, 64, 63, 0, 127] {
        set.insert(BitIndex(i));
    }
    let mut iter = set.iter();
    let mut seen = vec![];
    while let Some(bi) = iter.next() {
        seen.push(bi.0);
    }
    assert_eq!(seen, vec![0, 3, 63, 64, 100, 127]);
    assert_eq!(iter.next(), None);
}

#[test]
fn the_domain_lists_every_index_in_order() {
    let all = BitIndex::iter_domain();
    assert_eq!(all.len(), 128);
    for (i, bi) in all.iter().enumerate() {
        assert_eq!(bi.0 as usize, i);
    }
}

#[test]
fn random_indices_are_valid() {
    let mut rng = CachedRng::new_seeded(7);
    for _ in 0..1000 {
        assert!(BitIndex::random(&mut rng).0 < INDICES);
    }
}

#[test]
fn a_full_map_keeps_one_value_per_index() {
    let mut map = FullBitIndexMap::new_copied(255u8);
    for bi in BitIndex::iter_domain() {
        assert_eq!(*map.get(bi), 255);
    }
    map.set(BitIndex(77), 3);
    assert_eq!(*map.get(BitIndex(77)), 3);
    assert_eq!(*map.get(BitIndex(76)), 255);
    assert_eq!(*map.get(BitIndex(78)), 255);
}

#[test]
fn a_set_can_be_made_from_a_list_of_indices() {
    let set = BitIndexSet::from_iter(vec![BitIndex(9), BitIndex(2), BitIndex(9), BitIndex(100)]);
    assert_eq!(set.len(), 3);
    assert!(set.contains(BitIndex(2)) && set.contains(BitIndex(9)) && set.contains(BitIndex(100)));
    assert_eq!(BitIndexSet::from_iter(vec![]), BitIndexSet::default());
    assert_eq!(BitIndexSet::from_iter(BitIndex::iter_domain()), BitIndexSet::full());
}
