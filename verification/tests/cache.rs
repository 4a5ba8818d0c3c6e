use chess_search::moves::Move;
use chess_search::table::{power_of_two, Entry, TranspositionTable};

fn entry(score: i32, depth: i8) -> Entry {
    Entry { best: Move { source: 12, dest: 28, promotion: None }, score, depth }
}

#[test]
fn sizes_that_are_powers_of_two() {
    for size in [1usize, 2, 4, 8, 1024, 65536, 524288] {
        assert!(power_of_two(size), "{}", size);
    }
    for size in [0usize, 3, 5, 6, 7, 12, 1000, 65535, 524289] {
        assert!(!power_of_two(size), "{}", size);
    }
}

#[test]
fn a_table_needs_a_power_of_two() {
    assert!(TranspositionTable::new(0).is_none());
    assert!(TranspositionTable::new(3).is_none());
    assert!(TranspositionTable::new(100).is_none());
    assert!(TranspositionTable::new(1).is_some());
    assert!(TranspositionTable::new(8).is_some());
}

#[test]
fn a_new_table_is_blank() {
    let table = TranspositionTable::new(8).unwrap();
    for key in 1u64..100 {
        assert_eq!(table.get(key), None);
    }
    // Every slot is written under the identity 0, so 0 finds the blank entry.
    assert_eq!(table.get(0), Some(Entry { best: Move::none(), score: 0, depth: 0 }));
}

#[test]
fn what_is_put_is_found() {
    let mut table = TranspositionTable::new(8).unwrap();
    table.put(13, entry(77, 3));
    assert_eq!(table.get(13), Some(entry(77, 3)));
    table.put(13, entry(-5, 4));
    assert_eq!(table.get(13), Some(entry(-5, 4)));
}

#[test]
fn identities_in_one_slot_evict_each_other() {
    let mut table = TranspositionTable::new(8).unwrap();
    table.put(1, entry(10, 1));
    table.put(9, entry(20, 2));
    assert_eq!(table.get(9), Some(entry(20, 2)));
    assert_eq!(table.get(1), None);
    assert_eq!(table.get(17), None);
}

#[test]
fn identities_in_other_slots_stay() {
    let mut table = TranspositionTable::new(8).unwrap();
    for key in 8u64..16 {
        table.put(key, entry(key as i32, 1));
    }
    for key in 8u64..16 {
        assert_eq!(table.get(key), Some(entry(key as i32, 1)));
    }
    table.put(u64::MAX, entry(-1, 9));
    assert_eq!(table.get(u64::MAX), Some(entry(-1, 9)));
    assert_eq!(table.get(15), None);
    assert_eq!(table.get(14), Some(entry(14, 1)));
}

#[test]
fn a_table_of_one_slot_keeps_the_last_entry() {
    let mut table = TranspositionTable::new(1).unwrap();
    table.put(5, entry(1, 1));
    table.put(6, entry(2, 2));
    assert_eq!(table.get(5), None);
    assert_eq!(table.get(6), Some(entry(2, 2)));
}
