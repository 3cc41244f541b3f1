use puke::machine_table::{split_fanout, MachineTable, TableError, MAX_MID};

#[test]
fn fanout_functionality() {
    assert_eq!(
        split_fanout(0b11_1111_1111_1111_1111),
        (0, 0b11_1111_1111_1111_1111)
    );
    assert_eq!(
        split_fanout(0b111_1111_1111_1111_1111),
        (0b1, 0b11_1111_1111_1111_1111)
    );
}

#[test]
fn round_trip_after_insert() {
    let mut table: MachineTable<u64> = MachineTable::default();
    let a = table.insert(70).unwrap();
    let b = table.insert(71).unwrap();
    assert_eq!(*table.get(a), 70);
    assert_eq!(*table.get(b), 71);
}

#[test]
fn existence_consistency() {
    let mut table: MachineTable<u64> = MachineTable::default();
    assert!(!table.contains_pid(0));
    assert!(!table.contains_pid(5));
    let k = table.insert(42).unwrap();
    assert!(table.contains_pid(k));
    assert!(!table.contains_pid(k + 1));
    // an identifier served by a second-level node never installed
    assert!(!table.contains_pid(262144));
    assert!(!table.contains_pid(MAX_MID - 1));
}

#[test]
fn sequential_inserts_distinct() {
    let mut table: MachineTable<u64> = MachineTable::default();
    let mut ids = Vec::new();
    for i in 0..10u64 {
        ids.push(table.insert(i).unwrap());
    }
    for i in 0..ids.len() {
        assert_eq!(ids[i], i as u64);
        for j in 0..i {
            assert_ne!(ids[i], ids[j]);
        }
    }
}

#[test]
fn capacity_boundary() {
    let mut table: MachineTable<u64> = MachineTable::with_max_mid(3);
    assert_eq!(table.insert(100), Ok(0));
    assert_eq!(table.insert(101), Ok(1));
    assert_eq!(table.insert(102), Ok(2));
    assert_eq!(table.insert(103), Err(TableError::CapacityExhausted));
    // exhaustion is stable: nothing was mutated by the refused insertion
    assert_eq!(table.insert(104), Err(TableError::CapacityExhausted));
    assert_eq!(*table.get(0), 100);
    assert_eq!(*table.get(2), 102);
}

#[test]
fn reuse_after_vacate() {
    let mut table: MachineTable<&str> = MachineTable::with_max_mid(4);
    assert_eq!(table.insert("a"), Ok(0));
    assert_eq!(table.insert("b"), Ok(1));
    assert_eq!(table.insert("c"), Ok(2));
    assert_eq!(table.insert("d"), Ok(3));
    assert_eq!(table.insert("e"), Err(TableError::CapacityExhausted));
    assert_eq!(table.vacate(1), "b");
    assert!(!table.contains_pid(1));
    table.push_free(1);
    assert_eq!(table.insert("f"), Ok(1));
    assert_eq!(*table.get(1), "f");
}

#[test]
fn reuse_without_vacate_is_rejected() {
    let mut table: MachineTable<u64> = MachineTable::default();
    assert_eq!(table.insert(7), Ok(0));
    // requeueing an identifier whose slot was never vacated breaks the
    // lifecycle contract: the insertion must refuse to overwrite
    table.push_free(0);
    assert_eq!(table.insert(8), Err(TableError::SlotOccupied));
    assert_eq!(*table.get(0), 7);
}

#[test]
fn dense_teardown_releases_all() {
    let mut table: MachineTable<u64> = MachineTable::default();
    for i in 0..5u64 {
        table.insert(10 + i).unwrap();
    }
    let released = table.teardown();
    assert_eq!(released, vec![10, 11, 12, 13, 14]);
}

#[test]
fn teardown_of_empty_table_releases_nothing() {
    let table: MachineTable<u64> = MachineTable::default();
    let released = table.teardown();
    assert!(released.is_empty());
}

#[test]
fn teardown_stops_at_a_vacated_hole() {
    let mut table: MachineTable<u64> = MachineTable::default();
    for i in 0..5u64 {
        table.insert(10 + i).unwrap();
    }
    // vacating below the high-water mark leaves a hole: the early-stop walk
    // releases only the dense prefix below it
    table.vacate(2);
    let released = table.teardown();
    assert_eq!(released, vec![10, 11]);
}

#[test]
fn second_level_node_boundary() {
    let mut table: MachineTable<u64> = MachineTable::default();
    for i in 0..262146u64 {
        assert_eq!(table.insert(i), Ok(i));
    }
    // 262143 is served by the first second-level node, 262144 by the next
    assert_eq!(*table.get(262143), 262143);
    assert_eq!(*table.get(262144), 262144);
    assert_eq!(*table.get(262145), 262145);
    assert!(table.contains_pid(262145));
    assert!(!table.contains_pid(262146));
}
