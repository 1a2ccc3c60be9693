use rainmeter::instances::InstanceTable;

#[test]
fn install_then_retire_constructs_and_destroys_once() {
    let mut table: InstanceTable<u32> = InstanceTable::new();
    assert_eq!(table.live_instances(), 0);
    let h = table.install(7);
    assert!(table.is_live(h));
    assert_eq!(table.live_instances(), 1);
    assert_eq!(*table.borrow(h), 7);
    let state = table.retire(h);
    assert_eq!(state, 7);
    assert_eq!(table.live_instances(), 0);
    assert!(!table.is_live(h));
}

#[test]
fn handles_are_never_reused() {
    let mut table: InstanceTable<i64> = InstanceTable::new();
    let first = table.install(1);
    table.retire(first);
    let second = table.install(2);
    assert_ne!(first, second);
    assert!(!table.is_live(first));
    assert!(table.is_live(second));
}

#[test]
fn instances_are_independent() {
    let mut table: InstanceTable<i64> = InstanceTable::new();
    let a = table.install(10);
    let b = table.install(20);
    assert_eq!(table.live_instances(), 2);
    let gone = table.retire(a);
    assert_eq!(gone, 10);
    assert_eq!(*table.borrow(b), 20);
    assert_eq!(table.live_instances(), 1);
}
