use unique_storage::gate::{BorrowGate, ReadTicket, WriteTicket};
use unique_storage::registry::{ErasedHandle, Registry, RegistryError};
use unique_storage::unique::Unique;

#[test]
fn unique_wraps_value_with_clear_flag() {
    let mut s: Unique<i32> = Unique::new(7);
    assert_eq!(*s.get(), 7);
    assert!(!s.is_modified());
    s.set(8);
    assert_eq!(*s.get(), 8);
    assert!(!s.is_modified());
    s.mark_modified();
    assert!(s.is_modified());
    assert!(s.consume_modified());
    assert!(!s.is_modified());
    assert_eq!(*s.get(), 8);
}

#[test]
fn gate_grants_many_readers() {
    let mut g = BorrowGate::new();
    let t1: ReadTicket = g.acquire_shared().unwrap();
    let t2: ReadTicket = g.acquire_shared().unwrap();
    let t3: ReadTicket = g.acquire_shared().unwrap();
    g.release_shared(t1);
    g.release_shared(t2);
    g.release_shared(t3);
    assert!(g.is_idle());
}

#[test]
fn gate_mutual_exclusion() {
    let mut g = BorrowGate::new();
    let r: ReadTicket = g.acquire_shared().unwrap();
    assert!(g.acquire_exclusive().is_err());
    g.release_shared(r);
    let w: WriteTicket = g.acquire_exclusive().unwrap();
    assert!(g.acquire_shared().is_err());
    assert!(g.acquire_exclusive().is_err());
    g.release_exclusive(w);
    assert!(g.is_idle());
}

#[test]
fn gate_release_restores_admission() {
    let mut g = BorrowGate::new();
    let r = g.acquire_shared().unwrap();
    assert!(g.acquire_exclusive().is_err());
    g.release_shared(r);
    let w = g.acquire_exclusive().unwrap();
    assert!(g.acquire_shared().is_err());
    g.release_exclusive(w);
    let r2 = g.acquire_shared().unwrap();
    g.release_shared(r2);
}

#[test]
fn registry_identity_stability() {
    let mut reg: Registry<i32> = Registry::new();
    let h1: ErasedHandle = reg.get_or_create(1, 10);
    let h2 = reg.get_or_create(1, 99);
    assert_eq!(h1, h2);
    let g = reg.borrow_shared(1).unwrap();
    assert_eq!(*reg.read(&g), 10);
    reg.release_shared(g);
    let h3 = reg.get_or_create(1, 123);
    assert_eq!(h1, h3);
}

#[test]
fn scenario_shared_then_exclusive_then_flag() {
    let mut reg: Registry<i32> = Registry::new();
    reg.get_or_create(7, 0);
    let g = reg.borrow_shared(7).unwrap();
    assert_eq!(*reg.read(&g), 0);
    reg.release_shared(g);
    let w = reg.borrow_exclusive(7).unwrap();
    reg.write(&w, 5);
    reg.release_exclusive(w);
    assert!(reg.is_modified(7));
    let g2 = reg.borrow_shared(7).unwrap();
    assert_eq!(*reg.read(&g2), 5);
    reg.release_shared(g2);
}

#[test]
fn scenario_double_exclusive_conflicts() {
    let mut reg: Registry<i32> = Registry::new();
    reg.get_or_create(3, 1);
    let w = reg.borrow_exclusive(3).unwrap();
    assert!(matches!(reg.borrow_exclusive(3), Err(RegistryError::BorrowConflict)));
    assert!(matches!(reg.borrow_shared(3), Err(RegistryError::BorrowConflict)));
    reg.release_exclusive(w);
}

#[test]
fn scenario_two_readers_block_writer_until_released() {
    let mut reg: Registry<i32> = Registry::new();
    reg.get_or_create(4, 2);
    let r1 = reg.borrow_shared(4).unwrap();
    let r2 = reg.borrow_shared(4).unwrap();
    assert!(matches!(reg.borrow_exclusive(4), Err(RegistryError::BorrowConflict)));
    reg.release_shared(r1);
    assert!(matches!(reg.borrow_exclusive(4), Err(RegistryError::BorrowConflict)));
    reg.release_shared(r2);
    let w = reg.borrow_exclusive(4).unwrap();
    reg.release_exclusive(w);
}

#[test]
fn scenario_distinct_keys_do_not_interfere() {
    let mut reg: Registry<i32> = Registry::new();
    let h1 = reg.get_or_create(1, 100);
    let h2 = reg.get_or_create(2, 200);
    assert_ne!(h1, h2);
    let w = reg.borrow_exclusive(1).unwrap();
    let r = reg.borrow_shared(2).unwrap();
    assert_eq!(*reg.read(&r), 200);
    assert!(matches!(reg.borrow_exclusive(1), Err(RegistryError::BorrowConflict)));
    reg.release_shared(r);
    let w3 = reg.borrow_exclusive(2).unwrap();
    reg.release_exclusive(w3);
    reg.release_exclusive(w);
    assert!(reg.is_modified(1));
    assert!(reg.is_modified(2));
}

#[test]
fn shared_only_borrows_never_set_the_flag() {
    let mut reg: Registry<i32> = Registry::new();
    reg.get_or_create(9, 1);
    let r1 = reg.borrow_shared(9).unwrap();
    let r2 = reg.borrow_shared(9).unwrap();
    reg.release_shared(r1);
    reg.release_shared(r2);
    assert!(!reg.is_modified(9));
}

#[test]
fn flag_persists_until_consumed() {
    let mut reg: Registry<i32> = Registry::new();
    reg.get_or_create(9, 1);
    let w = reg.borrow_exclusive(9).unwrap();
    reg.release_exclusive(w);
    assert!(reg.is_modified(9));
    let r = reg.borrow_shared(9).unwrap();
    reg.release_shared(r);
    assert!(reg.is_modified(9));
    assert!(reg.consume_modified(9));
    assert!(!reg.is_modified(9));
    assert!(!reg.consume_modified(9));
}

#[test]
fn absent_storage_is_reported() {
    let mut reg: Registry<i32> = Registry::new();
    assert!(!reg.contains(5));
    assert!(matches!(reg.borrow_shared(5), Err(RegistryError::StorageAbsent)));
    assert!(matches!(reg.borrow_exclusive(5), Err(RegistryError::StorageAbsent)));
    assert_eq!(reg.remove(5), Ok(false));
}

#[test]
fn remove_needs_exclusive_access_to_the_slot() {
    let mut reg: Registry<i32> = Registry::new();
    let h1 = reg.get_or_create(6, 42);
    let r = reg.borrow_shared(6).unwrap();
    assert_eq!(reg.remove(6), Err(RegistryError::BorrowConflict));
    reg.release_shared(r);
    assert_eq!(reg.remove(6), Ok(true));
    assert!(!reg.contains(6));
    assert!(matches!(reg.borrow_shared(6), Err(RegistryError::StorageAbsent)));
    let h2 = reg.get_or_create(6, 43);
    assert_ne!(h1, h2);
    let g = reg.borrow_shared(6).unwrap();
    assert_eq!(*reg.read(&g), 43);
    reg.release_shared(g);
}

#[test]
fn registry_holds_distinct_values_per_key() {
    let mut reg: Registry<String> = Registry::new();
    reg.get_or_create(1, String::from("alpha"));
    reg.get_or_create(2, String::from("beta"));
    let g1 = reg.borrow_shared(1).unwrap();
    let g2 = reg.borrow_shared(2).unwrap();
    assert_eq!(reg.read(&g1), "alpha");
    assert_eq!(reg.read(&g2), "beta");
    assert_eq!(g1.key(), 1);
    assert_eq!(g2.key(), 2);
    reg.release_shared(g1);
    reg.release_shared(g2);
}
