use fakehub::cache::TtlCache;

fn k(s: &str) -> String {
    s.to_string()
}

#[test]
fn ttl_round_trip_and_expiry() {
    let mut c: TtlCache<String> = TtlCache::new(4, 1000);
    c.insert(k("a"), k("v"), 5000);
    assert_eq!(c.lookup(&k("a"), 5000), Some(&k("v")));
    assert_eq!(c.lookup(&k("a"), 5999), Some(&k("v")));
    assert_eq!(c.lookup(&k("a"), 6000), None);
    assert_eq!(c.len(), 1);
}

#[test]
fn capacity_evicts_oldest() {
    let mut c: TtlCache<u64> = TtlCache::new(2, 1000);
    c.insert(k("a"), 1, 0);
    c.insert(k("b"), 2, 1);
    c.insert(k("c"), 3, 2);
    assert_eq!(c.len(), 2);
    assert_eq!(c.lookup(&k("a"), 3), None);
    assert_eq!(c.lookup(&k("b"), 3), Some(&2));
    assert_eq!(c.lookup(&k("c"), 3), Some(&3));
}

#[test]
fn refresh_moves_entry_to_back_of_queue() {
    let mut c: TtlCache<u64> = TtlCache::new(2, 1000);
    c.insert(k("a"), 1, 0);
    c.insert(k("b"), 2, 1);
    c.touch(&k("a"), 2);
    c.insert(k("c"), 3, 3);
    assert_eq!(c.len(), 2);
    assert_eq!(c.lookup(&k("a"), 4), Some(&1));
    assert_eq!(c.lookup(&k("b"), 4), None);
    assert_eq!(c.lookup(&k("c"), 4), Some(&3));
}

#[test]
fn refresh_extends_freshness() {
    let mut c: TtlCache<u64> = TtlCache::new(2, 100);
    c.insert(k("a"), 1, 0);
    c.touch(&k("a"), 90);
    assert_eq!(c.lookup(&k("a"), 150), Some(&1));
    assert_eq!(c.lookup(&k("a"), 190), None);
}

#[test]
fn racing_inserts_leave_one_entry() {
    let mut c: TtlCache<String> = TtlCache::new(2, 1000);
    c.insert(k("model:/r"), k("first"), 10);
    c.insert(k("model:/r"), k("second"), 11);
    assert_eq!(c.len(), 1);
    assert_eq!(c.lookup(&k("model:/r"), 12), Some(&k("second")));
}

#[test]
fn capacity_never_exceeded_over_many_inserts() {
    let mut c: TtlCache<u64> = TtlCache::new(3, 1000);
    for i in 0..50u64 {
        c.insert(format!("k{}", i % 7), i, i);
        assert!(c.len() <= 3);
    }
}

#[test]
fn zero_capacity_keeps_latest_only() {
    let mut c: TtlCache<u64> = TtlCache::new(0, 1000);
    c.insert(k("a"), 1, 0);
    c.insert(k("b"), 2, 1);
    assert_eq!(c.len(), 1);
    assert_eq!(c.lookup(&k("b"), 2), Some(&2));
}

#[test]
fn zero_ttl_never_fresh() {
    let mut c: TtlCache<u64> = TtlCache::new(2, 0);
    c.insert(k("a"), 1, 0);
    assert_eq!(c.lookup(&k("a"), 0), None);
}
