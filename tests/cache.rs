use election_core::cache::CachedValue;

#[test]
fn cached_value_hit_and_expiry() {
    let mut cached: CachedValue<u32> = CachedValue::new(2, 100);
    assert_eq!(cached.get_value(100), None);
    cached.with_value(3, 100);
    assert_eq!(cached.get_value(101), Some(&3));
    assert_eq!(cached.get_value(102), None);
    cached.with_value(5, 102);
    assert_eq!(cached.get_value(103), Some(&5));
    assert_eq!(cached.duration_seconds(), 2);
}

#[test]
fn cached_value_clock_going_back_counts_as_no_time() {
    let mut cached: CachedValue<u32> = CachedValue::new(1, 50);
    cached.with_value(9, 50);
    assert_eq!(cached.get_value(10), Some(&9));
}

#[test]
fn zero_duration_never_hits() {
    let mut cached: CachedValue<u32> = CachedValue::new(0, 0);
    cached.with_value(1, 0);
    assert_eq!(cached.get_value(0), None);
}
