use codecrafters_redis::state::ExpiringHashMap;

#[test]
fn a_value_set_without_expiry_is_read_back_at_any_time() {
    let mut store = ExpiringHashMap::new();
    store.set(b"k", b"v", None, 10);
    assert_eq!(store.get(b"k", 10), Some(b"v".to_vec()));
    assert_eq!(store.get(b"k", 0), Some(b"v".to_vec()));
    assert_eq!(store.get(b"k", u64::MAX), Some(b"v".to_vec()));
    assert_eq!(store.len(), 1);
}

#[test]
fn a_value_is_gone_once_its_time_has_passed() {
    let mut store = ExpiringHashMap::new();
    store.set(b"k", b"v", Some(100), 1000);
    assert_eq!(store.get(b"k", 1000), Some(b"v".to_vec()));
    assert_eq!(store.get(b"k", 1099), Some(b"v".to_vec()));
    assert_eq!(store.len(), 1);
    assert_eq!(store.get(b"k", 1200), None);
    assert_eq!(store.len(), 0);
    assert_eq!(store.cleanup_expired_keys(1200), 0);
    assert_eq!(store.get(b"k", 1000), None);
}

#[test]
fn a_value_expires_at_its_deadline_and_not_before() {
    let mut store = ExpiringHashMap::new();
    store.set(b"k", b"v", Some(5), 20);
    assert_eq!(store.get(b"k", 24), Some(b"v".to_vec()));
    assert_eq!(store.get(b"k", 25), None);
    store.set(b"now", b"v", Some(0), 7);
    assert_eq!(store.get(b"now", 7), None);
}

#[test]
fn a_read_never_gives_an_expired_value() {
    let mut store = ExpiringHashMap::new();
    for (i, ttl) in [1u64, 10, 50, 100].iter().enumerate() {
        store.set(&[i as u8], b"v", Some(*ttl), 0);
    }
    store.set(b"forever", b"v", None, 0);
    for now in [0u64, 1, 9, 10, 49, 50, 99, 100, 101] {
        let mut copy = ExpiringHashMap::new();
        for (i, ttl) in [1u64, 10, 50, 100].iter().enumerate() {
            copy.set(&[i as u8], b"v", Some(*ttl), 0);
        }
        for (i, ttl) in [1u64, 10, 50, 100].iter().enumerate() {
            let read = copy.get(&[i as u8], now);
            assert_eq!(read.is_some(), now < *ttl, "ttl {} at {}", ttl, now);
        }
    }
    assert_eq!(store.get(b"forever", 1_000_000), Some(b"v".to_vec()));
}

#[test]
fn the_last_write_wins() {
    let mut store = ExpiringHashMap::new();
    store.set(b"k", b"one", None, 0);
    store.set(b"k", b"two", Some(10), 0);
    assert_eq!(store.len(), 1);
    assert_eq!(store.get(b"k", 5), Some(b"two".to_vec()));
    store.set(b"k", b"three", None, 6);
    assert_eq!(store.get(b"k", 1000), Some(b"three".to_vec()));
    assert_eq!(store.len(), 1);
}

#[test]
fn keys_are_bytes_and_are_not_normalized() {
    let mut store = ExpiringHashMap::new();
    store.set(b"Key", b"upper", None, 0);
    store.set(b"key", b"lower", None, 0);
    store.set(b"", b"empty", None, 0);
    store.set(&[0, 255], b"binary", None, 0);
    assert_eq!(store.len(), 4);
    assert_eq!(store.get(b"Key", 0), Some(b"upper".to_vec()));
    assert_eq!(store.get(b"key", 0), Some(b"lower".to_vec()));
    assert_eq!(store.get(b"", 0), Some(b"empty".to_vec()));
    assert_eq!(store.get(&[0, 255], 0), Some(b"binary".to_vec()));
    assert_eq!(store.get(b"ke", 0), None);
    assert_eq!(store.get(b"keys", 0), None);
}

#[test]
fn an_absent_key_reads_as_nothing() {
    let mut store = ExpiringHashMap::default();
    assert_eq!(store.len(), 0);
    assert_eq!(store.get(b"nothing", 0), None);
    assert_eq!(store.len(), 0);
}

#[test]
fn a_sweep_removes_what_is_expired_and_counts_it() {
    let mut store = ExpiringHashMap::new();
    store.set(b"a", b"1", Some(10), 0);
    store.set(b"b", b"2", Some(20), 0);
    store.set(b"c", b"3", None, 0);
    store.set(b"d", b"4", Some(10), 5);
    store.set(b"e", b"5", Some(30), 0);
    assert_eq!(store.cleanup_expired_keys(9), 0);
    assert_eq!(store.len(), 5);
    assert_eq!(store.cleanup_expired_keys(15), 2);
    assert_eq!(store.len(), 3);
    assert_eq!(store.get(b"a", 0), None);
    assert_eq!(store.get(b"d", 0), None);
    assert_eq!(store.get(b"b", 15), Some(b"2".to_vec()));
    assert_eq!(store.cleanup_expired_keys(u64::MAX), 2);
    assert_eq!(store.len(), 1);
    assert_eq!(store.get(b"c", u64::MAX), Some(b"3".to_vec()));
    assert_eq!(store.cleanup_expired_keys(u64::MAX), 0);
}

#[test]
fn an_expired_key_is_gone_from_the_sweep_after_a_read() {
    let mut store = ExpiringHashMap::new();
    store.set(b"k", b"v", Some(100), 0);
    store.set(b"other", b"v", Some(100), 0);
    assert_eq!(store.get(b"k", 200), None);
    assert_eq!(store.len(), 1);
    assert_eq!(store.cleanup_expired_keys(200), 1);
    assert_eq!(store.len(), 0);
}

#[test]
fn a_deadline_beyond_the_clock_is_no_deadline() {
    assert_eq!(ExpiringHashMap::calculate_ttl(None, 5), None);
    assert_eq!(ExpiringHashMap::calculate_ttl(Some(100), 1000), Some(1100));
    assert_eq!(ExpiringHashMap::calculate_ttl(Some(0), u64::MAX), Some(u64::MAX));
    assert_eq!(ExpiringHashMap::calculate_ttl(Some(1), u64::MAX), None);
    assert_eq!(ExpiringHashMap::calculate_ttl(Some(u64::MAX), 1), None);
    let mut store = ExpiringHashMap::new();
    store.set(b"k", b"v", Some(u64::MAX), 1);
    assert_eq!(store.get(b"k", u64::MAX), Some(b"v".to_vec()));
}

#[test]
fn removing_in_the_middle_keeps_the_others() {
    let mut store = ExpiringHashMap::new();
    for i in 0..20u8 {
        let ttl = if i % 3 == 0 { Some(10) } else { None };
        store.set(&[i], &[i, i], ttl, 0);
    }
    assert_eq!(store.get(&[3], 10), None);
    assert_eq!(store.cleanup_expired_keys(10), 6);
    assert_eq!(store.len(), 13);
    for i in 0..20u8 {
        let expected = if i % 3 == 0 { None } else { Some(vec![i, i]) };
        assert_eq!(store.get(&[i], 10), expected);
    }
}
