use fried_world::cacher::Cacher;
use fried_world::time::Duration;

fn get_cacher() -> Cacher<&'static str, &'static str> {
    Cacher::new(Duration::from_millis(200), Duration::from_millis(100))
}

const MS: u128 = 1_000_000;

#[test]
fn insert_and_get_once() {
    let mut cacher = get_cacher();

    let compute_value = || "value";
    let panic = || panic!("cacher was called where it should not have been.");

    assert_eq!(*cacher.get_or_insert("key", compute_value), "value");
    assert_eq!(*cacher.get_or_insert("key", panic), "value");
    assert_eq!(cacher.get(&"key"), Some(&"value"));
}

#[test]
fn insert_multiple_values() {
    let mut cacher = get_cacher();

    let compute_value_1 = || "value1";
    let compute_value_2 = || "value2";
    let panic = || panic!("cacher was called where it should not have been.");

    assert_eq!(*cacher.get_or_insert("key1", compute_value_1), "value1");
    assert_eq!(*cacher.get_or_insert("key1", panic), "value1");
    assert_eq!(*cacher.get_or_insert("key2", compute_value_2), "value2");
    assert_eq!(*cacher.get_or_insert("key2", panic), "value2");
    assert_eq!(*cacher.get_or_insert("key1", panic), "value1");
    assert_eq!(*cacher.get_or_insert("key2", panic), "value2");
}

#[test]
fn cleanup_at_explicit_moments() {
    let mut cacher = get_cacher();
    let compute_value = || "value";
    let panic = || panic!("cacher was called where it should not have been.");

    assert_eq!(*cacher.get_or_insert_at("key1", 0, compute_value), "value");
    assert_eq!(cacher.last_clean_instant(), 0);

    // 150 ms later: a cleanup is due (interval 100 ms); key1 is still fresh.
    assert_eq!(*cacher.get_or_insert_at("key2", 150 * MS, compute_value), "value");
    assert_eq!(cacher.last_clean_instant(), 150 * MS);
    assert_eq!(cacher.get_at(&"key2", 150 * MS), Some(&"value"));
    assert_eq!(cacher.get_at(&"key1", 150 * MS), Some(&"value"));

    // 300 ms: key1 (stored at 0) is stale and the cleanup drops it.
    assert_eq!(cacher.get_at(&"key1", 300 * MS), None);
    assert_eq!(*cacher.get_or_insert_at("key2", 300 * MS, panic), "value");
    assert_eq!(cacher.last_clean_instant(), 300 * MS);
    assert_eq!(*cacher.get_or_insert_at("key1", 300 * MS, || "fresh"), "fresh");
    assert_eq!(cacher.get_at(&"key1", 301 * MS), Some(&"fresh"));
}

#[test]
fn value_expires_after_cache_duration() {
    let mut cacher = get_cacher();
    cacher.get_or_insert_at("key", 10 * MS, || "value");
    assert_eq!(cacher.get_at(&"key", 10 * MS), Some(&"value"));
    assert_eq!(cacher.get_at(&"key", 209 * MS), Some(&"value"));
    assert_eq!(cacher.get_at(&"key", 210 * MS), None);
    assert_eq!(cacher.get_at(&"missing", 10 * MS), None);
    // a moment before the value was stored counts as no time elapsed
    assert_eq!(cacher.get_at(&"key", 0), Some(&"value"));
}

#[test]
fn stale_value_is_kept_until_a_cleanup_is_due() {
    let mut cacher: Cacher<&'static str, &'static str> =
        Cacher::new(Duration::from_millis(10), Duration::from_millis(1000));
    cacher.get_or_insert_at("key", 0, || "old");
    // 50 ms: the value is stale, but no cleanup is due yet, so it is reused.
    assert_eq!(cacher.get_at(&"key", 50 * MS), None);
    assert_eq!(*cacher.get_or_insert_at("key", 50 * MS, || "new"), "old");
    assert_eq!(cacher.last_clean_instant(), 0);
    // 1000 ms: a cleanup is due; the stale value goes and a new one is made.
    assert_eq!(*cacher.get_or_insert_at("key", 1000 * MS, || "new"), "new");
    assert_eq!(cacher.last_clean_instant(), 1000 * MS);
}

#[test]
fn cleanup_drops_only_stale_values() {
    let mut cacher = get_cacher();
    cacher.get_or_insert_at("a", 0, || "1");
    cacher.get_or_insert_at("b", 50 * MS, || "2");
    cacher.get_or_insert_at("c", 100 * MS, || "3");
    cacher.cleanup_at(260 * MS);
    assert_eq!(cacher.last_clean_instant(), 260 * MS);
    assert_eq!(cacher.get_at(&"a", 100 * MS), None);
    assert_eq!(cacher.get_at(&"b", 100 * MS), None);
    assert_eq!(cacher.get_at(&"c", 100 * MS), Some(&"3"));
    cacher.cleanup_at(260 * MS);
    assert_eq!(cacher.get_at(&"c", 260 * MS), Some(&"3"));
}

#[test]
fn string_keys() {
    let mut cacher: Cacher<String, u32> = Cacher::new(Duration::from_secs(600), Duration::from_secs(1000));
    assert_eq!(*cacher.get_or_insert("index".to_string(), || 7), 7);
    assert_eq!(*cacher.get_or_insert("index".to_string(), || 8), 7);
    assert_eq!(*cacher.get_or_insert("other".to_string(), || 9), 9);
    assert_eq!(cacher.get(&"index".to_string()), Some(&7));
    assert_eq!(cacher.get(&"nothing".to_string()), None);
}

#[test]
fn durations() {
    assert_eq!(Duration::from_millis(200).as_nanos(), 200_000_000);
    assert_eq!(Duration::from_secs(600).as_nanos(), 600_000_000_000);
    assert_eq!(Duration::from_nanos(5).as_nanos(), 5);
    assert_eq!(fried_world::time::elapsed_between(10, 3), 7);
    assert_eq!(fried_world::time::elapsed_between(3, 10), 0);
}
