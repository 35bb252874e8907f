//! Scenario tests for the cache store and the population protocol, driving
//! the producers' steps in the interleavings the protocol must survive.

use stream_cache::StreamCache;

/// The delayed-fetch race: the stream delivers its items first, then the
/// bulk snapshot resolves carrying a stale value for a key the stream has
/// already touched. The stream's later value must win; the bulk value may
/// only fill the remaining gap.
#[test]
fn works() {
    let mut cache = StreamCache::new();

    cache.apply_stream_item(Ok(("London".to_string(), 27)));
    cache.apply_stream_item(Ok(("Seoul".to_string(), 32)));
    let report = cache.apply_fetch_result(Ok(vec![
        ("Rabat".to_string(), 29),
        ("Seoul".to_string(), 31),
    ]));

    assert_eq!(report, None);
    assert_eq!(cache.get("Rabat"), Some(29));
    assert_eq!(cache.get("London"), Some(27));
    assert_eq!(cache.get("Seoul"), Some(32));
}

/// A failed bulk fetch is terminal for the bulk loader only: the stream's
/// data stays visible, other keys stay absent, and no error reaches `get`.
#[test]
fn fetch_error_keeps_stream_data() {
    let mut cache = StreamCache::new();

    cache.apply_stream_item(Ok(("Oslo".to_string(), 10)));
    let report = cache.apply_fetch_result(Err("connection reset".to_string()));

    assert_eq!(report, Some("connection reset".to_string()));
    assert_eq!(cache.get("Oslo"), Some(10));
    assert_eq!(cache.get("Rabat"), None);
}

/// A malformed stream item is discarded silently: it has no visible effect
/// and does not stop later items from being applied.
#[test]
fn stream_error_item_is_skipped() {
    let mut cache = StreamCache::new();

    cache.apply_stream_item(Err("garbled frame".to_string()));
    cache.apply_stream_item(Ok(("Kyoto".to_string(), 18)));

    assert_eq!(cache.get("Kyoto"), Some(18));
    assert_eq!(cache.get("garbled frame"), None);
}

/// A key no producer ever touched reads as absent, not as an error.
#[test]
fn untouched_key_is_absent() {
    let cache = StreamCache::new();
    assert_eq!(cache.get("Rabat"), None);
    assert_eq!(cache.get(""), None);
}

/// A key touched only by the bulk loader carries exactly the bulk value.
#[test]
fn bulk_only_key_gets_bulk_value() {
    let mut cache = StreamCache::new();
    let report = cache.apply_fetch_result(Ok(vec![("Rabat".to_string(), 29)]));
    assert_eq!(report, None);
    assert_eq!(cache.get("Rabat"), Some(29));
}

/// A key touched only by the stream merger carries the most recently
/// applied stream value.
#[test]
fn stream_only_key_gets_latest_value() {
    let mut cache = StreamCache::new();
    cache.apply_stream_item(Ok(("Seoul".to_string(), 30)));
    cache.apply_stream_item(Ok(("Seoul".to_string(), 31)));
    cache.apply_stream_item(Ok(("Seoul".to_string(), 32)));
    assert_eq!(cache.get("Seoul"), Some(32));
}

/// Last write wins: updating one key twice keeps only the later value.
#[test]
fn update_twice_keeps_latest() {
    let mut cache = StreamCache::new();
    cache.apply_update("London".to_string(), 1);
    cache.apply_update("London".to_string(), 2);
    assert_eq!(cache.get("London"), Some(2));
}

/// A bulk entry for a key that is already present is a no-op for that key.
#[test]
fn bulk_is_noop_for_present_key() {
    let mut cache = StreamCache::new();
    cache.apply_update("Seoul".to_string(), 32);
    cache.apply_bulk(vec![("Seoul".to_string(), 31)]);
    assert_eq!(cache.get("Seoul"), Some(32));
}

/// Within one snapshot the first occurrence of a duplicated key wins: once
/// it is inserted, the key is present and later occurrences only fill gaps
/// that no longer exist.
#[test]
fn bulk_duplicate_key_first_occurrence_wins() {
    let mut cache = StreamCache::new();
    cache.apply_bulk(vec![("Rabat".to_string(), 29), ("Rabat".to_string(), 7)]);
    assert_eq!(cache.get("Rabat"), Some(29));
}

/// An empty snapshot changes nothing.
#[test]
fn empty_bulk_is_noop() {
    let mut cache = StreamCache::new();
    cache.apply_update("Oslo".to_string(), 10);
    cache.apply_bulk(Vec::new());
    assert_eq!(cache.get("Oslo"), Some(10));
    assert_eq!(cache.get("Rabat"), None);
}

/// `insert_if_absent` seeds a missing key and leaves a present one alone.
#[test]
fn insert_if_absent_only_fills_gaps() {
    let mut cache = StreamCache::new();
    cache.insert_if_absent("Kyoto".to_string(), 18);
    assert_eq!(cache.get("Kyoto"), Some(18));
    cache.insert_if_absent("Kyoto".to_string(), 99);
    assert_eq!(cache.get("Kyoto"), Some(18));
}

/// The store holds the full value range, including the extremes.
#[test]
fn extreme_values_round_trip() {
    let mut cache = StreamCache::new();
    cache.apply_update("min".to_string(), 0);
    cache.apply_update("max".to_string(), u64::MAX);
    assert_eq!(cache.get("min"), Some(0));
    assert_eq!(cache.get("max"), Some(u64::MAX));
}

/// A fetch that resolves before the stream touches anything seeds every
/// key, and later stream updates still overwrite the seeded values.
#[test]
fn bulk_first_then_stream_overwrites() {
    let mut cache = StreamCache::new();
    let report = cache.apply_fetch_result(Ok(vec![
        ("Rabat".to_string(), 29),
        ("Seoul".to_string(), 31),
    ]));
    assert_eq!(report, None);
    assert_eq!(cache.get("Seoul"), Some(31));
    cache.apply_stream_item(Ok(("Seoul".to_string(), 32)));
    assert_eq!(cache.get("Seoul"), Some(32));
    assert_eq!(cache.get("Rabat"), Some(29));
}
