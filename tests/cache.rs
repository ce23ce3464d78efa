use parquet_viewer::range_cache::{join_ranges, ByteRange, RangeCache};

fn r(start: usize, end: usize) -> ByteRange {
    ByteRange { start, end }
}

/// Reads a range through the cache the way an object store decorator does:
/// a hit is served from the cache, a miss from `object` (and counted).
fn read(cache: &mut RangeCache, path: &String, range: ByteRange, object: &[u8], fetches: &mut usize) -> Vec<u8> {
    if let Some(b) = cache.lookup(path, range) {
        return b;
    }
    *fetches += 1;
    let fetched: Result<Vec<u8>, String> = Ok(object[range.start..range.end].to_vec());
    cache.complete_fetch(path, range, fetched).unwrap()
}

#[test]
fn new_cache_is_empty() {
    let cache = RangeCache::new();
    assert_eq!(cache.len(), 0);
    assert_eq!(cache.lookup(&"a".to_string(), r(0, 4)), None);
}

#[test]
fn repeated_read_is_identical_and_not_refetched() {
    let object: Vec<u8> = (0u8..64).collect();
    let path = "data/file.parquet".to_string();
    let mut cache = RangeCache::new();
    let mut fetches = 0;
    let first = read(&mut cache, &path, r(8, 24), &object, &mut fetches);
    assert_eq!(fetches, 1);
    let second = read(&mut cache, &path, r(8, 24), &object, &mut fetches);
    assert_eq!(fetches, 1);
    assert_eq!(first, second);
    assert_eq!(first, object[8..24].to_vec());
}

#[test]
fn keys_match_exactly() {
    let mut cache = RangeCache::new();
    let path = "p".to_string();
    cache.insert(&path, r(0, 10), vec![1; 10]);
    assert_eq!(cache.lookup(&path, r(0, 10)), Some(vec![1; 10]));
    assert_eq!(cache.lookup(&path, r(0, 9)), None);
    assert_eq!(cache.lookup(&path, r(1, 10)), None);
    assert_eq!(cache.lookup(&"q".to_string(), r(0, 10)), None);
}

#[test]
fn insert_of_same_key_replaces() {
    let mut cache = RangeCache::new();
    let path = "p".to_string();
    cache.insert(&path, r(0, 2), vec![1, 2]);
    cache.insert(&path, r(0, 2), vec![3, 4]);
    assert_eq!(cache.len(), 1);
    assert_eq!(cache.lookup(&path, r(0, 2)), Some(vec![3, 4]));
}

#[test]
fn failed_fetch_is_propagated_and_not_cached() {
    let mut cache = RangeCache::new();
    let path = "p".to_string();
    let out = cache.complete_fetch(&path, r(0, 4), Err::<Vec<u8>, String>("timeout".to_string()));
    assert_eq!(out, Err("timeout".to_string()));
    assert_eq!(cache.len(), 0);
    assert_eq!(cache.lookup(&path, r(0, 4)), None);
}

#[test]
fn five_disjoint_ranges_fetch_five_times_cold_and_none_warm() {
    let object: Vec<u8> = (0u8..100).collect();
    let path = "t.parquet".to_string();
    let ranges = vec![r(0, 10), r(10, 20), r(30, 35), r(50, 70), r(90, 100)];
    let mut cache = RangeCache::new();
    assert_eq!(cache.missing_ranges(&path, &ranges), vec![0, 1, 2, 3, 4]);

    let mut fetches = 0;
    let cold: Vec<Vec<u8>> = ranges.iter().map(|&rg| read(&mut cache, &path, rg, &object, &mut fetches)).collect();
    assert_eq!(fetches, 5);

    assert_eq!(cache.missing_ranges(&path, &ranges), Vec::<usize>::new());
    let warm: Vec<Vec<u8>> = ranges.iter().map(|&rg| read(&mut cache, &path, rg, &object, &mut fetches)).collect();
    assert_eq!(fetches, 5);
    assert_eq!(cold, warm);
    assert_eq!(warm[3], object[50..70].to_vec());
}

#[test]
fn repeated_range_in_batch_is_fetched_once() {
    let path = "t".to_string();
    let ranges = vec![r(0, 4), r(4, 8), r(0, 4)];
    let mut cache = RangeCache::new();
    cache.insert(&path, r(4, 8), vec![0; 4]);
    assert_eq!(cache.missing_ranges(&path, &ranges), vec![0]);
}

#[test]
fn join_keeps_request_order() {
    let parts: Vec<Result<Vec<u8>, String>> = vec![Ok(vec![1]), Ok(vec![2, 3]), Ok(vec![])];
    assert_eq!(join_ranges(parts), Ok(vec![vec![1], vec![2, 3], vec![]]));
}

#[test]
fn join_fails_on_first_failed_range() {
    let parts: Vec<Result<Vec<u8>, String>> =
        vec![Ok(vec![1]), Err("first".to_string()), Err("second".to_string())];
    assert_eq!(join_ranges(parts), Err("first".to_string()));
}

#[test]
fn batch_completion_caches_and_answers_in_order() {
    let path = "t".to_string();
    let ranges = vec![r(0, 2), r(2, 4), r(0, 2), r(4, 6)];
    let mut cache = RangeCache::new();
    cache.insert(&path, r(2, 4), vec![7, 7]);
    let missing = cache.missing_ranges(&path, &ranges);
    assert_eq!(missing, vec![0, 3]);
    assert!(cache.covers(&path, &ranges, &missing));
    let fetched: Vec<Result<Vec<u8>, String>> = vec![Ok(vec![1, 1]), Ok(vec![3, 3])];
    let out = cache.complete_batch(&path, &ranges, &missing, fetched);
    assert_eq!(out, Ok(vec![vec![1, 1], vec![7, 7], vec![1, 1], vec![3, 3]]));
    assert_eq!(cache.len(), 3);
}

#[test]
fn batch_completion_fails_on_first_failed_read_and_keeps_successes() {
    let path = "t".to_string();
    let ranges = vec![r(0, 2), r(2, 4), r(4, 6)];
    let mut cache = RangeCache::new();
    let missing = cache.missing_ranges(&path, &ranges);
    let fetched: Vec<Result<Vec<u8>, String>> =
        vec![Ok(vec![1]), Err("first".to_string()), Err("second".to_string())];
    assert_eq!(cache.complete_batch(&path, &ranges, &missing, fetched), Err("first".to_string()));
    assert_eq!(cache.lookup(&path, r(0, 2)), Some(vec![1]));
    assert_eq!(cache.lookup(&path, r(2, 4)), None);
    assert!(!cache.covers(&path, &ranges, &vec![]));
}
