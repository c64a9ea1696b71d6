use freight::data::{img_key_string, parse_img_by_name, version_from_file, DataStore};
use freight::metrics::Metrics;

#[test]
fn version_from_four_bytes_is_big_endian() {
    assert_eq!(version_from_file(Some(&[0, 0, 1, 0])), 256);
    assert_eq!(version_from_file(Some(&[0xFF, 0xFF, 0xFF, 0xFE, 9])), -2);
}

#[test]
fn version_from_short_text_is_parsed() {
    assert_eq!(version_from_file(Some(b"42")), 42);
    assert_eq!(version_from_file(Some(b" 7\n")), 7);
    assert_eq!(version_from_file(Some(b"-5")), -5);
    assert_eq!(version_from_file(Some(b"+1")), 1);
    assert_eq!(version_from_file(Some("\u{a0}5".as_bytes())), 5);
}

#[test]
fn version_defaults_to_zero() {
    assert_eq!(version_from_file(None), 0);
    assert_eq!(version_from_file(Some(b"")), 0);
    assert_eq!(version_from_file(Some(b"x")), 0);
    assert_eq!(version_from_file(Some(b"1 2")), 0);
    assert_eq!(version_from_file(Some(&[0xFF])), 0);
}

#[test]
fn image_file_names_split_into_name_and_frame() {
    assert_eq!(parse_img_by_name("mount_0_3.png"), Some(("mount_0".to_string(), 3)));
    assert_eq!(parse_img_by_name("a_-5.png"), Some(("a".to_string(), -5)));
    assert_eq!(parse_img_by_name("_1.png"), Some(("".to_string(), 1)));
    assert_eq!(parse_img_by_name("a_200.png"), None);
    assert_eq!(parse_img_by_name("a_b.png"), None);
    assert_eq!(parse_img_by_name("noframe.png"), None);
    assert_eq!(parse_img_by_name("a_1.jpg"), None);
    assert_eq!(parse_img_by_name(".png"), None);
    assert_eq!(img_key_string(2, "mount_0"), "2:mount_0");
}

#[test]
fn image_index_by_zoom_and_name() {
    let mut store = DataStore::new(0);
    assert!(store.index_img_by_name(2, "mount_0_3.png", "./data/x2/img/mount_0_3.png".to_string()));
    assert!(!store.index_img_by_name(2, "broken.png", "./data/x2/img/broken.png".to_string()));
    let e = store.lookup_img_by_name(2, "mount_0").unwrap();
    assert_eq!(e.frame, 3);
    assert_eq!(e.path, "./data/x2/img/mount_0_3.png");
    assert!(store.lookup_img_by_name(1, "mount_0").is_none());
}

#[test]
fn cache_hits_and_misses() {
    let mut store = DataStore::new(0);
    let mut m = Metrics::new_at(0);
    assert_eq!(store.lookup("a", 1, &mut m), None);
    assert_eq!(m.cache_misses, 1);
    let evicted = store.store_loaded("a", &[1, 2, 3], 2, &mut m);
    assert!(evicted.is_empty());
    assert_eq!(m.cache_bytes, 3);
    assert_eq!(m.cache_entries, 1);
    assert_eq!(store.lookup("a", 3, &mut m), Some(vec![1, 2, 3]));
    assert_eq!(m.cache_hits, 1);
    assert_eq!(store.cache_size(), 1);
}

#[test]
fn least_recently_used_entry_is_evicted_first() {
    let mut store = DataStore::new(10);
    let mut m = Metrics::new_at(0);
    store.store_loaded("a", &[1, 2, 3, 4], 1, &mut m);
    store.store_loaded("b", &[5, 6, 7, 8], 2, &mut m);
    assert_eq!(m.cache_bytes, 8);
    // "a" is used again, so "b" becomes the oldest
    assert!(store.lookup("a", 3, &mut m).is_some());
    let evicted = store.store_loaded("c", &[9, 9, 9, 9], 4, &mut m);
    assert_eq!(evicted, vec![("b".to_string(), 2, 4)]);
    assert_eq!(m.cache_bytes, 8);
    assert_eq!(m.cache_entries, 2);
    assert_eq!(store.cache_size(), 2);
    assert_eq!(store.lookup("b", 5, &mut m), None);
    assert_eq!(store.lookup("c", 6, &mut m), Some(vec![9, 9, 9, 9]));
}

#[test]
fn eviction_goes_on_until_enough_is_freed() {
    let mut store = DataStore::new(10);
    let mut m = Metrics::new_at(0);
    store.store_loaded("a", &[0; 3], 1, &mut m);
    store.store_loaded("b", &[0; 3], 2, &mut m);
    store.store_loaded("c", &[0; 3], 3, &mut m);
    // 9 cached + 8 incoming - 10 = 7 bytes must go: a, b, c (3 + 3 + 3)
    let evicted = store.evict_if_needed(8, &mut m);
    let names: Vec<String> = evicted.iter().map(|e| e.0.clone()).collect();
    assert_eq!(names, vec!["a", "b", "c"]);
    assert_eq!(m.cache_bytes, 0);
    assert_eq!(m.cache_entries, 0);
    assert_eq!(store.cache_size(), 0);
}

#[test]
fn no_eviction_under_the_limit() {
    let mut store = DataStore::new(10);
    let mut m = Metrics::new_at(0);
    store.store_loaded("a", &[0; 3], 1, &mut m);
    assert!(store.evict_if_needed(7, &mut m).is_empty());
    assert_eq!(store.cache_size(), 1);
}

#[test]
fn invalidate_and_clear() {
    let mut store = DataStore::new(0);
    let mut m = Metrics::new_at(0);
    store.store_loaded("a", &[1, 2], 1, &mut m);
    store.store_loaded("b", &[3], 1, &mut m);
    store.invalidate("a", &mut m);
    assert_eq!(m.cache_bytes, 1);
    assert_eq!(m.cache_entries, 1);
    store.invalidate("zzz", &mut m);
    assert_eq!(m.cache_bytes, 1);
    store.clear_cache(&mut m);
    assert_eq!(store.cache_size(), 0);
    assert_eq!(m.cache_bytes, 0);
    assert_eq!(m.cache_entries, 0);
}
