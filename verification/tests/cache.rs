use ui::cache::{fit_key, fit_key_params, fnv1a, text_key, FitCache, FIT_CACHE_CAP, FNV_OFFSET_BASIS};

#[test]
fn fnv1a_known_vectors() {
    assert_eq!(fnv1a(""), FNV_OFFSET_BASIS);
    assert_eq!(fnv1a("a"), 0xaf63_dc4c_8601_ec8c);
    assert_eq!(fnv1a("foobar"), 0x8594_4171_f739_67e8);
    // Hashes the UTF-8 bytes, not the characters.
    assert_eq!(fnv1a("안"), 0x646c_e81b_8f72_b5b6);
}

#[test]
fn text_key_continues_the_text_hash_over_the_style_words() {
    assert_eq!(text_key("hello", 1.2f32.to_bits(), 0.0f32.to_bits()), 0x34b6_5b95_853f_4e7e);
    assert_eq!(text_key("hi", 0x0102_0304, 0xA0B0_C0D0), 0x48b3_9608_5bd2_eb0e);
    assert_ne!(text_key("hi", 1, 2), text_key("hi", 2, 1));
    assert_ne!(text_key("hi", 0, 0), fnv1a("hi"));
}

#[test]
fn fit_keys_assemble_their_parts() {
    assert_eq!(fit_key("a", 3, 4, 5), (0xaf63_dc4c_8601_ec8c, 3, 4, 5));
    let params = fit_key_params("hi", 7, 8, 9, 0x0102_0304, 0xA0B0_C0D0);
    assert_eq!(params, (0x48b3_9608_5bd2_eb0e, 7, 8, 9));
}

#[test]
fn cache_returns_what_was_stored_for_the_same_text() {
    let mut cache: FitCache<(u32, u32)> = FitCache::new();
    let key = (1, 2, 3, 4);
    assert_eq!(cache.get(key, "hello"), None);
    cache.insert(key, "hello".to_string(), (10, 20));
    assert_eq!(cache.get(key, "hello"), Some(&(10, 20)));
    // Same key but another text (a hash collision) is a miss.
    assert_eq!(cache.get(key, "hellp"), None);
    cache.insert(key, "hello".to_string(), (11, 21));
    assert_eq!(cache.get(key, "hello"), Some(&(11, 21)));
    assert_eq!(cache.len(), 1);
}

#[test]
fn full_cache_evicts_the_oldest_key() {
    let mut cache: FitCache<usize> = FitCache::new();
    for i in 0..FIT_CACHE_CAP {
        cache.insert((i as u64, 0, 0, 0), "t".to_string(), i);
    }
    assert_eq!(cache.len(), FIT_CACHE_CAP);
    // Re-storing an existing key does not evict anything.
    cache.insert((0, 0, 0, 0), "t".to_string(), 99);
    assert_eq!(cache.len(), FIT_CACHE_CAP);
    assert_eq!(cache.get((0, 0, 0, 0), "t"), Some(&99));
    // A new key evicts the oldest entry (key 0, still oldest in order).
    cache.insert((5000, 0, 0, 0), "t".to_string(), 5000);
    assert_eq!(cache.len(), FIT_CACHE_CAP);
    assert_eq!(cache.get((0, 0, 0, 0), "t"), None);
    assert_eq!(cache.get((1, 0, 0, 0), "t"), Some(&1));
    assert_eq!(cache.get((5000, 0, 0, 0), "t"), Some(&5000));
}
