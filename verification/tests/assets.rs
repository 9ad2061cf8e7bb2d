use lobedo_core::assets::{
    get_cached_bytes, insert_cached_bytes, is_url, load_bytes, store_bytes, store_bytes_with_key, trim_cached_bytes,
    AssetLoad, ByteCacheState,
};

#[test]
fn byte_cache_evicts_oldest_entry_limit() {
    let mut state = ByteCacheState::default();
    insert_cached_bytes(&mut state, "a".to_string(), vec![1], 2, 1024);
    insert_cached_bytes(&mut state, "b".to_string(), vec![2], 2, 1024);
    insert_cached_bytes(&mut state, "c".to_string(), vec![3], 2, 1024);

    assert!(!state.contains_key("a"));
    assert!(state.contains_key("b"));
    assert!(state.contains_key("c"));
}

#[test]
fn byte_cache_get_refreshes_lru_order() {
    let mut state = ByteCacheState::default();
    insert_cached_bytes(&mut state, "a".to_string(), vec![1], 2, 1024);
    insert_cached_bytes(&mut state, "b".to_string(), vec![2], 2, 1024);

    let cached = get_cached_bytes(&mut state, "a");
    assert_eq!(cached, Some(vec![1]));

    insert_cached_bytes(&mut state, "c".to_string(), vec![3], 2, 1024);
    assert!(state.contains_key("a"));
    assert!(!state.contains_key("b"));
    assert!(state.contains_key("c"));
}

#[test]
fn byte_cache_evicts_oldest_byte_limit() {
    let mut state = ByteCacheState::default();
    insert_cached_bytes(&mut state, "a".to_string(), vec![0; 6], 8, 10);
    insert_cached_bytes(&mut state, "b".to_string(), vec![0; 6], 8, 10);

    assert!(!state.contains_key("a"));
    assert!(state.contains_key("b"));
    assert_eq!(state.total_bytes(), 6);
}

#[test]
fn byte_cache_read_gives_back_write() {
    let mut state = ByteCacheState::default();
    insert_cached_bytes(&mut state, "k".to_string(), vec![7, 8, 9], 4, 1024);
    assert_eq!(get_cached_bytes(&mut state, "k"), Some(vec![7, 8, 9]));
    assert_eq!(get_cached_bytes(&mut state, "missing"), None);
}

#[test]
fn byte_cache_replaces_same_key() {
    let mut state = ByteCacheState::default();
    insert_cached_bytes(&mut state, "k".to_string(), vec![1, 2], 4, 1024);
    insert_cached_bytes(&mut state, "k".to_string(), vec![3], 4, 1024);
    assert_eq!(state.len(), 1);
    assert_eq!(state.total_bytes(), 1);
    assert_eq!(get_cached_bytes(&mut state, "k"), Some(vec![3]));
}

#[test]
fn byte_cache_keeps_new_item_over_byte_limit() {
    let mut state = ByteCacheState::default();
    insert_cached_bytes(&mut state, "big".to_string(), vec![0; 20], 8, 10);
    assert!(state.contains_key("big"));
    assert_eq!(state.total_bytes(), 20);
}

#[test]
fn trim_spares_protected_key() {
    let mut state = ByteCacheState::default();
    insert_cached_bytes(&mut state, "a".to_string(), vec![1], 8, 1024);
    insert_cached_bytes(&mut state, "b".to_string(), vec![2], 8, 1024);
    insert_cached_bytes(&mut state, "c".to_string(), vec![3], 8, 1024);
    trim_cached_bytes(&mut state, 1, 1024, Some("a"));
    assert!(state.contains_key("a"));
    assert_eq!(state.len(), 1);
}

#[test]
fn store_bytes_names_keys() {
    let mut store = ByteCacheState::default();
    let plain = store_bytes(&mut store, 7, "  ".to_string(), vec![1]);
    assert_eq!(plain, "mem://7");
    let named = store_bytes(&mut store, 12, "mesh.glb".to_string(), vec![2]);
    assert_eq!(named, "mem://12::mesh.glb");
    assert!(store.contains_key("mem://7"));
    assert!(store.contains_key("mem://12::mesh.glb"));
}

#[test]
fn store_bytes_with_key_adds_prefix_once() {
    let mut store = ByteCacheState::default();
    assert_eq!(store_bytes_with_key(&mut store, "abc".to_string(), vec![1]), "mem://abc");
    assert_eq!(store_bytes_with_key(&mut store, "mem://xyz".to_string(), vec![2]), "mem://xyz");
    match load_bytes(&mut store, "mem://abc") {
        AssetLoad::Found(data) => assert_eq!(data, vec![1]),
        other => panic!("unexpected {:?}", other),
    }
}

#[test]
fn load_bytes_classifies_paths() {
    let mut store = ByteCacheState::default();
    assert!(matches!(load_bytes(&mut store, "mem://none"), AssetLoad::Missing));
    assert!(matches!(load_bytes(&mut store, "  HTTPS://example.org/a.glb "), AssetLoad::Remote));
    assert!(matches!(load_bytes(&mut store, "/tmp/a.glb"), AssetLoad::Missing));
}

#[test]
fn is_url_trims_and_ignores_case() {
    assert!(is_url("http://a"));
    assert!(is_url("  HtTpS://a  "));
    assert!(!is_url("ftp://a"));
    assert!(!is_url("mem://a"));
    assert!(!is_url(""));
}

#[test]
fn memory_key_restore_keeps_key() {
    let mut store = ByteCacheState::default();
    let k = store_bytes_with_key(&mut store, "pic".to_string(), vec![1]);
    let k2 = store_bytes_with_key(&mut store, k.clone(), vec![2]);
    assert_eq!(k, k2);
    match load_bytes(&mut store, &k) {
        AssetLoad::Found(data) => assert_eq!(data, vec![2]),
        other => panic!("unexpected {:?}", other),
    }
}

#[test]
fn read_marks_item_most_recent() {
    let mut state = ByteCacheState::default();
    insert_cached_bytes(&mut state, "a".to_string(), vec![1], 3, 1024);
    insert_cached_bytes(&mut state, "b".to_string(), vec![2], 3, 1024);
    insert_cached_bytes(&mut state, "c".to_string(), vec![3], 3, 1024);
    assert_eq!(get_cached_bytes(&mut state, "a"), Some(vec![1]));
    insert_cached_bytes(&mut state, "d".to_string(), vec![4], 3, 1024);
    assert!(state.contains_key("a"));
    assert!(!state.contains_key("b"));
}

#[test]
fn trim_leaves_store_within_byte_limit() {
    let mut state = ByteCacheState::default();
    insert_cached_bytes(&mut state, "a".to_string(), vec![0; 4], 8, 1024);
    insert_cached_bytes(&mut state, "b".to_string(), vec![0; 4], 8, 1024);
    insert_cached_bytes(&mut state, "c".to_string(), vec![0; 4], 8, 1024);
    trim_cached_bytes(&mut state, 8, 8, Some("a"));
    assert!(state.contains_key("a"));
    assert!(!state.contains_key("b"));
    assert!(state.contains_key("c"));
    assert_eq!(state.total_bytes(), 8);
}
