use continuation_batcher::cache::{CacheLookup, ParamsCache, ProvingKeyCache};
use std::collections::HashMap;

#[test]
fn cache_eviction_lru() {
    let mut c = ParamsCache::new(2, String::from("./params"));
    assert!(c.push(String::from("a"), vec![1]).is_none());
    assert!(c.push(String::from("b"), vec![2]).is_none());
    let (k, v) = c.push(String::from("c"), vec![3]).unwrap();
    assert_eq!(k, "a");
    assert_eq!(v, vec![1]);
    assert!(!c.contains(&String::from("a")));
    assert!(c.contains(&String::from("b")));
    assert!(c.contains(&String::from("c")));
    assert_eq!(c.cache.len(), 2);
}

#[test]
fn cache_recency_update() {
    let mut c = ParamsCache::new(2, String::from("p"));
    c.push(String::from("a"), vec![1]);
    c.push(String::from("b"), vec![2]);
    assert!(c.contains(&String::from("a")));
    let (k, _) = c.push(String::from("c"), vec![3]).unwrap();
    assert_eq!(k, "b");
}

#[test]
fn params_cache_disk_protocol() {
    let mut disk: HashMap<String, Vec<u8>> = HashMap::new();
    let mut c = ParamsCache::new(5, String::from("./params"));
    match c.generate_k_params(10) {
        CacheLookup::Miss(path) => {
            assert_eq!(path, "./params/K10.params");
            assert!(!disk.contains_key(&path));
            let blob = vec![7u8; 8];
            disk.insert(path.clone(), blob.clone());
            c.push(path, blob);
        }
        CacheLookup::Hit(_) => panic!("fresh cache cannot hit"),
    }
    match c.generate_k_params(10) {
        CacheLookup::Hit(blob) => assert_eq!(blob, vec![7u8; 8]),
        CacheLookup::Miss(_) => panic!("second request must be served from memory"),
    }
    let mut c2 = ParamsCache::new(5, String::from("./params"));
    match c2.generate_k_params(10) {
        CacheLookup::Miss(path) => {
            let blob = disk
                .get(&path)
                .expect("a later run must load from disk, not rebuild")
                .clone();
            c2.push(path, blob);
        }
        CacheLookup::Hit(_) => panic!("a fresh process starts with an empty memory cache"),
    }
    match c2.generate_k_params(10) {
        CacheLookup::Hit(blob) => assert_eq!(blob, vec![7u8; 8]),
        CacheLookup::Miss(_) => panic!(),
    }
}

#[test]
fn evicted_key_forces_rebuild() {
    let mut c = ParamsCache::new(1, String::from("d"));
    match c.generate_k_params(10) {
        CacheLookup::Miss(path) => {
            c.push(path, vec![1]);
        }
        _ => panic!(),
    }
    match c.generate_k_params(11) {
        CacheLookup::Miss(path) => {
            let evicted = c.push(path, vec![2]).unwrap();
            assert_eq!(evicted.0, "d/K10.params");
        }
        _ => panic!(),
    }
    match c.generate_k_params(10) {
        CacheLookup::Miss(path) => assert_eq!(path, "d/K10.params"),
        CacheLookup::Hit(_) => panic!("evicted entries must be rebuilt, never reused"),
    }
}

#[test]
fn pkey_cache_lookup() {
    let mut c = ProvingKeyCache::new(3, String::from("dir"));
    let name = String::from("foo.circuit.data");
    match c.load_or_build_pkey(&name) {
        CacheLookup::Miss(p) => {
            assert_eq!(p, "dir/foo.circuit.data");
            c.push(p, vec![9]);
        }
        CacheLookup::Hit(_) => panic!(),
    }
    match c.load_or_build_pkey(&name) {
        CacheLookup::Hit(v) => assert_eq!(v, vec![9]),
        CacheLookup::Miss(_) => panic!(),
    }
}
