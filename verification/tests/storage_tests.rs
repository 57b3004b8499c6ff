use fim::digest::calculate_sha256;
use fim::hash_storage::HashStorage;

#[test]
fn new_store_without_file_is_empty() {
    let storage = HashStorage::new("hashes.json", None);
    assert_eq!(storage.get_hash("/a"), None);
    assert_eq!(storage.json_file_path(), "hashes.json");
    assert!(storage.entries().is_empty());
}

#[test]
fn new_store_loads_saved_pairs() {
    let stored = vec![
        (String::from("/a"), String::from("h1")),
        (String::from("/b"), String::from("h2")),
    ];
    let storage = HashStorage::new("hashes.json", Some(stored));
    assert_eq!(storage.get_hash("/a").map(|s| s.as_str()), Some("h1"));
    assert_eq!(storage.get_hash("/b").map(|s| s.as_str()), Some("h2"));
    assert_eq!(storage.get_hash("/c"), None);
}

#[test]
fn later_pair_for_a_path_wins_on_load() {
    let stored = vec![
        (String::from("/a"), String::from("old")),
        (String::from("/a"), String::from("new")),
    ];
    let storage = HashStorage::new("hashes.json", Some(stored));
    assert_eq!(storage.get_hash("/a").map(|s| s.as_str()), Some("new"));
    assert_eq!(storage.entries().len(), 1);
}

#[test]
fn add_hash_then_get_hash() {
    let mut storage = HashStorage::new("hashes.json", None);
    storage.add_hash("/etc/passwd", b"root:x:0:0");
    let expected = calculate_sha256(b"root:x:0:0");
    assert_eq!(storage.get_hash("/etc/passwd"), Some(&expected));
    assert_eq!(storage.get_hash("/etc/shadow"), None);
}

#[test]
fn add_hash_replaces_and_keeps_others() {
    let mut storage = HashStorage::new("hashes.json", None);
    storage.add_hash("/a", b"one");
    storage.add_hash("/b", b"two");
    storage.add_hash("/a", b"three");
    assert_eq!(storage.get_hash("/a"), Some(&calculate_sha256(b"three")));
    assert_eq!(storage.get_hash("/b"), Some(&calculate_sha256(b"two")));
    assert_eq!(storage.entries().len(), 2);
}

#[test]
fn saved_pairs_load_back_in_any_order() {
    let mut storage = HashStorage::new("hashes.json", None);
    storage.add_hash("/a", b"one");
    storage.add_hash("/b", b"two");
    storage.add_hash("/c", b"three");
    let mut saved: Vec<(String, String)> = storage.entries().clone();
    saved.reverse();
    let loaded = HashStorage::new("hashes.json", Some(saved));
    for path in ["/a", "/b", "/c", "/d"] {
        assert_eq!(loaded.get_hash(path), storage.get_hash(path));
    }
    assert!(format!("{:?}", loaded).contains("hashes.json"));
}
