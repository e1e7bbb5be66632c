use bittorrent::db::FileDB;
use bittorrent::lru_cache::LruCache;

#[test]
fn lru_put_overwrites_and_evicts() {
    let mut cache: LruCache<&str> = LruCache::new(2);
    assert_eq!(cache.cap(), 2);
    assert!(cache.is_empty());
    assert_eq!(cache.put(1, "a"), None);
    assert_eq!(cache.put(2, "b"), None);
    assert_eq!(cache.len(), 2);
    // Overwriting hands back the old value and fronts the entry.
    assert_eq!(cache.put(1, "x"), Some("a"));
    assert_eq!(cache.keys(), vec![1, 2]);
    // At capacity a fresh key silently drops the least recently used.
    assert_eq!(cache.put(3, "c"), None);
    assert_eq!(cache.keys(), vec![3, 1]);
    assert!(!cache.contains(2));
}

#[test]
fn lru_push_hands_back_the_evicted_pair() {
    let mut cache: LruCache<u32> = LruCache::new(2);
    assert_eq!(cache.push(1, 10), None);
    assert_eq!(cache.push(2, 20), None);
    assert_eq!(cache.push(1, 11), Some((1, 10)));
    assert_eq!(cache.push(3, 30), Some((2, 20)));
    assert_eq!(cache.keys(), vec![3, 1]);
}

#[test]
fn lru_get_promotes_and_peek_does_not() {
    let mut cache: LruCache<u32> = LruCache::new(3);
    cache.put(1, 10);
    cache.put(2, 20);
    cache.put(3, 30);
    assert_eq!(cache.keys(), vec![3, 2, 1]);
    assert_eq!(cache.get(1), Some(&10));
    assert_eq!(cache.keys(), vec![1, 3, 2]);
    assert_eq!(cache.peek(2), Some(&20));
    assert_eq!(cache.keys(), vec![1, 3, 2]);
    assert_eq!(cache.get(9), None);
    assert_eq!(cache.peek_lru(), Some(&(2, 20)));
    assert_eq!(cache.peek_mru(), Some(&(1, 10)));
}

#[test]
fn lru_pops() {
    let mut cache: LruCache<u32> = LruCache::new(3);
    cache.put(1, 10);
    cache.put(2, 20);
    cache.put(3, 30);
    assert_eq!(cache.pop(2), Some(20));
    assert_eq!(cache.pop(2), None);
    assert_eq!(cache.pop_lru(), Some((1, 10)));
    assert_eq!(cache.pop_mru(), Some((3, 30)));
    assert_eq!(cache.pop_lru(), None);
    assert_eq!(cache.pop_mru(), None);
    cache.put(4, 40);
    assert_eq!(cache.pop_entry(4), Some((4, 40)));
    assert!(cache.is_empty());
}

#[test]
fn lru_promote_demote_resize_clear() {
    let mut cache: LruCache<u32> = LruCache::new(4);
    cache.put(1, 10);
    cache.put(2, 20);
    cache.put(3, 30);
    assert_eq!(cache.keys(), vec![3, 2, 1]);
    assert!(cache.promote(1));
    assert_eq!(cache.keys(), vec![1, 3, 2]);
    assert!(cache.demote(3));
    assert_eq!(cache.keys(), vec![1, 2, 3]);
    assert!(!cache.promote(9));
    assert!(!cache.demote(9));
    // Shrinking discards past the new capacity, least recently used first.
    cache.resize(1);
    assert_eq!(cache.keys(), vec![1]);
    assert_eq!(cache.cap(), 1);
    cache.resize(5);
    assert_eq!(cache.keys(), vec![1]);
    cache.clear();
    assert!(cache.is_empty());
    assert_eq!(cache.cap(), 5);
}

#[test]
fn lru_entry_at_walks_in_use_order() {
    let mut cache: LruCache<&str> = LruCache::new(3);
    cache.put(7, "seven");
    cache.put(8, "eight");
    assert_eq!(cache.entry_at(0), &(8, "eight"));
    assert_eq!(cache.entry_at(1), &(7, "seven"));
}

#[test]
fn file_db_ids_and_writes() {
    let mut db = FileDB::new(
        String::from("db.json"),
        String::from("config_db.json"),
        0,
        [0u8; 32],
        b"{}".to_vec(),
    );
    assert_eq!(db.data(), &b"{}".to_vec());
    assert_eq!(db.generate_id(), 1);
    assert_eq!(db.generate_id(), 2);
    // The same checksum asks for no write and changes nothing.
    assert!(!db.apply_write(&b"new".to_vec(), &[0u8; 32]));
    assert_eq!(db.data(), &b"{}".to_vec());
    // A new checksum adopts the bytes and asks for a write.
    assert!(db.apply_write(&b"new".to_vec(), &[1u8; 32]));
    assert_eq!(db.data(), &b"new".to_vec());
    assert!(!db.apply_write(&b"new".to_vec(), &[1u8; 32]));
}
