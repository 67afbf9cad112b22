use cachenode::cache::{CacheError, CacheIndex};
use cachenode::digest::digest;
use cachenode::fileid::{FileId, ImageFormat};

fn id_for(content: &[u8]) -> FileId {
    FileId {
        hash: digest(content),
        size: content.len() as u64,
        width: 100,
        height: 100,
        format: ImageFormat::Jpg,
    }
}

#[test]
fn commit_then_lookup_hits() {
    let mut idx = CacheIndex::new(1 << 20, Vec::new());
    let content = vec![7u8; 100];
    let id = id_for(&content);
    assert!(idx.insert_commit(id.clone_id(), &content, 10).is_ok());
    assert!(idx.lookup_touch(&id, 20));
    let (bytes, count) = idx.stats();
    assert_eq!(bytes, 100);
    assert_eq!(count, 1);
}

#[test]
fn commit_with_wrong_hash_reports_integrity_and_changes_nothing() {
    let mut idx = CacheIndex::new(1 << 20, Vec::new());
    let content = vec![7u8; 100];
    let mut id = id_for(&content);
    id.hash = digest(b"something else entirely");
    let r = idx.insert_commit(id.clone_id(), &content, 10);
    assert_eq!(r, Err(CacheError::Integrity));
    assert!(!idx.lookup_touch(&id, 20));
    let (bytes, count) = idx.stats();
    assert_eq!(bytes, 0);
    assert_eq!(count, 0);
}

#[test]
fn commit_with_wrong_length_reports_integrity() {
    let mut idx = CacheIndex::new(1 << 20, Vec::new());
    let content = vec![7u8; 100];
    let mut id = id_for(&content);
    id.size = 99;
    assert_eq!(idx.insert_commit(id, &content, 10), Err(CacheError::Integrity));
}

#[test]
fn remove_drops_the_entry() {
    let mut idx = CacheIndex::new(1 << 20, Vec::new());
    let content = vec![1u8; 10];
    let id = id_for(&content);
    assert!(idx.insert_commit(id.clone_id(), &content, 1).is_ok());
    idx.remove(&id);
    assert!(!idx.lookup_touch(&id, 2));
    idx.remove(&id); // no-op when absent
    assert_eq!(idx.stats().1, 0);
}

#[test]
fn eviction_drops_least_recent_first_down_to_ninety_percent() {
    // 1 MiB limit; three 512 KiB non-static objects inserted as A, B, C.
    let limit: u64 = 1 << 20;
    let mut idx = CacheIndex::new(limit, Vec::new());
    let a = vec![1u8; 512 * 1024];
    let b = vec![2u8; 512 * 1024];
    let c = vec![3u8; 512 * 1024];
    let ida = id_for(&a);
    let idb = id_for(&b);
    let idc = id_for(&c);
    assert!(idx.insert_commit(ida.clone_id(), &a, 1).is_ok());
    assert!(!idx.needs_eviction());
    assert!(idx.insert_commit(idb.clone_id(), &b, 2).is_ok());
    assert!(!idx.needs_eviction()); // exactly at the limit, not over
    assert!(idx.insert_commit(idc.clone_id(), &c, 3).is_ok());
    assert!(idx.needs_eviction());
    idx.evict_round();
    // The round drops A, then B: two entries still exceed 90% of the
    // limit (943718 bytes), one does not. The least recently used go
    // first, so C alone remains.
    assert!(!idx.lookup_touch(&ida, 10));
    assert!(!idx.lookup_touch(&idb, 10));
    assert!(idx.lookup_touch(&idc, 10));
    assert_eq!(idx.stats(), (512 * 1024, 1));
}

#[test]
fn eviction_skips_static_entries() {
    let limit: u64 = 100;
    let a = vec![1u8; 200];
    let ida = id_for(&a);
    // Pin A's shard prefix: the first four hex digits of its hash.
    let p = cachenode::cache::hash_prefix(&ida.hash);
    let mut idx = CacheIndex::new(limit, vec![p]);
    let b = vec![2u8; 200];
    let idb = id_for(&b);
    assert!(idx.insert_commit(ida.clone_id(), &a, 1).is_ok());
    assert!(idx.insert_commit(idb.clone_id(), &b, 2).is_ok());
    idx.evict_round();
    // The static entry stays although it is older; the other is gone.
    assert!(idx.lookup_touch(&ida, 10));
    assert!(!idx.lookup_touch(&idb, 10));
}

#[test]
fn touch_refreshes_recency_order() {
    let limit: u64 = 1 << 20;
    let mut idx = CacheIndex::new(limit, Vec::new());
    let a = vec![1u8; 512 * 1024];
    let b = vec![2u8; 512 * 1024];
    let c = vec![3u8; 512 * 1024];
    let ida = id_for(&a);
    let idb = id_for(&b);
    let idc = id_for(&c);
    assert!(idx.insert_commit(ida.clone_id(), &a, 1).is_ok());
    assert!(idx.insert_commit(idb.clone_id(), &b, 2).is_ok());
    // A is touched after B's insert, so B becomes the oldest.
    assert!(idx.lookup_touch(&ida, 5));
    assert!(idx.insert_commit(idc.clone_id(), &c, 6).is_ok());
    idx.evict_round();
    assert!(!idx.lookup_touch(&idb, 10));
    assert!(!idx.lookup_touch(&ida, 10));
    assert!(idx.lookup_touch(&idc, 10));
}
