use underwood::{DocumentId, ParagraphCacheStore, ParagraphId};

fn paragraph(document: &[u8; 16], index: u32) -> ParagraphId {
    ParagraphId::new(DocumentId::from_bytes(*document), index)
}

#[test]
fn inserted_entries_are_read_back() {
    let mut store = ParagraphCacheStore::new();
    let a = paragraph(b"cache-store-doc1", 0);
    let b = paragraph(b"cache-store-doc1", 1);
    let c = paragraph(b"cache-store-doc2", 0);
    assert_eq!(store.insert(a, "a"), None);
    assert_eq!(store.insert(b, "b"), None);
    assert_eq!(store.insert(c, "c"), None);
    assert_eq!(store.len(), 3);
    assert_eq!(store.get(&a), Some(&"a"));
    assert_eq!(store.get(&c), Some(&"c"));
    assert!(store.contains_key(&b));
    assert!(!store.contains_key(&paragraph(b"cache-store-doc2", 1)));
}

#[test]
fn replacing_keeps_the_slot_and_returns_the_old_entry() {
    let mut store = ParagraphCacheStore::new();
    let a = paragraph(b"cache-store-doc1", 0);
    let b = paragraph(b"cache-store-doc1", 1);
    store.insert(a, 1);
    store.insert(b, 2);
    assert_eq!(store.insert(a, 3), Some(1));
    assert_eq!(store.entries(), &[(a, 3), (b, 2)]);
}

#[test]
fn removal_moves_the_last_entry_into_the_freed_slot() {
    let mut store = ParagraphCacheStore::new();
    let a = paragraph(b"cache-store-doc1", 0);
    let b = paragraph(b"cache-store-doc1", 1);
    let c = paragraph(b"cache-store-doc1", 2);
    store.insert(a, 'a');
    store.insert(b, 'b');
    store.insert(c, 'c');
    assert_eq!(store.remove(&a), Some('a'));
    assert_eq!(store.entries(), &[(c, 'c'), (b, 'b')]);
    assert_eq!(store.get(&c), Some(&'c'));
    assert_eq!(store.remove(&a), None);
    assert_eq!(store.remove(&b), Some('b'));
    assert_eq!(store.entries(), &[(c, 'c')]);
    store.clear();
    assert_eq!(store.len(), 0);
    assert_eq!(store.get(&c), None);
}

#[test]
fn entries_update_in_place_through_get_mut() {
    let mut store = ParagraphCacheStore::new();
    let a = paragraph(b"cache-store-doc1", 0);
    let b = paragraph(b"cache-store-doc1", 1);
    store.insert(a, 10);
    store.insert(b, 20);
    *store.get_mut(&b).expect("b is resident") += 5;
    assert!(store.get_mut(&paragraph(b"cache-store-doc3", 0)).is_none());
    assert_eq!(store.entries(), &[(a, 10), (b, 25)]);
    assert_eq!(store.get(&b), Some(&25));
}

#[test]
fn retain_asks_about_every_entry_once_and_keeps_the_accepted() {
    let mut store = ParagraphCacheStore::new();
    let ids: Vec<ParagraphId> = (0..6).map(|index| paragraph(b"cache-store-doc1", index)).collect();
    for (value, id) in ids.iter().enumerate() {
        store.insert(*id, value as u32);
    }
    let asked = std::cell::RefCell::new(Vec::new());
    store.retain(|id, value| {
        asked.borrow_mut().push(id.index);
        value % 3 != 0
    });
    let mut asked = asked.into_inner();
    asked.sort();
    assert_eq!(asked, vec![0, 1, 2, 3, 4, 5]);
    assert_eq!(store.len(), 4);
    for id in &ids {
        let expected = id.index % 3 != 0;
        assert_eq!(store.contains_key(id), expected);
        if expected {
            assert_eq!(store.get(id), Some(&id.index));
        }
    }
    assert_eq!(store.entries(), &[(ids[5], 5), (ids[1], 1), (ids[2], 2), (ids[4], 4)]);
}

#[test]
fn eviction_removes_least_recently_used_entries_first() {
    let mut store = ParagraphCacheStore::new();
    let a = paragraph(b"cache-store-doc1", 0);
    let b = paragraph(b"cache-store-doc1", 1);
    let c = paragraph(b"cache-store-doc1", 2);
    let d = paragraph(b"cache-store-doc1", 3);
    store.insert(a, 40u64);
    store.insert(b, 10);
    store.insert(c, 30);
    store.insert(d, 20);
    let evicted = store.evict_least_recent(2, |_, used| *used);
    assert_eq!(evicted, vec![(b, 10), (d, 20)]);
    assert_eq!(store.len(), 2);
    assert_eq!(store.get(&a), Some(&40));
    assert_eq!(store.get(&c), Some(&30));
    assert!(store.evict_least_recent(5, |_, used| *used).is_empty());
    assert_eq!(store.len(), 2);
}

#[test]
fn eviction_breaks_recency_ties_in_paragraph_order() {
    let mut store = ParagraphCacheStore::new();
    let later_document = paragraph(b"cache-store-doc2", 0);
    let first = paragraph(b"cache-store-doc1", 7);
    let second = paragraph(b"cache-store-doc1", 9);
    let older_bytes = paragraph(&[0xff, 0, 0, 0, 0, 0, 0, 0, 0, 0, 0, 0, 0, 0, 0, 1], 0);
    store.insert(later_document, 5u64);
    store.insert(second, 5);
    store.insert(older_bytes, 5);
    store.insert(first, 5);
    let evicted = store.evict_least_recent(0, |_, used| *used);
    let order: Vec<ParagraphId> = evicted.iter().map(|(paragraph, _)| *paragraph).collect();
    assert_eq!(order, vec![first, second, later_document, older_bytes]);
    assert_eq!(store.len(), 0);
}
