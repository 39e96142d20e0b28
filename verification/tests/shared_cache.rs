use std::sync::Arc;

use underwood::{shared_entry_weight, text_fingerprint, SharedPreparationCache, SharedPreparationEntry, SharedPreparationKey};

fn key(epoch: u64, text: &str, inputs: u64) -> SharedPreparationKey<u64> {
    SharedPreparationKey { epoch, text: String::from(text), inputs }
}

fn synchronized(budget: usize) -> SharedPreparationCache<u64, &'static str> {
    let mut cache = SharedPreparationCache::new(budget);
    cache.synchronize_epoch(Some(7));
    cache
}

#[test]
fn shared_cache_is_enabled_only_with_budget_and_epoch() {
    let mut cache: SharedPreparationCache<u64, &'static str> = SharedPreparationCache::new(64);
    assert!(!cache.is_enabled());
    cache.synchronize_epoch(Some(1));
    assert!(cache.is_enabled());
    cache.clear();
    assert!(!cache.is_enabled());

    let mut empty: SharedPreparationCache<u64, &'static str> = SharedPreparationCache::new(0);
    empty.synchronize_epoch(Some(1));
    assert!(!empty.is_enabled());
}

#[test]
fn shared_cache_lookup_after_insert_hits_with_the_inserted_value() {
    let mut cache = synchronized(100);
    assert!(cache.lookup(&key(7, "hello", 1), 1).is_none());
    cache.insert(key(7, "hello", 1), Arc::new("prepared"), 10, 1);
    let hit = cache.lookup(&key(7, "hello", 1), 2).expect("inserted key must hit");
    assert_eq!(*hit, "prepared");

    let diagnostics = cache.diagnostics();
    assert_eq!(diagnostics.budget, 100);
    assert_eq!(diagnostics.entries, 1);
    assert_eq!(diagnostics.resident_bytes, 10);
    assert_eq!(diagnostics.peak_bytes, 10);
    assert_eq!(diagnostics.hits, 1);
    assert_eq!(diagnostics.misses, 1);
    assert_eq!(diagnostics.evictions, 0);
    assert_eq!(diagnostics.oversized_non_retentions, 0);
}

#[test]
fn shared_cache_matches_text_and_every_input_exactly() {
    let mut cache = synchronized(100);
    cache.insert(key(7, "hello", 1), Arc::new("one"), 10, 1);
    assert!(cache.lookup(&key(7, "hello", 2), 2).is_none());
    assert!(cache.lookup(&key(7, "hellO", 1), 3).is_none());
    assert_eq!(cache.diagnostics().misses, 2);
    assert_eq!(cache.diagnostics().hits, 0);
}

#[test]
fn shared_cache_does_not_retain_values_heavier_than_the_budget() {
    let mut cache = synchronized(16);
    cache.insert(key(7, "big", 0), Arc::new("big"), 17, 1);
    let diagnostics = cache.diagnostics();
    assert_eq!(diagnostics.entries, 0);
    assert_eq!(diagnostics.resident_bytes, 0);
    assert_eq!(diagnostics.oversized_non_retentions, 1);
    assert!(cache.lookup(&key(7, "big", 0), 2).is_none());

    cache.insert(key(7, "exact", 0), Arc::new("exact"), 16, 3);
    assert_eq!(cache.diagnostics().resident_bytes, 16);
    assert_eq!(cache.diagnostics().oversized_non_retentions, 1);
}

#[test]
fn shared_cache_evicts_least_recently_used_until_the_value_fits() {
    let mut cache = synchronized(10);
    cache.insert(key(7, "first", 0), Arc::new("first"), 4, 1);
    cache.insert(key(7, "second", 0), Arc::new("second"), 4, 2);
    assert!(cache.lookup(&key(7, "first", 0), 3).is_some());
    cache.insert(key(7, "third", 0), Arc::new("third"), 4, 4);

    let diagnostics = cache.diagnostics();
    assert_eq!(diagnostics.entries, 2);
    assert_eq!(diagnostics.resident_bytes, 8);
    assert_eq!(diagnostics.peak_bytes, 8);
    assert_eq!(diagnostics.evictions, 1);
    assert!(cache.lookup(&key(7, "second", 0), 5).is_none());
    assert_eq!(*cache.lookup(&key(7, "first", 0), 6).unwrap(), "first");
    assert_eq!(*cache.lookup(&key(7, "third", 0), 7).unwrap(), "third");

    cache.insert(key(7, "wide", 0), Arc::new("wide"), 10, 8);
    let diagnostics = cache.diagnostics();
    assert_eq!(diagnostics.entries, 1);
    assert_eq!(diagnostics.resident_bytes, 10);
    assert_eq!(diagnostics.evictions, 3);
    assert!(diagnostics.resident_bytes <= diagnostics.budget);
}

#[test]
fn shared_cache_breaks_eviction_ties_by_smaller_fingerprint() {
    let (low, high) = if text_fingerprint("alpha") < text_fingerprint("beta") {
        ("alpha", "beta")
    } else {
        ("beta", "alpha")
    };
    let mut cache = synchronized(8);
    cache.insert(key(7, high, 0), Arc::new("high"), 4, 5);
    cache.insert(key(7, low, 0), Arc::new("low"), 4, 5);
    cache.insert(key(7, "gamma", 0), Arc::new("gamma"), 4, 6);
    assert!(cache.lookup(&key(7, low, 0), 7).is_none());
    assert!(cache.lookup(&key(7, high, 0), 8).is_some());
}

#[test]
fn shared_cache_drops_entries_when_the_epoch_changes() {
    let mut cache = synchronized(100);
    cache.insert(key(7, "kept", 0), Arc::new("kept"), 10, 1);
    cache.synchronize_epoch(Some(7));
    assert_eq!(cache.diagnostics().entries, 1);
    cache.synchronize_epoch(Some(8));
    let diagnostics = cache.diagnostics();
    assert_eq!(diagnostics.entries, 0);
    assert_eq!(diagnostics.resident_bytes, 0);
    assert_eq!(diagnostics.peak_bytes, 10);
    assert!(cache.lookup(&key(8, "kept", 0), 2).is_none());
}

#[test]
fn shared_cache_first_match_answers_duplicate_keys() {
    let mut cache = synchronized(100);
    cache.insert(key(7, "same", 3), Arc::new("older"), 10, 1);
    cache.insert(key(7, "same", 3), Arc::new("newer"), 10, 2);
    assert_eq!(*cache.lookup(&key(7, "same", 3), 3).unwrap(), "older");
}

#[test]
fn backends_are_ineligible_for_cross_identity_reuse_by_default() {
    let mut cache: SharedPreparationCache<u64, &'static str> = SharedPreparationCache::new(1024 * 1024);
    cache.synchronize_epoch(None);
    assert!(!cache.is_enabled());
    let diagnostics = cache.diagnostics();
    assert_eq!(diagnostics.entries, 0);
    assert_eq!(diagnostics.hits, 0);
    assert_eq!(diagnostics.misses, 0);
}

#[test]
fn eligible_backend_epoch_changes_invalidate_shared_preparation() {
    let mut cache: SharedPreparationCache<u64, &'static str> = SharedPreparationCache::new(1024 * 1024);
    let mut uses = 0;
    let mut prepare = |cache: &mut SharedPreparationCache<u64, &'static str>, epoch: u64| -> bool {
        cache.synchronize_epoch(Some(epoch));
        uses += 1;
        if cache.lookup(&key(epoch, "same", 0), uses).is_some() {
            return true;
        }
        cache.insert(key(epoch, "same", 0), Arc::new("prepared"), 64, uses);
        false
    };
    assert!(!prepare(&mut cache, 7));
    assert!(prepare(&mut cache, 7), "second document shares preparation");
    assert!(!prepare(&mut cache, 8), "new epoch prepares fresh output");
    let diagnostics = cache.diagnostics();
    assert_eq!(diagnostics.entries, 1);
    assert_eq!(diagnostics.hits, 1);
    assert_eq!(diagnostics.misses, 2);
}

#[test]
fn fingerprint_collision_never_substitutes_a_nonmatching_key() {
    let mut cache = synchronized(1024 * 1024);
    assert!(cache.lookup(&key(7, "aaaa", 0), 1).is_none());
    cache.insert(key(7, "aaaa", 0), Arc::new("aaaa"), 64, 1);

    assert!(cache.lookup(&key(7, "bbbb", 0), 2).is_none(), "nonmatching key must miss");
    cache.insert(key(7, "bbbb", 0), Arc::new("bbbb"), 64, 2);
    assert_eq!(*cache.lookup(&key(7, "bbbb", 0), 3).expect("exact key shares"), "bbbb");
    let diagnostics = cache.diagnostics();
    assert_eq!(diagnostics.misses, 2);
    assert_eq!(diagnostics.hits, 1);
}

#[test]
fn optional_references_are_equal_when_both_absent_or_equal() {
    assert!(underwood::option_ref_eq::<u32>(None, None));
    assert!(underwood::option_ref_eq(Some(&3), Some(&3)));
    assert!(!underwood::option_ref_eq(Some(&3), Some(&4)));
    assert!(!underwood::option_ref_eq(Some(&3), None));
    assert!(!underwood::option_ref_eq(None, Some(&3)));
}

#[test]
fn an_entry_weighs_itself_and_its_owned_parts() {
    let entry = core::mem::size_of::<SharedPreparationEntry<u64, &'static str>>();
    assert_eq!(shared_entry_weight::<u64, &'static str>(10, 20, None), entry + 30);
    assert_eq!(shared_entry_weight::<u64, &'static str>(10, 20, Some(5)), entry + 35);
    assert_eq!(shared_entry_weight::<u64, &'static str>(usize::MAX, 1, Some(1)), usize::MAX);
}
