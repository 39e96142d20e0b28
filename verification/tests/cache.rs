use underwood::{
    CacheBudget, CacheDiagnostics, CacheWork, ParagraphFormationCacheDiagnostics,
    SceneResidencyBytes, SharedPreparationDiagnostics,
};

#[test]
fn a_new_budget_gives_both_lanes_the_same_limit_and_no_bytes() {
    let budget = CacheBudget::new(32);
    assert_eq!(budget.max_entries(), 32);
    assert_eq!(budget.max_composition_entries(), 32);
    assert_eq!(budget.shared_preparation_bytes(), 0);
    assert_eq!(budget.adapter_facts_bytes(), 0);
}

#[test]
fn budget_builders_change_one_limit_each() {
    let budget = CacheBudget::new(8)
        .with_composition_entries(0)
        .with_shared_preparation_bytes(4096)
        .with_adapter_facts_bytes(1024);
    assert_eq!(budget.max_entries(), 8);
    assert_eq!(budget.max_composition_entries(), 0);
    assert_eq!(budget.shared_preparation_bytes(), 4096);
    assert_eq!(budget.adapter_facts_bytes(), 1024);
}

fn shared() -> SharedPreparationDiagnostics {
    SharedPreparationDiagnostics {
        budget: 4096,
        entries: 2,
        resident_bytes: 300,
        peak_bytes: 500,
        hits: 3,
        misses: 4,
        evictions: 1,
        oversized_non_retentions: 5,
    }
}

#[test]
fn diagnostics_report_the_engine_state() {
    let mut work = CacheWork::new();
    work.record_access(0, 64, None, 1);
    work.record_access(64, 64, Some(1), 2);
    work.record_eviction(Some(64));
    let facts = ParagraphFormationCacheDiagnostics {
        budget_bytes: usize::MAX,
        entries: 1,
        ..ParagraphFormationCacheDiagnostics::default()
    };
    let diagnostics = CacheDiagnostics::from_state(
        CacheBudget::new(4).with_composition_entries(2),
        3,
        1,
        Some(facts),
        work,
        SceneResidencyBytes::default(),
        shared(),
    );
    assert_eq!(diagnostics.budget(), 4);
    assert_eq!(diagnostics.composition_budget(), 2);
    assert_eq!(diagnostics.committed_entries(), 3);
    assert_eq!(diagnostics.composition_entries(), 1);
    assert_eq!(diagnostics.current_entries(), 4);
    assert_eq!(diagnostics.adapter_facts(), Some(facts));
    assert_eq!(diagnostics.scene_cache_accounted_bytes(), 0);
    assert_eq!(diagnostics.scene_cache_residency(), SceneResidencyBytes::default());
    assert_eq!(diagnostics.peak_entries(), 2);
    assert_eq!(diagnostics.hits(), 1);
    assert_eq!(diagnostics.misses(), 1);
    assert_eq!(diagnostics.evictions(), 1);
    assert_eq!(diagnostics.releases(), 0);
    assert_eq!(diagnostics.shared_preparation_budget(), 4096);
    assert_eq!(diagnostics.shared_preparation_entries(), 2);
    assert_eq!(diagnostics.shared_preparation_resident_bytes(), 300);
    assert_eq!(diagnostics.shared_preparation_peak_bytes(), 500);
    assert_eq!(diagnostics.shared_preparation_hits(), 3);
    assert_eq!(diagnostics.shared_preparation_misses(), 4);
    assert_eq!(diagnostics.shared_preparation_evictions(), 1);
    assert_eq!(diagnostics.shared_preparation_oversized_non_retentions(), 5);
}

#[test]
fn default_diagnostics_are_empty() {
    let diagnostics = CacheDiagnostics::default();
    assert_eq!(diagnostics.current_entries(), 0);
    assert_eq!(diagnostics.adapter_facts(), None);
    assert_eq!(diagnostics.hits(), 0);
}

#[test]
fn access_recharges_scene_bytes_saturating_at_both_ends() {
    let mut work = CacheWork::new();
    work.record_access(0, 100, None, 3);
    assert_eq!(work.scene_cache_accounted_bytes, 100);
    assert_eq!(work.misses, 1);
    assert_eq!(work.peak_entries, 3);
    work.record_access(500, 40, Some(7), 1);
    assert_eq!(work.scene_cache_accounted_bytes, 40);
    assert_eq!(work.hits, 1);
    assert_eq!(work.peak_entries, 3);
    work.record_access(0, usize::MAX, Some(8), 1);
    assert_eq!(work.scene_cache_accounted_bytes, usize::MAX);
}

#[test]
fn eviction_releases_resident_charge_and_counts() {
    let mut work = CacheWork::new();
    work.record_access(0, 30, None, 1);
    work.record_eviction(Some(50));
    assert_eq!(work.scene_cache_accounted_bytes, 0);
    assert_eq!(work.evictions, 1);
    work.record_eviction(None);
    assert_eq!(work.evictions, 2);
}

#[test]
fn a_later_shared_byte_budget_overrides_an_earlier_one() {
    let budget = CacheBudget::new(8).with_composition_entries(2).with_adapter_facts_bytes(64);
    let twice = budget.with_shared_preparation_bytes(100).with_shared_preparation_bytes(300);
    assert_eq!(twice, budget.with_shared_preparation_bytes(300));
    assert_eq!(twice.shared_preparation_bytes(), 300);
    assert_eq!(twice.max_entries(), 8);
    assert_eq!(twice.max_composition_entries(), 2);
    assert_eq!(twice.adapter_facts_bytes(), 64);
}
