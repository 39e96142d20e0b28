use underwood::{
    SceneResidencyBytes, SharedPreparationDiagnostics,
    CacheBudget, CacheKind, CompositionRoot, DocumentId, EngineAction, EngineCaches, ParagraphId,
    PrepareEvent, RetainedEntry,
};

fn document(name: &[u8; 16]) -> DocumentId {
    DocumentId::from_bytes(*name)
}

fn paragraph(doc: &[u8; 16], index: u32) -> ParagraphId {
    ParagraphId::new(document(doc), index)
}

const A: &[u8; 16] = b"engine-caches-a1";
const B: &[u8; 16] = b"engine-caches-b1";

fn entry(last_used: u64, bytes: usize, preparation: u64) -> RetainedEntry<&'static str> {
    RetainedEntry { last_used, accounted_bytes: bytes, preparation, segment: "segment" }
}

fn form(caches: &mut EngineCaches<&'static str>, kind: CacheKind, p: ParagraphId, e: RetainedEntry<&'static str>) -> (Vec<ParagraphId>, Vec<ParagraphId>) {
    match caches.step(PrepareEvent::Formed { kind, paragraph: p, entry: e }) {
        EngineAction::Continue { committed, composition } => (
            committed.into_iter().map(|(p, _)| p).collect(),
            composition.into_iter().map(|(p, _)| p).collect(),
        ),
        _ => panic!("a formed paragraph continues the preparation"),
    }
}

#[test]
fn committed_budget_evicts_the_least_recent_entry() {
    let mut caches = EngineCaches::new(CacheBudget::new(2));
    assert_eq!(form(&mut caches, CacheKind::Committed, paragraph(A, 0), entry(1, 10, 100)).0, vec![]);
    assert_eq!(form(&mut caches, CacheKind::Committed, paragraph(A, 1), entry(2, 20, 101)).0, vec![]);
    let (evicted, _) = form(&mut caches, CacheKind::Committed, paragraph(A, 2), entry(3, 30, 102));
    assert_eq!(evicted, vec![paragraph(A, 0)]);
    assert_eq!(caches.lane_len(CacheKind::Committed), 2);
    let work = caches.cache_work();
    assert_eq!(work.evictions, 1);
    assert_eq!(work.misses, 3);
    assert_eq!(work.scene_cache_accounted_bytes, 50);
}

#[test]
fn composition_work_never_evicts_committed_geometry() {
    let budget = CacheBudget::new(1).with_composition_entries(0);
    let mut caches = EngineCaches::new(budget);
    form(&mut caches, CacheKind::Committed, paragraph(A, 0), entry(1, 10, 100));
    let (committed, composition) = form(&mut caches, CacheKind::Composition, paragraph(A, 0), entry(2, 5, 200));
    assert!(committed.is_empty());
    assert_eq!(composition, vec![paragraph(A, 0)]);
    assert_eq!(caches.lane_len(CacheKind::Committed), 1);
    assert_eq!(caches.lane_len(CacheKind::Composition), 0);
    assert!(caches.entry(CacheKind::Committed, paragraph(A, 0)).is_some());
}

#[test]
fn a_published_root_keeps_its_entries_longer_and_is_dropped_by_their_eviction() {
    let mut caches = EngineCaches::new(CacheBudget::new(2));
    form(&mut caches, CacheKind::Committed, paragraph(A, 0), entry(1, 1, 1));
    form(&mut caches, CacheKind::Committed, paragraph(B, 0), entry(2, 1, 2));
    assert!(matches!(
        caches.step(PrepareEvent::Finished {
            document: document(A),
            composition_target: None,
            last_used: 9,
            all_resident: true,
        }),
        EngineAction::Published
    ));
    assert_eq!(caches.published(document(A)).document, Some(9));
    let (evicted, _) = form(&mut caches, CacheKind::Committed, paragraph(B, 1), entry(3, 1, 3));
    assert_eq!(evicted, vec![paragraph(B, 0)]);
    let (evicted, _) = form(&mut caches, CacheKind::Committed, paragraph(B, 2), entry(4, 1, 4));
    assert_eq!(evicted, vec![paragraph(B, 1)]);
    let (evicted, _) = form(&mut caches, CacheKind::Committed, paragraph(B, 3), entry(10, 1, 5));
    assert_eq!(evicted, vec![paragraph(B, 2)]);
    let (evicted, _) = form(&mut caches, CacheKind::Committed, paragraph(B, 4), entry(11, 1, 6));
    assert_eq!(evicted, vec![paragraph(A, 0)]);
    assert_eq!(caches.published(document(A)).document, None);
}

#[test]
fn a_failed_preparation_publishes_nothing_and_keeps_every_entry() {
    let mut caches = EngineCaches::new(CacheBudget::new(4));
    form(&mut caches, CacheKind::Committed, paragraph(A, 0), entry(1, 7, 1));
    let work = caches.cache_work();
    assert!(matches!(caches.step(PrepareEvent::Failed), EngineAction::Abort));
    assert_eq!(caches.lane_len(CacheKind::Committed), 1);
    assert_eq!(caches.published(document(A)).document, None);
    assert_eq!(caches.cache_work(), work);
}

#[test]
fn an_incomplete_scene_withdraws_its_publication() {
    let mut caches: EngineCaches<&'static str> = EngineCaches::new(CacheBudget::new(4));
    caches.step(PrepareEvent::Finished { document: document(A), composition_target: None, last_used: 3, all_resident: true });
    assert!(matches!(
        caches.step(PrepareEvent::Finished { document: document(A), composition_target: None, last_used: 4, all_resident: false }),
        EngineAction::Unpublished
    ));
    assert_eq!(caches.published(document(A)).document, None);
    caches.step(PrepareEvent::Finished {
        document: document(A),
        composition_target: Some(paragraph(A, 1)),
        last_used: 5,
        all_resident: true,
    });
    assert_eq!(
        caches.published(document(A)).composition,
        Some(CompositionRoot { target: paragraph(A, 1), last_used: 5 })
    );
}

#[test]
fn releasing_a_document_removes_only_its_entries_and_roots() {
    let mut caches = EngineCaches::new(CacheBudget::new(8));
    form(&mut caches, CacheKind::Committed, paragraph(A, 0), entry(1, 10, 1));
    form(&mut caches, CacheKind::Committed, paragraph(B, 0), entry(2, 20, 2));
    form(&mut caches, CacheKind::Composition, paragraph(A, 1), entry(3, 5, 3));
    caches.step(PrepareEvent::Finished { document: document(A), composition_target: None, last_used: 4, all_resident: true });
    caches.step(PrepareEvent::Finished { document: document(B), composition_target: None, last_used: 5, all_resident: true });
    let released: Vec<_> = caches.release_document(document(A)).into_iter().map(|(p, e)| (p, e.preparation)).collect();
    assert_eq!(released, vec![(paragraph(A, 0), 1), (paragraph(A, 1), 3)]);
    assert_eq!(caches.lane_len(CacheKind::Committed), 1);
    assert_eq!(caches.lane_len(CacheKind::Composition), 0);
    assert_eq!(caches.published(document(A)).document, None);
    assert_eq!(caches.published(document(B)).document, Some(5));
    let work = caches.cache_work();
    assert_eq!(work.releases, 2);
    assert_eq!(work.scene_cache_accounted_bytes, 20);
}

#[test]
fn clearing_releases_everything() {
    let mut caches = EngineCaches::new(CacheBudget::new(8));
    form(&mut caches, CacheKind::Committed, paragraph(A, 0), entry(1, 10, 1));
    form(&mut caches, CacheKind::Composition, paragraph(A, 1), entry(3, 5, 3));
    caches.step(PrepareEvent::Finished { document: document(A), composition_target: None, last_used: 4, all_resident: true });
    assert_eq!(caches.clear(), 2);
    assert_eq!(caches.lane_len(CacheKind::Committed), 0);
    assert_eq!(caches.lane_len(CacheKind::Composition), 0);
    assert_eq!(caches.published(document(A)).document, None);
    assert_eq!(caches.cache_work().releases, 2);
    assert_eq!(caches.cache_work().scene_cache_accounted_bytes, 0);
}

#[test]
fn enforcing_one_lane_leaves_the_other() {
    let mut caches = EngineCaches::new(CacheBudget::new(8));
    form(&mut caches, CacheKind::Committed, paragraph(A, 0), entry(1, 10, 1));
    form(&mut caches, CacheKind::Composition, paragraph(A, 1), entry(2, 5, 3));
    let evicted = caches.enforce_lane_budget(CacheKind::Committed, 0);
    assert_eq!(evicted.len(), 1);
    assert_eq!(caches.lane_len(CacheKind::Composition), 1);
    let (committed, composition) = caches.enforce_budget();
    assert!(committed.is_empty() && composition.is_empty());
}

#[test]
fn diagnostics_count_both_lanes() {
    let mut caches = EngineCaches::new(CacheBudget::new(1));
    form(&mut caches, CacheKind::Committed, paragraph(A, 0), entry(1, 10, 1));
    form(&mut caches, CacheKind::Composition, paragraph(A, 0), entry(2, 5, 2));
    let shared = SharedPreparationDiagnostics {
        budget: 0,
        entries: 0,
        resident_bytes: 0,
        peak_bytes: 0,
        hits: 0,
        misses: 0,
        evictions: 0,
        oversized_non_retentions: 0,
    };
    let d = caches.diagnostics(None, SceneResidencyBytes::default(), shared);
    assert_eq!(d.committed_entries(), 1);
    assert_eq!(d.composition_entries(), 1);
    assert_eq!(d.current_entries(), 2);
    assert_eq!(d.misses(), 2);
}

#[test]
fn reusing_a_published_scene_refreshes_its_use() {
    let mut caches: EngineCaches<&'static str> = EngineCaches::new(CacheBudget::new(2));
    assert!(!caches.reuse_published(document(A), None, 3));
    caches.step(PrepareEvent::Finished { document: document(A), composition_target: None, last_used: 4, all_resident: true });
    assert!(caches.reuse_published(document(A), None, 7));
    assert_eq!(caches.published(document(A)).document, Some(7));
    assert!(!caches.reuse_published(document(A), Some(paragraph(A, 0)), 8));
    caches.step(PrepareEvent::Finished { document: document(A), composition_target: Some(paragraph(A, 0)), last_used: 9, all_resident: true });
    assert!(!caches.reuse_published(document(A), Some(paragraph(A, 1)), 10));
    assert!(caches.reuse_published(document(A), Some(paragraph(A, 0)), 11));
    assert_eq!(
        caches.published(document(A)).composition,
        Some(CompositionRoot { target: paragraph(A, 0), last_used: 11 })
    );
}
