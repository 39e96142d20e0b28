use underwood::{
    check_formed_paragraph, formation_in_regions, FormedParagraphChecks,
    check_composition_base, composition_target_paragraph, DocumentRevision, TextId,
    appended_update_allowed, changed_paragraph_indices, choose_fact_source, finish_formation,
    localized_changes_in_range, plan_paragraph_preparation, record_considered, record_unchanged,
    record_fact_source, AdapterAction, DocumentId, FactSource, ParagraphCacheStore, ParagraphId,
    ParagraphFormationReuse, PreparationPlan, PreparationReuse, RetainedComparison, SceneError,
    SceneErrorKind,
};

fn paragraph(index: u32) -> ParagraphId {
    ParagraphId::new(DocumentId::from_bytes(*b"preparation-doc1"), index)
}

fn matching() -> RetainedComparison {
    RetainedComparison {
        formation_matches: true,
        paint_matches: true,
        adjustment_matches: true,
        geometry_has_features: true,
        artifact_has_features: true,
    }
}

#[test]
fn matching_geometry_is_reused_exactly() {
    let plan = plan_paragraph_preparation(Some(matching()));
    assert_eq!(
        plan,
        PreparationPlan {
            exact_reuse: true,
            retain_layout: true,
            repaint_only: false,
            capability_upgrade: false,
        }
    );
}

#[test]
fn a_cold_paragraph_reuses_nothing() {
    let plan = plan_paragraph_preparation(None);
    assert!(!plan.exact_reuse && !plan.retain_layout && !plan.repaint_only && !plan.capability_upgrade);
}

#[test]
fn a_paint_change_repaints_retained_layout() {
    let plan = plan_paragraph_preparation(Some(RetainedComparison { paint_matches: false, ..matching() }));
    assert!(!plan.exact_reuse);
    assert!(plan.retain_layout);
    assert!(plan.repaint_only);
    assert!(!plan.capability_upgrade);
}

#[test]
fn a_missing_capability_is_an_upgrade() {
    let plan = plan_paragraph_preparation(Some(RetainedComparison {
        geometry_has_features: false,
        ..matching()
    }));
    assert!(!plan.exact_reuse);
    assert!(plan.capability_upgrade);
    assert!(!plan.repaint_only);
}

#[test]
fn a_formation_change_keeps_no_layout() {
    let plan = plan_paragraph_preparation(Some(RetainedComparison {
        formation_matches: false,
        ..matching()
    }));
    assert!(!plan.exact_reuse && !plan.retain_layout && !plan.repaint_only && !plan.capability_upgrade);
}

#[test]
fn fact_sources_are_tried_in_order() {
    assert_eq!(choose_fact_source(Some(matching()), true, true), FactSource::RetainedArtifact);
    let stale = RetainedComparison { formation_matches: false, ..matching() };
    assert_eq!(choose_fact_source(Some(stale), true, true), FactSource::AlternateArtifact);
    assert_eq!(choose_fact_source(Some(stale), false, true), FactSource::SharedPreparation);
    assert_eq!(choose_fact_source(None, false, false), FactSource::Adapter);
    let lacking = RetainedComparison { artifact_has_features: false, ..matching() };
    assert_eq!(choose_fact_source(Some(lacking), false, false), FactSource::Adapter);
}

#[test]
fn considered_paragraphs_count_cold_invalidations_and_exact_reuse() {
    let mut reuse = PreparationReuse::default();
    record_considered(&mut reuse, None);
    record_considered(&mut reuse, Some(matching()));
    record_considered(
        &mut reuse,
        Some(RetainedComparison { formation_matches: false, paint_matches: false, ..matching() }),
    );
    assert_eq!(reuse.paragraphs, 3);
    assert_eq!(reuse.cold_paragraphs, 1);
    assert_eq!(reuse.exact_geometry_reuses, 1);
    assert_eq!(reuse.formation_invalidations, 1);
    assert_eq!(reuse.paint_invalidations, 1);
    assert_eq!(reuse.adjustment_invalidations, 0);
}

#[test]
fn counters_saturate() {
    let mut reuse = PreparationReuse { paragraphs: usize::MAX, ..PreparationReuse::default() };
    record_considered(&mut reuse, None);
    assert_eq!(reuse.paragraphs, usize::MAX);
    assert_eq!(reuse.cold_paragraphs, 1);
}

#[test]
fn fact_sources_count_adapter_hits_and_upgrades() {
    let mut reuse = PreparationReuse::default();
    record_fact_source(&mut reuse, FactSource::Adapter, ParagraphFormationReuse::Cold, true);
    record_fact_source(&mut reuse, FactSource::Adapter, ParagraphFormationReuse::RetainedFacts, true);
    record_fact_source(&mut reuse, FactSource::Adapter, ParagraphFormationReuse::RetainedFacts, false);
    record_fact_source(&mut reuse, FactSource::SharedPreparation, ParagraphFormationReuse::Cold, false);
    record_fact_source(&mut reuse, FactSource::RetainedArtifact, ParagraphFormationReuse::Cold, true);
    assert_eq!(reuse.adapter_calls, 3);
    assert_eq!(reuse.adapter_fact_hits, 2);
    assert_eq!(reuse.adapter_fact_misses, 1);
    assert_eq!(reuse.cold_capability_upgrades, 1);
    assert_eq!(reuse.warm_capability_upgrades, 1);
    assert_eq!(reuse.shared_preparation_reuses, 1);
}

#[test]
fn a_failed_formation_publishes_nothing_and_releases_adapter_facts() {
    let mut cache: ParagraphCacheStore<u32> = ParagraphCacheStore::new();
    cache.insert(paragraph(0), 10);
    let failure = SceneError::for_paragraph(SceneErrorKind::SourceCoverage, paragraph(1));
    assert_eq!(finish_formation(&mut cache, paragraph(1), true, Err(failure.clone())), AdapterAction::Release);
    assert_eq!(finish_formation(&mut cache, paragraph(1), false, Err(failure)), AdapterAction::Keep);
    assert_eq!(cache.len(), 1);
    assert!(!cache.contains_key(&paragraph(1)));
    assert_eq!(cache.get(&paragraph(0)), Some(&10));
}

#[test]
fn a_validated_formation_is_committed() {
    let mut cache: ParagraphCacheStore<u32> = ParagraphCacheStore::new();
    cache.insert(paragraph(0), 10);
    assert_eq!(finish_formation(&mut cache, paragraph(0), true, Ok(11)), AdapterAction::Commit);
    assert_eq!(finish_formation(&mut cache, paragraph(2), true, Ok(12)), AdapterAction::Commit);
    assert_eq!(cache.get(&paragraph(0)), Some(&11));
    assert_eq!(cache.get(&paragraph(2)), Some(&12));
    assert_eq!(cache.len(), 2);
}

#[test]
fn changed_paragraphs_are_merged_sorted_and_unique() {
    assert_eq!(changed_paragraph_indices(&[4, 1, 4], &[3, 1, 0]), vec![0, 1, 3, 4]);
    assert_eq!(changed_paragraph_indices(&[], &[]), Vec::<usize>::new());
    assert_eq!(changed_paragraph_indices(&[2, 2, 2], &[]), vec![2]);
}

#[test]
fn localized_changes_must_exist_before_and_after() {
    assert!(localized_changes_in_range(&[0, 2], 3, 3));
    assert!(!localized_changes_in_range(&[0, 3], 4, 3));
    assert!(!localized_changes_in_range(&[3], 3, 4));
    assert!(localized_changes_in_range(&[], 0, 0));
}

#[test]
fn appended_scenes_allow_style_changes_only_on_appended_paragraphs() {
    assert!(appended_update_allowed(&[3, 4], &[4]));
    assert!(appended_update_allowed(&[3], &[]));
    assert!(!appended_update_allowed(&[], &[]));
    assert!(!appended_update_allowed(&[3, 4], &[1]));
}

#[test]
fn untouched_paragraphs_count_as_exact_reuse() {
    let mut reuse = PreparationReuse::default();
    record_unchanged(&mut reuse, 5, 2);
    assert_eq!(reuse.paragraphs, 3);
    assert_eq!(reuse.preflight_reuses, 3);
    assert_eq!(reuse.exact_geometry_reuses, 3);
    record_unchanged(&mut reuse, 1, 2);
    assert_eq!(reuse.paragraphs, 3);
    let mut full = PreparationReuse { paragraphs: usize::MAX - 1, ..PreparationReuse::default() };
    record_unchanged(&mut full, 5, 0);
    assert_eq!(full.paragraphs, usize::MAX);
}

#[test]
fn a_composition_must_share_the_snapshot_document_and_revision() {
    let document = DocumentId::from_bytes(*b"preparation-doc1");
    let other = DocumentId::from_bytes(*b"preparation-doc2");
    assert!(check_composition_base(document, DocumentRevision(3), document, DocumentRevision(3)).is_ok());
    let error = check_composition_base(document, DocumentRevision(3), other, DocumentRevision(3)).unwrap_err();
    assert_eq!(error.kind(), SceneErrorKind::InvalidComposition);
    assert_eq!(error.document(), Some(document));
    assert!(check_composition_base(document, DocumentRevision(3), document, DocumentRevision(2)).is_err());
}

#[test]
fn a_composition_targets_the_paragraph_at_its_leaf_position() {
    let document = DocumentId::from_bytes(*b"preparation-doc1");
    let paragraphs = [paragraph(0), paragraph(1), paragraph(2)];
    let target = TextId::new(document, 1, 4);
    assert_eq!(composition_target_paragraph(document, Some(target), &paragraphs, true), Ok(paragraph(1)));
    let error = composition_target_paragraph(document, Some(target), &paragraphs, false).unwrap_err();
    assert_eq!(error.kind(), SceneErrorKind::InvalidComposition);
    assert!(composition_target_paragraph(document, None, &paragraphs, true).is_err());
    let beyond = TextId::new(document, 3, 0);
    assert!(composition_target_paragraph(document, Some(beyond), &paragraphs, true).is_err());
    let shifted = [paragraph(0), paragraph(5)];
    assert!(composition_target_paragraph(document, Some(target), &shifted, true).is_err());
}

fn passing_checks() -> FormedParagraphChecks {
    FormedParagraphChecks {
        identity_matches: true,
        text_len_matches: true,
        features_present: true,
        facts_valid: Ok(()),
        region_flow: false,
        region_cursor: false,
        transcript: None,
        slots_match: true,
    }
}

#[test]
fn a_formed_paragraph_passes_its_checks_in_order() {
    let p = paragraph(3);
    assert_eq!(check_formed_paragraph(p, passing_checks()), Ok(false));
    let in_regions = FormedParagraphChecks {
        region_flow: true,
        region_cursor: true,
        transcript: Some(true),
        ..passing_checks()
    };
    assert_eq!(check_formed_paragraph(p, in_regions), Ok(true));
    let wrong_length = FormedParagraphChecks { text_len_matches: false, slots_match: false, ..passing_checks() };
    assert_eq!(
        check_formed_paragraph(p, wrong_length).unwrap_err().kind(),
        SceneErrorKind::SourceCoverage
    );
    let invalid = SceneError::for_paragraph(SceneErrorKind::InvalidStyle, p);
    let bad_facts = FormedParagraphChecks { facts_valid: Err(invalid.clone()), slots_match: false, ..passing_checks() };
    assert_eq!(check_formed_paragraph(p, bad_facts), Err(invalid));
    let stale_transcript = FormedParagraphChecks {
        region_flow: true,
        region_cursor: true,
        transcript: Some(false),
        ..passing_checks()
    };
    assert_eq!(check_formed_paragraph(p, stale_transcript).unwrap_err().kind(), SceneErrorKind::Flow);
    let stray_transcript = FormedParagraphChecks { transcript: Some(true), ..passing_checks() };
    assert_eq!(check_formed_paragraph(p, stray_transcript).unwrap_err().kind(), SceneErrorKind::Flow);
    let slots = FormedParagraphChecks { slots_match: false, ..passing_checks() };
    assert_eq!(check_formed_paragraph(p, slots).unwrap_err().kind(), SceneErrorKind::Flow);
}

#[test]
fn formation_flows_through_regions_only_with_flow_and_cursor() {
    let p = paragraph(0);
    assert_eq!(formation_in_regions(p, true, true), Ok(true));
    assert_eq!(formation_in_regions(p, false, false), Ok(false));
    assert_eq!(formation_in_regions(p, true, false).unwrap_err().kind(), SceneErrorKind::Flow);
    assert_eq!(formation_in_regions(p, false, true).unwrap_err().paragraph(), Some(p));
}
