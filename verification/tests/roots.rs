use underwood::{
    dropped_roots, eviction_rank, root_use_for, CacheKind, CompositionRoot, DocumentId,
    DroppedRoots, ParagraphId, PublishedRoots,
};

fn paragraph(index: u32) -> ParagraphId {
    ParagraphId::new(DocumentId::from_bytes(*b"published-roots1"), index)
}

fn roots() -> PublishedRoots {
    PublishedRoots {
        document: Some(7),
        block: Some(9),
        composition: Some(CompositionRoot { target: paragraph(1), last_used: 12 }),
    }
}

#[test]
fn committed_entries_are_pinned_by_document_block_and_sibling_compositions() {
    assert_eq!(root_use_for(CacheKind::Committed, paragraph(0), roots()), 12);
    assert_eq!(root_use_for(CacheKind::Committed, paragraph(1), roots()), 9);
    let bare = PublishedRoots { document: None, block: None, composition: None };
    assert_eq!(root_use_for(CacheKind::Committed, paragraph(0), bare), 0);
    let document_only = PublishedRoots { document: Some(4), ..bare };
    assert_eq!(root_use_for(CacheKind::Committed, paragraph(0), document_only), 4);
}

#[test]
fn composition_entries_are_pinned_only_by_their_own_scene() {
    assert_eq!(root_use_for(CacheKind::Composition, paragraph(1), roots()), 12);
    assert_eq!(root_use_for(CacheKind::Composition, paragraph(0), roots()), 0);
}

#[test]
fn an_entry_ranks_by_the_later_of_its_use_and_its_roots() {
    assert_eq!(eviction_rank(CacheKind::Committed, paragraph(0), 3, roots()), 12);
    assert_eq!(eviction_rank(CacheKind::Committed, paragraph(1), 30, roots()), 30);
    assert_eq!(eviction_rank(CacheKind::Composition, paragraph(2), 5, roots()), 5);
}

#[test]
fn evictions_drop_only_the_roots_they_invalidate() {
    assert_eq!(
        dropped_roots(CacheKind::Committed, paragraph(0), roots()),
        DroppedRoots { document: true, block: true, composition: true }
    );
    assert_eq!(
        dropped_roots(CacheKind::Committed, paragraph(1), roots()),
        DroppedRoots { document: true, block: true, composition: false }
    );
    assert_eq!(
        dropped_roots(CacheKind::Composition, paragraph(1), roots()),
        DroppedRoots { document: false, block: false, composition: true }
    );
}
