use underwood::{
    fragment_identity, DocumentId, ParagraphId, SceneError, SceneErrorKind, SelectionError,
    SelectionErrorKind, StyleError, StyleErrorKind, TextId,
};

#[test]
fn document_identities_round_trip_their_bytes() {
    let bytes = *b"round-trip-doc-1";
    let id = DocumentId::from_bytes(bytes);
    assert_eq!(id.opaque_bytes(), bytes);
    assert_ne!(id, DocumentId::from_bytes(*b"round-trip-doc-2"));
}

#[test]
fn paragraph_and_text_identities_keep_their_parts() {
    let document = DocumentId::from_bytes(*b"identity-test-01");
    let paragraph = ParagraphId::new(document, 4);
    assert_eq!(paragraph.document, document);
    assert_eq!(paragraph.index, 4);
    let text = TextId::new(document, 4, 2);
    assert_eq!((text.document, text.paragraph, text.index), (document, 4, 2));
}

#[test]
fn fragment_identity_hashes_document_paragraph_and_fragment() {
    let first = ParagraphId::new(DocumentId::from_bytes(*b"scene-test-doc02"), 0);
    let second = ParagraphId::new(DocumentId::from_bytes(*b"scene-test-doc03"), 0);
    assert_ne!(fragment_identity(first, 0), fragment_identity(second, 0));
    assert_ne!(fragment_identity(first, 0), fragment_identity(first, 1));
    assert_eq!(fragment_identity(first, 5), fragment_identity(first, 5));
}

#[test]
fn scene_errors_name_what_they_concern() {
    let paragraph = ParagraphId::new(DocumentId::from_bytes(*b"error-test-doc-1"), 2);
    let plain = SceneError::new(SceneErrorKind::InvalidWidth);
    assert_eq!(plain.kind(), SceneErrorKind::InvalidWidth);
    assert_eq!(plain.document(), None);
    let document = SceneError::for_document(SceneErrorKind::InvalidStyle, paragraph.document);
    assert_eq!(document.document(), Some(paragraph.document));
    assert_eq!(document.paragraph(), None);
    let para = SceneError::for_paragraph(SceneErrorKind::InvalidFeatures, paragraph);
    assert_eq!(para.paragraph(), Some(paragraph));
    assert_eq!(para.document(), Some(paragraph.document));
    assert_eq!(para.source(), None);
    let source = SceneError::for_source(SceneErrorKind::SourceCoverage, paragraph, 3..5);
    assert_eq!(source.kind(), SceneErrorKind::SourceCoverage);
    assert_eq!(source.source(), Some(3..5));
    assert_eq!(SceneError::new(SceneErrorKind::Flow).kind(), SceneErrorKind::Flow);
}

#[test]
fn style_and_selection_errors_keep_their_kind() {
    let style = StyleError::new(StyleErrorKind::InvalidNumber);
    assert_eq!(style.kind(), StyleErrorKind::InvalidNumber);
    assert_eq!(style.paint(), None);
    assert_eq!(
        StyleError::new(StyleErrorKind::InvalidFontFamily).kind(),
        StyleErrorKind::InvalidFontFamily
    );
    let selection = SelectionError::new(SelectionErrorKind::OverlappingSelections);
    assert_eq!(selection.kind(), SelectionErrorKind::OverlappingSelections);
}

#[test]
fn identities_order_by_their_bytes_in_order() {
    let mut low_first = [0u8; 16];
    low_first[0] = 1;
    low_first[7] = 0xff;
    let mut high_first = [0u8; 16];
    high_first[0] = 2;
    assert!(DocumentId::from_bytes(low_first) < DocumentId::from_bytes(high_first));

    let mut early = [7u8; 16];
    early[8] = 3;
    early[15] = 0xff;
    let mut late = [7u8; 16];
    late[8] = 4;
    late[15] = 0;
    assert!(DocumentId::from_bytes(early) < DocumentId::from_bytes(late));

    let document = DocumentId::from_bytes(early);
    assert!(ParagraphId::new(document, 1) < ParagraphId::new(document, 2));
    assert!(ParagraphId::new(document, 9) < ParagraphId::new(DocumentId::from_bytes(late), 0));
    assert_eq!(DocumentId::from_bytes(early).opaque_bytes(), early);
}

#[test]
fn fragment_identity_is_distinct_across_documents() {
    let first = ParagraphId::new(DocumentId::from_bytes(*b"scene-test-doc02"), 0);
    let second = ParagraphId::new(DocumentId::from_bytes(*b"scene-test-doc03"), 0);
    assert_ne!(
        fragment_identity(first, 0),
        fragment_identity(second, 0),
        "document identity must participate in retained fragment identity"
    );
}

#[test]
fn selection_errors_report_their_kind() {
    for kind in [
        SelectionErrorKind::OverlappingSelections,
        SelectionErrorKind::WrongSnapshot,
        SelectionErrorKind::UnknownPosition,
        SelectionErrorKind::DisconnectedMovement,
    ] {
        assert_eq!(SelectionError::new(kind).kind(), kind);
    }
    assert_ne!(
        SelectionError::new(SelectionErrorKind::WrongSnapshot),
        SelectionError::new(SelectionErrorKind::UnknownPosition)
    );
}
