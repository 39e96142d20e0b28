use underwood::{SceneResidency, SceneResidencyBytes};

fn bytes(structure: usize, layout: usize, paint: usize) -> SceneResidencyBytes {
    let mut b = SceneResidencyBytes::from_categories(layout, paint, 1, 2, 3, 4, 5, 6);
    b.add_structure(structure);
    b
}

#[test]
fn categories_start_without_structure_bytes() {
    let b = SceneResidencyBytes::from_categories(10, 20, 1, 2, 3, 4, 5, 6);
    assert_eq!(b.structure, 0);
    assert_eq!(b.layout, 10);
    assert_eq!(b.native_text_input, 6);
    assert_eq!(b.total(), 51);
}

#[test]
fn total_is_the_saturating_sum_of_every_category() {
    assert_eq!(SceneResidencyBytes::default().total(), 0);
    assert_eq!(bytes(7, 10, 20).total(), 58);
    assert_eq!(bytes(usize::MAX, 10, 20).total(), usize::MAX);
    assert_eq!(bytes(usize::MAX - 50, 10, 20).total(), usize::MAX);
}

#[test]
fn adding_charges_saturates_each_category() {
    let mut a = bytes(1, 2, usize::MAX - 1);
    a.add_assign(bytes(10, 20, 5));
    assert_eq!(a.structure, 11);
    assert_eq!(a.layout, 22);
    assert_eq!(a.paint, usize::MAX);
    assert_eq!(a.sources, 2);
    let before = a.total();
    a.add_assign(SceneResidencyBytes::default());
    assert_eq!(a.total(), before);
}

#[test]
fn scene_residency_sums_node_bytes_and_paragraph_charges() {
    let residency = SceneResidency::from_segments(2, 100, &[bytes(0, 10, 20), bytes(0, 1, 2)]);
    assert_eq!(residency.paragraphs, 2);
    assert_eq!(residency.bytes.structure, 100);
    assert_eq!(residency.bytes.layout, 11);
    assert_eq!(residency.bytes.paint, 22);
    assert_eq!(residency.bytes.sources, 2);
    assert_eq!(SceneResidency::default().bytes, SceneResidencyBytes::default());
}
