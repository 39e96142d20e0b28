use underwood::vec_bytes;

#[test]
fn byte_accounting_saturates_instead_of_wrapping() {
    assert_eq!(vec_bytes::<[u8; 2]>(usize::MAX), usize::MAX);
}

use underwood::{accounted_node_bytes, saturating_mul, text_fingerprint};

#[test]
fn vec_bytes_charges_element_size_times_capacity() {
    assert_eq!(vec_bytes::<u32>(5), 20);
    assert_eq!(vec_bytes::<u64>(0), 0);
    assert_eq!(vec_bytes::<u64>(usize::MAX / 4), usize::MAX);
}

#[test]
fn saturating_products_stop_at_the_largest_usize() {
    assert_eq!(saturating_mul(6, 7), 42);
    assert_eq!(saturating_mul(usize::MAX, 2), usize::MAX);
    assert_eq!(saturating_mul(0, usize::MAX), 0);
}

#[test]
fn scene_tree_nodes_are_charged_two_per_paragraph_less_one() {
    assert_eq!(accounted_node_bytes::<[u8; 8]>(0), 0);
    assert_eq!(accounted_node_bytes::<[u8; 8]>(1), 8);
    assert_eq!(accounted_node_bytes::<[u8; 8]>(3), 40);
    assert_eq!(accounted_node_bytes::<u8>(usize::MAX), usize::MAX - 1);
    assert_eq!(accounted_node_bytes::<[u8; 2]>(usize::MAX), usize::MAX);
}

#[test]
fn text_fingerprint_is_fnv1a_of_the_utf8_bytes() {
    assert_eq!(text_fingerprint(""), 0xcbf2_9ce4_8422_2325);
    assert_eq!(text_fingerprint("a"), 0xaf63_dc4c_8601_ec8c);
    assert_ne!(text_fingerprint("ab"), text_fingerprint("ba"));
}
