use underwood::{canonical_features, FontFeature, Tag};

#[test]
fn tags_order_by_their_bytes() {
    let kern = Tag::new(b"kern");
    let liga = Tag::new(b"liga");
    assert_eq!(kern.0, 0x6b65_726e);
    assert!(kern.0 < liga.0);
}

#[test]
fn feature_settings_are_canonical_and_last_wins() {
    let liga = Tag::new(b"liga");
    let kern = Tag::new(b"kern");
    let canonical = canonical_features(vec![
        FontFeature::new(liga, 1),
        FontFeature::new(kern, 0),
        FontFeature::new(liga, 0),
    ]);
    assert_eq!(
        canonical,
        vec![FontFeature::new(kern, 0), FontFeature::new(liga, 0)]
    );
}

#[test]
fn canonical_features_of_nothing_is_nothing() {
    assert!(canonical_features::<u16>(Vec::new()).is_empty());
}

#[test]
fn canonical_features_sort_distinct_tags() {
    let smcp = Tag::new(b"smcp");
    let calt = Tag::new(b"calt");
    let onum = Tag::new(b"onum");
    let canonical = canonical_features(vec![
        FontFeature::new(smcp, 1),
        FontFeature::new(calt, 0),
        FontFeature::new(onum, 1),
    ]);
    assert_eq!(
        canonical,
        vec![
            FontFeature::new(calt, 0),
            FontFeature::new(onum, 1),
            FontFeature::new(smcp, 1),
        ]
    );
}

#[test]
fn settings_of_any_value_type_canonicalize_alike() {
    let wght = Tag::new(b"wght");
    let opsz = Tag::new(b"opsz");
    let canonical = canonical_features(vec![
        underwood::FontSetting::new(wght, 400_i32),
        underwood::FontSetting::new(opsz, 16),
        underwood::FontSetting::new(wght, 700),
    ]);
    assert_eq!(
        canonical,
        vec![
            underwood::FontSetting::new(opsz, 16),
            underwood::FontSetting::new(wght, 700),
        ]
    );
}
