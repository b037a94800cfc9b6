use nucleotide::config::FontWeight;

#[test]
fn test_font_weight_serialization() {
    let name: String = serde_json::from_str("\"semibold\"").expect("Failed to deserialize FontWeight");
    assert_eq!(FontWeight::from_name(&name), Some(FontWeight::SemiBold));

    let name: String = serde_json::from_str("\"bold\"").expect("Failed to deserialize FontWeight");
    assert_eq!(FontWeight::from_name(&name), Some(FontWeight::Bold));

    assert_eq!(FontWeight::Bold.weight_value(), 700);
    assert_eq!(FontWeight::Normal.weight_value(), 400);
}

#[test]
fn weight_names_round_trip() {
    let all = [
        FontWeight::Thin,
        FontWeight::ExtraLight,
        FontWeight::Light,
        FontWeight::Normal,
        FontWeight::Medium,
        FontWeight::SemiBold,
        FontWeight::Bold,
        FontWeight::ExtraBold,
        FontWeight::Black,
    ];
    for w in all {
        assert_eq!(FontWeight::from_name(w.name()), Some(w));
    }
    assert_eq!(FontWeight::from_name("heavy"), None);
    assert_eq!(FontWeight::default(), FontWeight::Normal);
    assert_eq!(FontWeight::Thin.weight_value(), 100);
    assert_eq!(FontWeight::Black.weight_value(), 900);
}
