use officium_rs::core_types::{
    CommuneType, Date, FileCategory, FileKey, Locale, OfficeInput, RankClass, Rubric,
};
use officium_rs::kalendaria_layers::Layer;

#[test]
fn date_format() {
    assert_eq!(Date::new(2026, 4, 30).to_string(), "2026-04-30");
    assert_eq!(Date::new(2026, 12, 25).to_string(), "2026-12-25");
}

#[test]
fn rubric_perl_version_strings() {
    assert_eq!(Rubric::Tridentine1570.as_perl_version(), "Tridentine - 1570");
    assert_eq!(Rubric::Tridentine1910.as_perl_version(), "Tridentine - 1906/1910");
    assert_eq!(Rubric::DivinoAfflatu1911.as_perl_version(), "Divino Afflatu");
    assert_eq!(Rubric::Reduced1955.as_perl_version(), "Reduced - 1955");
    assert_eq!(Rubric::Rubrics1960.as_perl_version(), "Rubrics 1960 - 1960");
    assert_eq!(Rubric::Monastic.as_perl_version(), "pre-Trident Monastic");
}

#[test]
fn rank_class_ordering() {
    assert!(RankClass::First < RankClass::Second);
    assert!(RankClass::Second < RankClass::Third);
    assert!(RankClass::Third < RankClass::Fourth);
}

#[test]
fn file_key_roundtrip() {
    for s in [
        "Sancti/04-29",
        "Tempora/Pasc3-0",
        "Commune/C2a-1",
        "SanctiM/01-01",
        "SanctiOP/04-30",
        "SanctiCist/06-06AV",
        "OtherCategory/foo",
    ] {
        let k = FileKey::parse(s);
        assert_eq!(k.render(), s, "roundtrip mismatch on {s:?}");
        assert_eq!(k.to_string(), s);
    }
}

#[test]
fn file_key_no_slash() {
    let k = FileKey::parse("bare");
    assert_eq!(k.render(), "bare");
    assert!(matches!(k.category, FileCategory::Other(ref s) if s.is_empty()));
}

#[test]
fn office_input_is_copy() {
    let i = OfficeInput {
        date: Date::new(2026, 4, 30),
        rubric: Rubric::Tridentine1570,
        locale: Locale::Latin,
        is_mass_context: true,
    };
    let j = i;
    let _set: std::collections::HashSet<OfficeInput> = [i, j].into_iter().collect();
}

#[test]
fn all_roman_excludes_monastic() {
    assert_eq!(Rubric::ALL_ROMAN.len(), 5);
    assert!(!Rubric::ALL_ROMAN.contains(&Rubric::Monastic));
}

#[test]
fn rubric_kalendar_layer_mapping() {
    assert_eq!(Rubric::Tridentine1570.kalendar_layer(), Layer::Pius1570);
    assert_eq!(Rubric::Tridentine1910.kalendar_layer(), Layer::PiusX1906);
    assert_eq!(Rubric::DivinoAfflatu1911.kalendar_layer(), Layer::PiusXI1939);
    assert_eq!(Rubric::Reduced1955.kalendar_layer(), Layer::PiusXII1955);
    assert_eq!(Rubric::Rubrics1960.kalendar_layer(), Layer::JohnXXIII1960);
    assert_eq!(Rubric::Monastic.kalendar_layer(), Layer::Pius1570);
}

#[test]
fn file_key_parse_categories() {
    let k = FileKey::parse("Sancti/04-29");
    assert_eq!(k.category, FileCategory::Sancti);
    assert_eq!(k.stem, "04-29");
    let k = FileKey::parse("Tempora/Pasc3-0/extra");
    assert_eq!(k.category, FileCategory::Tempora);
    assert_eq!(k.stem, "Pasc3-0/extra");
    let k = FileKey::parse("Foo/bar");
    assert_eq!(k.category, FileCategory::Other("Foo".to_string()));
    // A leading `/` leaves an empty prefix, which renders without it.
    let k = FileKey::parse("/x");
    assert_eq!(k.render(), "x");
}

#[test]
fn rubric_slugs_and_transfer_tags() {
    assert_eq!(Rubric::Tridentine1570.slug(), "trid-1570");
    assert_eq!(Rubric::DivinoAfflatu1911.slug(), "divino-afflatu");
    assert_eq!(Rubric::Monastic.slug(), "monastic");
    assert_eq!(Rubric::Tridentine1910.transfer_rubric_tag(), "1906");
    assert_eq!(Rubric::DivinoAfflatu1911.transfer_rubric_tag(), "DA");
    assert_eq!(Rubric::Reduced1955.transfer_rubric_tag(), "1960");
    assert_eq!(Rubric::Monastic.transfer_rubric_tag(), "M1617");
}

#[test]
fn rank_class_labels() {
    assert_eq!(RankClass::First.label(), "I classis");
    assert_eq!(RankClass::Fourth.label(), "IV classis");
}

#[test]
fn date_format_pads_small_years() {
    assert_eq!(Date::new(33, 4, 5).to_string(), "0033-04-05");
    assert_ne!(CommuneType::NoCommune, CommuneType::Vide);
}
