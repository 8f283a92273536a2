use officium_rs::breviary::horas::{ad_horam_heading, resolve_psalter_variant, Hour};
use officium_rs::core_types::Rubric;

#[test]
fn hour_as_str_round_trip() {
    for h in Hour::ALL {
        assert_eq!(Hour::parse(h.as_str()), Some(h), "round-trip failed for {h:?}");
    }
}

#[test]
fn hour_parse_accepts_vesperae_alias() {
    assert_eq!(Hour::parse("Vesperae"), Some(Hour::Vespera));
    assert_eq!(Hour::parse("Vespera"), Some(Hour::Vespera));
}

#[test]
fn hour_parse_rejects_unknown() {
    assert_eq!(Hour::parse("NotAnHour"), None);
    assert_eq!(Hour::parse(""), None);
    assert_eq!(Hour::parse("vespera"), None);
}

#[test]
fn ordinarium_filename_collapses_minor_hours() {
    assert_eq!(Hour::Tertia.ordinarium_filename(), "Minor");
    assert_eq!(Hour::Sexta.ordinarium_filename(), "Minor");
    assert_eq!(Hour::Nona.ordinarium_filename(), "Minor");
    assert_eq!(Hour::Matutinum.ordinarium_filename(), "Matutinum");
    assert_eq!(Hour::Laudes.ordinarium_filename(), "Laudes");
    assert_eq!(Hour::Prima.ordinarium_filename(), "Prima");
    assert_eq!(Hour::Vespera.ordinarium_filename(), "Vespera");
    assert_eq!(Hour::Completorium.ordinarium_filename(), "Completorium");
}

#[test]
fn ad_horam_heading_matches_perl_adhoram() {
    assert_eq!(ad_horam_heading(Hour::Matutinum), "Ad Matutinum");
    assert_eq!(ad_horam_heading(Hour::Laudes), "Ad Laudes");
    assert_eq!(ad_horam_heading(Hour::Prima), "Ad Primam");
    assert_eq!(ad_horam_heading(Hour::Tertia), "Ad Tertiam");
    assert_eq!(ad_horam_heading(Hour::Sexta), "Ad Sextam");
    assert_eq!(ad_horam_heading(Hour::Nona), "Ad Nonam");
    assert_eq!(ad_horam_heading(Hour::Vespera), "Ad Vesperas");
    assert_eq!(ad_horam_heading(Hour::Completorium), "Ad Completorium");
}

#[test]
fn resolve_psalter_variant_swaps_under_psalmvar() {
    assert_eq!(resolve_psalter_variant(Rubric::Tridentine1570, false), (false, "Latin"));
    assert_eq!(resolve_psalter_variant(Rubric::Rubrics1960, false), (false, "Latin"));
    assert_eq!(resolve_psalter_variant(Rubric::Tridentine1570, true), (true, "Latin-Bea"));
    assert_eq!(resolve_psalter_variant(Rubric::Rubrics1960, true), (true, "Latin-Bea"));
}

#[test]
fn hour_all_is_canonical_order() {
    let names: Vec<&str> = Hour::ALL.iter().map(|h| h.as_str()).collect();
    assert_eq!(
        names,
        vec!["Matutinum", "Laudes", "Prima", "Tertia", "Sexta", "Nona", "Vespera", "Completorium"],
    );
}
