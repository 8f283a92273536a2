use officium_rs::data_types::{HorasFile, PsalmFile};
use officium_rs::horas::{
    annotation_is_office_context_only, collapse_paired_n_dot, first_at_path_inheritance,
    is_pre_da_sunday_with_2v_concession, section_via_inheritance,
    looks_like_corpus_path, lookup, ordinarium_file_for_hour, parse_antiphon_lines, psalm,
    replace_remaining_n_dot, rule_lectio_count, section, strip_te_deum_directive,
    substitute_saint_name, take_first_oratio_chunk, tempora_sunday_fallback,
    week_sunday_key_for_tempora, HorasCorpus, PsalmCorpus, HOUR_COMPLETORIUM, HOUR_LAUDES,
    HOUR_NONA, HOUR_PRIMA, HOUR_SEXTA, HOUR_TERTIA, HOUR_VESPERA,
};

#[test]
fn ordinarium_file_for_hour_maps_minor_hours() {
    assert_eq!(ordinarium_file_for_hour(HOUR_TERTIA), "Minor");
    assert_eq!(ordinarium_file_for_hour(HOUR_SEXTA), "Minor");
    assert_eq!(ordinarium_file_for_hour(HOUR_NONA), "Minor");
    assert_eq!(ordinarium_file_for_hour(HOUR_LAUDES), "Laudes");
    assert_eq!(ordinarium_file_for_hour(HOUR_PRIMA), "Prima");
    assert_eq!(ordinarium_file_for_hour(HOUR_VESPERA), "Vespera");
    assert_eq!(ordinarium_file_for_hour(HOUR_COMPLETORIUM), "Completorium");
}

#[test]
fn tempora_sunday_fallback_maps_ferials_to_sunday() {
    assert_eq!(tempora_sunday_fallback("Tempora/Epi3-4"), Some("Tempora/Epi3-0".to_string()));
    assert_eq!(tempora_sunday_fallback("Tempora/Epi4-0tt"), Some("Tempora/Epi4-0".to_string()));
    assert_eq!(tempora_sunday_fallback("Tempora/Pasc1-0"), None);
    assert_eq!(tempora_sunday_fallback("Sancti/05-04"), None);
}

#[test]
fn tempora_sunday_fallback_documented_shapes() {
    assert_eq!(tempora_sunday_fallback("Tempora/Quad5-5r"), Some("Tempora/Quad5-0".to_string()));
    assert_eq!(tempora_sunday_fallback("Tempora/Pasc2-5Feria"), Some("Tempora/Pasc2-0".to_string()));
    assert_eq!(tempora_sunday_fallback("Tempora/Pent03-2Feriao"), Some("Tempora/Pent03-0".to_string()));
    assert_eq!(tempora_sunday_fallback("Tempora/Nat"), None);
    assert_eq!(tempora_sunday_fallback("Tempora/Epi3-x"), None);
    assert_eq!(tempora_sunday_fallback("Tempora/Epi3-4x5"), None);
}

#[test]
fn week_sunday_keys() {
    assert_eq!(week_sunday_key_for_tempora("Tempora/Quad1-3"), Some("Tempora/Quad1-0".to_string()));
    assert_eq!(week_sunday_key_for_tempora("Tempora/Pent05-6"), Some("Tempora/Pent05-0".to_string()));
    assert_eq!(week_sunday_key_for_tempora("Sancti/05-04"), None);
    assert_eq!(week_sunday_key_for_tempora("Tempora/Nat1"), None);
}

#[test]
fn pre_da_sundays_concede_second_vespers() {
    assert!(is_pre_da_sunday_with_2v_concession("Tempora/Adv1-0"));
    assert!(is_pre_da_sunday_with_2v_concession("Tempora/Adv1-0o"));
    assert!(is_pre_da_sunday_with_2v_concession("Tempora/Pasc1-0t"));
    assert!(is_pre_da_sunday_with_2v_concession("Tempora/Quadp-0"));
    assert!(is_pre_da_sunday_with_2v_concession("Tempora/Quad5-0"));
    assert!(!is_pre_da_sunday_with_2v_concession("Tempora/Quad6-0"));
    assert!(!is_pre_da_sunday_with_2v_concession("Tempora/Epi1-0a"));
    assert!(!is_pre_da_sunday_with_2v_concession("Tempora/Adv1-1"));
    assert!(!is_pre_da_sunday_with_2v_concession("Sancti/12-08"));
}

#[test]
fn strip_te_deum_directive_handles_trailing_marker() {
    let (cleaned, found) = strip_te_deum_directive("Body text\n&teDeum");
    assert!(found);
    assert_eq!(cleaned, "Body text");

    let (cleaned, found) = strip_te_deum_directive("Body text\n&teDeum\n  \n");
    assert!(found);
    assert_eq!(cleaned, "Body text");

    let (cleaned, found) = strip_te_deum_directive("Body text without marker");
    assert!(!found);
    assert_eq!(cleaned, "Body text without marker");

    let (cleaned, found) = strip_te_deum_directive("Foo &teDeum then more text");
    assert!(!found);
    assert_eq!(cleaned, "Foo &teDeum then more text");
}

#[test]
fn rule_lectio_count_recognises_both_forms() {
    assert_eq!(rule_lectio_count("vide C7a;\n9 lectiones\n"), 9);
    assert_eq!(rule_lectio_count("3 lectiones\n"), 3);
    let r = "vide C5b;\n9 lectiones\n(sed rubrica cisterciensis) \n3 lectiones\n";
    assert_eq!(rule_lectio_count(r), 3);
    assert_eq!(rule_lectio_count("vide C7a;\n"), 9);
}

#[test]
fn rule_lectio_count_skips_guarded_lines() {
    assert_eq!(rule_lectio_count("3 lectiones\n(sed rubrica monastica) 9 lectiones"), 3);
    assert_eq!(rule_lectio_count("  3 lectiones  \r\n"), 3);
}

#[test]
fn parse_antiphon_lines_filters_blank() {
    let body = "Ant 1 body;;18\n\n  \nAnt 2 body;;33\nAnt 3 body;;44";
    let out = parse_antiphon_lines(body);
    assert_eq!(out.len(), 3);
    assert!(out[0].contains("Ant 1 body"));
    assert!(out[2].contains("Ant 3 body"));
}

#[test]
fn parse_antiphon_lines_trims_each_line() {
    assert_eq!(parse_antiphon_lines("  a;;1 \r\n\nb"), vec!["a;;1".to_string(), "b".to_string()]);
    assert!(parse_antiphon_lines("").is_empty());
}

#[test]
fn take_first_oratio_chunk_stops_at_separator() {
    assert_eq!(take_first_oratio_chunk("Deus, qui\nper Dominum.\n_\n@Commune/C2:Commemoratio"), "Deus, qui\nper Dominum.");
    assert_eq!(take_first_oratio_chunk("One line"), "One line");
    assert_eq!(take_first_oratio_chunk("\nA\n _ \nB"), "A");
}

#[test]
fn corpus_paths_and_annotations() {
    assert!(looks_like_corpus_path("Sancti/05-04"));
    assert!(looks_like_corpus_path("Psalterium/Common/Prayers"));
    assert!(!looks_like_corpus_path("sancti/05-04"));
    assert!(annotation_is_office_context_only("(ad missam)"));
    assert!(annotation_is_office_context_only(" ad Vesperas "));
    assert!(!annotation_is_office_context_only("Nisi rubrica 1960"));
    assert!(!annotation_is_office_context_only("rubrica monastica"));
    assert!(!annotation_is_office_context_only("Communi Summorum Pontificum"));
    assert!(!annotation_is_office_context_only("   "));
}

#[test]
fn substitute_saint_name_replaces_placeholder() {
    let body = "Deus, qui nos beáti N. Confessóris tui ánnua solemnitáte lætíficas: …";
    let got = substitute_saint_name(body, Some("Pauli"));
    assert!(got.contains("beáti Pauli Confessóris"), "got: {got}");
    assert!(!got.contains("N."), "placeholder leaked: {got}");
}

#[test]
fn substitute_saint_name_preserves_unicode() {
    let body = "intercéssor exsístat beátæ N. Vírginis: …";
    let got = substitute_saint_name(body, Some("Mónicæ"));
    assert!(got.contains("Mónicæ Vírginis"));
    assert!(got.contains("beátæ"));
}

#[test]
fn substitute_saint_name_no_op_when_name_missing() {
    let body = "Deus, qui nos beáti N. Confessóris tui";
    let got = substitute_saint_name(body, None);
    assert_eq!(got, body);
}

#[test]
fn substitute_saint_name_does_not_replace_inside_abbrev_chain() {
    let body = "See N.B. above.";
    let got = substitute_saint_name(body, Some("X"));
    assert_eq!(got, body);
}

#[test]
fn substitute_saint_name_collapses_paired_placeholders() {
    let got = substitute_saint_name("beatórum Mártyrum tuórum N. et N. natalítia", Some("Sotéris et Caji"));
    assert_eq!(got, "beatórum Mártyrum tuórum Sotéris et Caji natalítia");
    assert_eq!(collapse_paired_n_dot("N. only", "X"), "N. only");
    assert_eq!(replace_remaining_n_dot("N. and (N.), N.", "X"), "X and (N.), X");
    assert_eq!(replace_remaining_n_dot("N. and (N. ), N.", "X"), "X and (X ), X");
    assert_eq!(substitute_saint_name("N. here", Some("")), "N. here");
}

#[test]
fn corpus_lookup_and_sections() {
    let mut prayers = HorasFile::new();
    prayers.insert_section("Te Deum".to_string(), "Te Deum laudámus".to_string());
    let mut epi = HorasFile::new();
    epi.insert_section("Oratio".to_string(), "Epi oratio".to_string());
    let mut corpus = HorasCorpus::new();
    corpus.insert("Psalterium/Common/Prayers".to_string(), prayers);
    corpus.insert("Tempora/Epi5-5".to_string(), epi);
    let f = lookup(&corpus, "Psalterium/Common/Prayers").expect("prayers");
    assert_eq!(section(f, "Te Deum"), Some("Te Deum laudámus"));
    assert_eq!(section(f, "Missing"), None);
    let g = lookup(&corpus, "Tempora/PentEpi5-5").expect("PentEpi resolves to Epi");
    assert_eq!(section(g, "Oratio"), Some("Epi oratio"));
    assert!(lookup(&corpus, "Tempora/PentEpi6-0").is_none());
    assert!(lookup(&corpus, "Sancti/05-04").is_none());
}

#[test]
fn psalm_prefers_bea_only_when_present() {
    let mut psalms = PsalmCorpus::new();
    psalms.insert("Psalm1".to_string(), PsalmFile { latin: "Beátus vir".to_string(), latin_bea: "Beatus vir Bea".to_string() });
    psalms.insert("Psalm2".to_string(), PsalmFile { latin: "Quare".to_string(), latin_bea: String::new() });
    assert_eq!(psalm(&psalms, "Psalm1", false), Some("Beátus vir"));
    assert_eq!(psalm(&psalms, "Psalm1", true), Some("Beatus vir Bea"));
    assert_eq!(psalm(&psalms, "Psalm2", true), Some("Quare"));
    assert_eq!(psalm(&psalms, "Psalm3", false), None);
}

fn file_with(sections: &[(&str, &str)]) -> HorasFile {
    let mut f = HorasFile::new();
    for (name, body) in sections {
        f.insert_section(name.to_string(), body.to_string());
    }
    f
}

#[test]
fn preamble_inheritance_reads_first_nonblank_line() {
    let f = file_with(&[("__preamble__", "\n  @Commune/C10\n")]);
    assert_eq!(first_at_path_inheritance(&f), Some("Commune/C10".to_string()));
    let g = file_with(&[("__preamble__", "@Tempora/Pasc6-0:Oratio")]);
    assert_eq!(first_at_path_inheritance(&g), Some("Tempora/Pasc6-0".to_string()));
    let h = file_with(&[("__preamble__", "@Tempora/Pasc6-0\n(sed rubrica 1960 omittitur)")]);
    assert_eq!(first_at_path_inheritance(&h), Some("Tempora/Pasc6-0".to_string()));
}

#[test]
fn preamble_inheritance_needs_a_corpus_path() {
    assert_eq!(first_at_path_inheritance(&file_with(&[("__preamble__", "@Foo/Bar")])), None);
    assert_eq!(first_at_path_inheritance(&file_with(&[("__preamble__", "text\n@Commune/C10")])), None);
    assert_eq!(first_at_path_inheritance(&file_with(&[("Rule", "@Commune/C10")])), None);
    assert_eq!(first_at_path_inheritance(&file_with(&[("__preamble__", "  \n ")])), None);
}

#[test]
fn section_follows_whole_file_inheritance() {
    let mut corpus = HorasCorpus::new();
    corpus.insert(
        "Commune/C10".to_string(),
        file_with(&[("Oratio", "Concede nos famulos tuos"), ("Rule", "vide C11")]),
    );
    corpus.insert(
        "Commune/C10c".to_string(),
        file_with(&[("__preamble__", "@Commune/C10"), ("Oratio", "  \n")]),
    );
    let c10c = lookup(&corpus, "Commune/C10c").unwrap();
    assert_eq!(
        section_via_inheritance(&corpus, c10c, "Oratio"),
        Some("Concede nos famulos tuos".to_string())
    );
    assert_eq!(section_via_inheritance(&corpus, c10c, "Rule"), Some("vide C11".to_string()));
    assert_eq!(section_via_inheritance(&corpus, c10c, "Hymnus"), None);
    let own = file_with(&[("__preamble__", "@Commune/C10"), ("Oratio", "Deus qui")]);
    assert_eq!(section_via_inheritance(&corpus, &own, "Oratio"), Some("Deus qui".to_string()));
}

#[test]
fn section_inheritance_stops_after_four_parents() {
    let mut corpus = HorasCorpus::new();
    corpus.insert("Commune/A5".to_string(), file_with(&[("Oratio", "deep")]));
    for (key, parent) in [("Commune/A4", "@Commune/A5"), ("Commune/A3", "@Commune/A4"),
                          ("Commune/A2", "@Commune/A3"), ("Commune/A1", "@Commune/A2")] {
        corpus.insert(key.to_string(), file_with(&[("__preamble__", parent)]));
    }
    let a1 = file_with(&[("__preamble__", "@Commune/A2")]);
    assert_eq!(section_via_inheritance(&corpus, &a1, "Oratio"), Some("deep".to_string()));
    let a0 = file_with(&[("__preamble__", "@Commune/A1")]);
    assert_eq!(section_via_inheritance(&corpus, &a0, "Oratio"), None);
}

#[test]
fn section_falls_back_to_a_rubric_tagged_variant() {
    let f = file_with(&[
        ("Hymnus Vespera (sed rubrica monastica)", "Iste conféssor monasticus"),
        ("Oratio", "Deus qui"),
        ("Oratio (nisi rubrica 1960)", "Deus qui, alia"),
    ]);
    assert_eq!(section(&f, "Hymnus Vespera"), Some("Iste conféssor monasticus"));
    // The exact name wins over a tagged variant.
    assert_eq!(section(&f, "Oratio"), Some("Deus qui"));
    // Only `name (` counts as a tagged variant.
    assert_eq!(section(&f, "Hymnus"), None);
    assert_eq!(section(&f, "Capitulum"), None);
}
