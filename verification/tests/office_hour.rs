use officium_rs::core_types::Rubric;
use officium_rs::data_types::{HorasFile, OrdoLine};
use officium_rs::horas::{HorasCorpus, OfficeArgs};
use officium_rs::kalendaria_layers::KalendariaTable;
use officium_rs::office_day::{commune_chain, compute_office_hour, first_vespers_day_key};
use officium_rs::office_hour::{expand_at_redirect, render_office_hour, splice_proper_into_slot, RenderedLine};

fn file_with(sections: &[(&str, &str)]) -> HorasFile {
    let mut f = HorasFile::new();
    for (name, body) in sections {
        f.insert_section(name.to_string(), body.to_string());
    }
    f
}

fn line(kind: &str) -> OrdoLine {
    OrdoLine { kind: kind.to_string(), ..Default::default() }
}

fn section_line(label: &str) -> OrdoLine {
    OrdoLine { label: Some(label.to_string()), ..line("section") }
}

fn corpus() -> HorasCorpus {
    let mut vespera = HorasFile::new();
    vespera.push_template_line(OrdoLine { name: Some("Deus_in_adjutorium".to_string()), ..line("macro") });
    vespera.push_template_line(OrdoLine { level: Some(1), body: Some("Dicitur Pater noster.".to_string()), ..line("rubric") });
    vespera.push_template_line(line("blank"));
    vespera.push_template_line(section_line("Oratio"));
    vespera.push_template_line(OrdoLine {
        role: Some("V.".to_string()),
        body: Some("Dóminus vobíscum.".to_string()),
        ..line("spoken")
    });
    vespera.push_template_line(OrdoLine { body: Some("$Per Dominum".to_string()), ..line("plain") });
    vespera.push_template_line(OrdoLine { name: Some("Oratio".to_string()), ..line("proper") });
    let mut completorium = HorasFile::new();
    completorium.push_template_line(section_line("Oratio"));
    completorium.push_template_line(OrdoLine { body: Some("Visita, quǽsumus".to_string()), ..line("plain") });
    completorium.push_template_line(section_line("Conclusio"));
    completorium.push_template_line(OrdoLine { body: Some("Benedicámus Dómino.".to_string()), ..line("plain") });
    let prayers = file_with(&[
        ("Deus in adjutorium", "V. Deus in adjutórium meum inténde."),
        ("Per Dominum", "Per Dóminum nostrum."),
    ]);
    let mut c = HorasCorpus::new();
    c.insert("Ordinarium/Vespera".to_string(), vespera);
    c.insert("Ordinarium/Completorium".to_string(), completorium);
    c.insert("Psalterium/Common/Prayers".to_string(), prayers);
    c
}

fn args<'a>(hour: &'a str, day_key: Option<&'a str>, rubrics: bool) -> OfficeArgs<'a> {
    OfficeArgs { year: 2026, month: 5, day: 4, rubric: Rubric::Tridentine1570, hour, rubrics, day_key }
}

fn plain(s: &str) -> RenderedLine {
    RenderedLine::Plain { body: s.to_string() }
}

#[test]
fn compute_office_hour_unknown_hour_returns_empty() {
    let c = corpus();
    let t = KalendariaTable::new();
    assert!(compute_office_hour(&c, &t, &args("NotAnHour", None, true)).is_empty());
}

#[test]
fn vespera_with_day_key_none_matches_b2_behaviour() {
    let c = day_corpus();
    let t = KalendariaTable::new();
    let lines = compute_office_hour(&c, &t, &args("Vespera", None, true));
    for window in lines.windows(2) {
        if let (RenderedLine::Section { label }, RenderedLine::Plain { body }) = (&window[0], &window[1]) {
            assert!(!(label == "Oratio" && body.contains("Mónicæ")), "B2 mode should not splice proper bodies");
        }
    }
}

#[test]
fn vespera_walks_the_template_and_splices_the_oratio() {
    let c = corpus();
    let day = file_with(&[("Oratio", "Deus, mæréntium consolátor, N. intercessióne.\n$Per Dominum"), ("Name", "Mónicæ")]);
    let chain = [&day];
    let lines = render_office_hour(&c, &args("Vespera", Some("Sancti/05-04"), true), &chain, false);
    assert_eq!(
        lines,
        vec![
            RenderedLine::Macro {
                name: "Deus_in_adjutorium".to_string(),
                body: "V. Deus in adjutórium meum inténde.".to_string()
            },
            RenderedLine::Rubric { body: "Dicitur Pater noster.".to_string(), level: 1 },
            RenderedLine::Section { label: "Oratio".to_string() },
            plain("Deus, mæréntium consolátor, Mónicæ intercessióne.\nPer Dóminum nostrum."),
            RenderedLine::Spoken { role: "V.".to_string(), body: "Dóminus vobíscum.".to_string() },
            plain("Per Dóminum nostrum."),
            RenderedLine::Proper { section: "Oratio".to_string() },
        ]
    );
}

#[test]
fn level_one_rubrics_follow_the_toggle() {
    let c = corpus();
    let lines = render_office_hour(&c, &args("Vespera", None, false), &[], false);
    assert!(!lines.iter().any(|l| matches!(l, RenderedLine::Rubric { .. })));
    assert_eq!(lines.len(), 5);
}

#[test]
fn holy_week_compline_leaves_out_the_oratio_block() {
    let c = corpus();
    let lines = render_office_hour(&c, &args("Completorium", Some("Tempora/Quad6-5"), true), &[], false);
    assert_eq!(
        lines,
        vec![RenderedLine::Section { label: "Conclusio".to_string() }, plain("Benedicámus Dómino.")]
    );
    let ordinary = render_office_hour(&c, &args("Completorium", Some("Tempora/Quad5-5"), true), &[], false);
    assert_eq!(ordinary.len(), 4);
    assert_eq!(ordinary[1], plain("Visita, quǽsumus"));
}

#[test]
fn splice_prefers_the_winners_own_oratio_forms() {
    let day = file_with(&[("Oratio 2", "Præsta, Dómine.\n_\nsecunda"), ("Name", "(sed rubrica 1570)\nAnt=Hilári\n  Hilárii  ")]);
    let commune = file_with(&[("Oratio 3", "Inclinántes se")]);
    let chain = [&day, &commune];
    let mut out = Vec::new();
    splice_proper_into_slot(&mut out, &HorasCorpus::new(), "Oratio", "Vespera", Rubric::Tridentine1570, &chain, None, None, 2026, 5, 4);
    assert_eq!(out, vec![plain("Præsta, Dómine.")]);
}

#[test]
fn splice_searches_the_chain_and_follows_self_redirects() {
    let day = file_with(&[("Name", "Hilárii")]);
    let commune = file_with(&[("Oratio", "@:Oratio 1 loco\n"), ("Oratio 1 loco", "Da, quǽsumus, N. conféssor")]);
    let chain = [&day, &commune];
    let mut out = vec![plain("before")];
    splice_proper_into_slot(&mut out, &HorasCorpus::new(), "Oratio", "Laudes", Rubric::Tridentine1570, &chain, None, None, 2026, 5, 4);
    assert_eq!(out, vec![plain("before"), plain("Da, quǽsumus, Hilárii conféssor")]);
}

#[test]
fn splice_hymn_slot_falls_back_to_the_hymn() {
    let commune = file_with(&[("Hymnus Vespera", "Iste conféssor")]);
    let chain = [&commune];
    let mut out = Vec::new();
    splice_proper_into_slot(&mut out, &HorasCorpus::new(), "Capitulum Hymnus Versus", "Vespera", Rubric::Tridentine1570, &chain, None, None, 2026, 5, 4);
    assert_eq!(out, vec![plain("Iste conféssor")]);
    let mut none = Vec::new();
    splice_proper_into_slot(&mut none, &HorasCorpus::new(), "Oratio", "Prima", Rubric::Tridentine1570, &chain, None, None, 2026, 5, 4);
    splice_proper_into_slot(&mut none, &HorasCorpus::new(), "Oratio", "Vespera", Rubric::Tridentine1570, &[], None, None, 2026, 5, 4);
    assert!(none.is_empty());
}

fn section(label: &str) -> RenderedLine {
    RenderedLine::Section { label: label.to_string() }
}

#[test]
fn matins_three_lessons_with_antiphon_and_te_deum() {
    let day = file_with(&[
        ("Rule", "vide C11\n3 lectiones"),
        ("Ant Matutinum", "Ave María, grátia plena;;8\n\n"),
        ("Lectio1", "Lectio prima."),
        ("Responsory1", "R. Beáta es, Virgo María, quæ Dóminum portásti."),
        ("Lectio2", "Lectio secunda."),
        ("Responsory2", "vide C11"),
        ("Lectio3", "Lectio tertia.\n&teDeum"),
    ]);
    let prayers = file_with(&[("Te Deum", "Te Deum laudámus")]);
    let chain = [&day];
    let mut out = Vec::new();
    splice_proper_into_slot(&mut out, &HorasCorpus::new(), "Psalmi cum lectionibus", "Matutinum", Rubric::Tridentine1570, &chain, Some(&prayers), None, 2026, 5, 4);
    assert_eq!(
        out,
        vec![
            section("Ant Matutinum 1"),
            plain("Ave María, grátia plena;;8"),
            section("Lectio1"),
            plain("Lectio prima."),
            section("Responsory1"),
            plain("R. Beáta es, Virgo María, quæ Dóminum portásti."),
            section("Lectio2"),
            plain("Lectio secunda."),
            section("Lectio3"),
            plain("Lectio tertia."),
            RenderedLine::Macro { name: "Te_Deum".to_string(), body: "Te Deum laudámus".to_string() },
        ]
    );
}

#[test]
fn matins_nine_lessons_spread_the_antiphons_over_nocturns() {
    let ants = "a1\na2\na3\na4\na5\na6\na7\na8\na9";
    let day = file_with(&[("Ant Matutinum", ants), ("Lectio1", "L1"), ("Lectio4", "L4"), ("Lectio7", "L7")]);
    let chain = [&day];
    let mut out = Vec::new();
    splice_proper_into_slot(&mut out, &HorasCorpus::new(), "Psalmi cum lectionibus", "Matutinum", Rubric::Tridentine1570, &chain, None, None, 2026, 5, 4);
    assert_eq!(out.len(), 3 * (1 + 3 + 2));
    assert_eq!(out[0], section("Ant Matutinum 1"));
    assert_eq!(out[4], section("Lectio1"));
    assert_eq!(out[6], section("Ant Matutinum 2"));
    assert_eq!(out[7], plain("a4"));
    assert_eq!(out[12], section("Ant Matutinum 3"));
    assert_eq!(out[17], plain("L7"));
}

#[test]
fn minor_hours_share_one_template() {
    let mut minor = HorasFile::new();
    minor.push_template_line(section_line("Capitulum Responsorium Versus"));
    minor.push_template_line(section_line("Oratio"));
    let mut c = HorasCorpus::new();
    c.insert("Ordinarium/Minor".to_string(), minor);
    let day = file_with(&[("Oratio", "Deus, N. precibus"), ("Name", "Mónicæ"), ("Capitulum Sexta", "Cap. Sextæ")]);
    let chain = [&day];
    for hour in ["Tertia", "Sexta", "Nona"] {
        let lines = render_office_hour(&c, &args(hour, Some("Sancti/05-04"), true), &chain, false);
        let k = lines.iter().position(|l| *l == section("Oratio")).unwrap();
        assert_eq!(lines[k + 1], plain("Deus, Mónicæ precibus"));
        if hour == "Sexta" {
            assert_eq!(lines[1], plain("Cap. Sextæ"));
        } else {
            assert_eq!(lines[1], section("Oratio"));
        }
    }
}

// ─── A small corpus of real days ─────────────────────────────────────

fn hour_template(sections: &[&str]) -> HorasFile {
    let mut f = HorasFile::new();
    f.push_template_line(OrdoLine { name: Some("Deus_in_adjutorium".to_string()), ..line("macro") });
    for s in sections {
        f.push_template_line(section_line(s));
    }
    f
}

fn day_corpus() -> HorasCorpus {
    let mut c = HorasCorpus::new();
    c.insert("Ordinarium/Vespera".to_string(), hour_template(&["Incipit", "Psalmi", "Capitulum Hymnus Versus", "Canticum: Magnificat", "Oratio", "Conclusio"]));
    c.insert("Ordinarium/Laudes".to_string(), hour_template(&["Psalmi", "Capitulum Hymnus Versus", "Canticum: Benedictus", "Oratio"]));
    c.insert("Ordinarium/Prima".to_string(), hour_template(&["Psalmi", "Capitulum Versus", "Oratio"]));
    c.insert("Ordinarium/Minor".to_string(), hour_template(&["Psalmi", "Capitulum Responsorium Versus", "Oratio"]));
    c.insert("Ordinarium/Completorium".to_string(), hour_template(&["Psalmi", "Capitulum Versus", "Canticum: Nunc dimittis", "Oratio"]));
    c.insert("Ordinarium/Matutinum".to_string(), hour_template(&["Invitatorium", "Psalmi cum lectionibus", "Oratio"]));
    c.insert("Psalterium/Common/Prayers".to_string(), file_with(&[
        ("Deus in adjutorium", "V. Deus in adjutórium meum inténde."),
        ("Te Deum", "Te Deum laudámus: * te Dóminum confitémur."),
    ]));
    c.insert("Sancti/05-04".to_string(), file_with(&[
        ("Officium", "S. Monicæ Viduæ"),
        ("Rank", ";;Duplex;;3;;vide C7a"),
        ("Rule", "vide C7a;\n9 lectiones"),
        ("Name", "Mónicæ"),
        ("Oratio", "Deus, mæréntium consolátor et in te sperántium salus, qui beátæ Mónicæ pias lácrimas suscepísti"),
        ("Invit", "Laudémus Deum nostrum * In confessióne beátæ Mónicæ."),
        ("Lectio4", "Mónica, sancti Augustíni mater."),
    ]));
    let mut c7a = vec![("Rule", "vide C7;\n9 lectiones"), ("Capitulum Sexta", "Fallax grátia, et vana est pulchritúdo.")];
    let lectios: Vec<(String, String)> = (1..=9)
        .map(|n| (format!("Lectio{n}"), if n == 9 { "Lectio nona.\n&teDeum".to_string() } else { format!("Lectio {n}.") }))
        .collect();
    let mut c7a_file = file_with(&c7a.drain(..).collect::<Vec<_>>());
    for (k, v) in &lectios {
        c7a_file.insert_section(k.clone(), v.clone());
    }
    c.insert("Commune/C7a".to_string(), c7a_file);
    c.insert("Commune/C7".to_string(), file_with(&[
        ("Capitulum", "Mulíerem fortem quis invéniet?"),
        ("Ant Matutinum", "a1;;1\na2;;2\na3;;3\na4;;4\na5;;5\na6;;6\na7;;7\na8;;8\na9;;9"),
    ]));
    c.insert("Sancti/06-29".to_string(), file_with(&[("Rank", ";;Duplex I classis cum octava communi;;6.5;;vide C1")]));
    c.insert("Sancti/12-24".to_string(), file_with(&[
        ("Rank", "In Vigilia Nativitatis Domini;;Duplex I classis;;6.5"),
        ("Rule", "3 lectiones"),
        ("Lectio1", "Lectio prima."), ("Lectio2", "Lectio secunda."), ("Lectio3", "Lectio tertia."),
        ("Lectio4", "Lectio quarta."),
    ]));
    c.insert("Sancti/12-25".to_string(), file_with(&[("Rank", "In Nativitate Domini;;Duplex I classis;;6.5")]));
    c.insert("Tempora/Epi3-4".to_string(), file_with(&[("Rank", ";;Feria;;1"), ("Rule", "Oratio Dominica")]));
    c.insert("Tempora/Epi3-0".to_string(), file_with(&[("Oratio", "Omnípotens sempitérne Deus, infirmitátem nostram propítius réspice")]));
    c.insert("Sancti/01-03".to_string(), file_with(&[("Rule", "vide Sancti/12-27;")]));
    c.insert("Sancti/12-27".to_string(), file_with(&[("Oratio", "Ecclésiam tuam, Dómine, benígnus illústra")]));
    c.insert("Sancti/01-08".to_string(), file_with(&[("Rule", "ex Sancti/01-06\nLectio1 tempora\n9 lectiones")]));
    c.insert("Sancti/01-06".to_string(), file_with(&[
        ("Rank", "In Epiphania Domini;;Duplex I classis;;6.5"),
        ("Oratio", "Deus, qui hodiérna die Unigénitum tuum géntibus stella duce revelásti"),
    ]));
    c
}

fn args_for(hour: &'static str, day_key: Option<&'static str>) -> OfficeArgs<'static> {
    OfficeArgs { year: 2026, month: 5, day: 4, rubric: Rubric::Tridentine1570, hour, rubrics: true, day_key }
}

fn render(c: &HorasCorpus, a: &OfficeArgs) -> Vec<RenderedLine> {
    compute_office_hour(c, &KalendariaTable::new(), a)
}

fn first_in_chain(chain: &[&HorasFile], name: &str) -> Option<String> {
    chain.iter().find_map(|f| f.sections.get(name).filter(|b| !b.trim().is_empty()).cloned())
}

fn oratio_after_section(lines: &[RenderedLine], label: &str) -> Option<String> {
    lines.windows(2).find_map(|w| match (&w[0], &w[1]) {
        (RenderedLine::Section { label: l }, RenderedLine::Plain { body }) if l == label => Some(body.clone()),
        _ => None,
    })
}

#[test]
fn commune_chain_resolves_sancti_05_04() {
    let c = day_corpus();
    let chain = commune_chain(&c, "Sancti/05-04");
    assert!(chain.len() >= 2, "expected ≥2 chain entries, got {}", chain.len());
    let body = first_in_chain(&chain, "Oratio").expect("chain should resolve Oratio for Sancti/05-04");
    assert!(body.contains("Mónicæ"));
}

#[test]
fn commune_chain_falls_through_to_sunday_oratio() {
    let c = day_corpus();
    let chain = commune_chain(&c, "Tempora/Epi3-4");
    assert!(first_in_chain(&chain, "Oratio").is_some(), "Tempora/Epi3-4 chain should reach Tempora/Epi3-0 Oratio");
}

#[test]
fn commune_chain_resolves_st_john_octave() {
    let c = day_corpus();
    let chain = commune_chain(&c, "Sancti/01-03");
    let oratio = first_in_chain(&chain, "Oratio");
    assert!(oratio.as_deref().map(|s| s.contains("Ecclésiam tuam")).unwrap_or(false), "got {oratio:?}");
}

#[test]
fn commune_chain_resolves_octave_inherit() {
    let c = day_corpus();
    let chain = commune_chain(&c, "Sancti/01-08");
    let has_epiphany = chain.iter().any(|f| f.sections.get("Rank").map(|r| r.contains("Epiphania")).unwrap_or(false));
    assert!(has_epiphany);
    let oratio = first_in_chain(&chain, "Oratio").expect("Sancti/01-08 chain should resolve Oratio via Sancti/01-06");
    assert!(oratio.contains("Unigénitum tuum géntibus stella duce"));
}

#[test]
fn vespera_st_monica_splices_proper_oratio() {
    let c = day_corpus();
    let lines = render(&c, &args_for("Vespera", Some("Sancti/05-04")));
    assert!(!lines.is_empty());
    let body = oratio_after_section(&lines, "Oratio").expect("Oratio slot spliced");
    assert!(body.contains("Mónicæ") || body.contains("consolátor") || body.contains("mæréntium"));
}

#[test]
fn lauds_renders_with_oratio_splice() {
    let c = day_corpus();
    let lines = render(&c, &args_for("Laudes", Some("Sancti/05-04")));
    assert!(oratio_after_section(&lines, "Oratio").map(|b| b.contains("Mónicæ")).unwrap_or(false));
}

#[test]
fn prima_renders_non_empty() {
    let c = day_corpus();
    let lines = render(&c, &args_for("Prima", Some("Sancti/05-04")));
    assert!(!lines.is_empty());
    assert!(lines.iter().any(|l| matches!(l, RenderedLine::Section { label } if label.contains("Capitulum"))));
}

#[test]
fn tertia_sexta_nona_share_minor_template() {
    let c = day_corpus();
    for hour in ["Tertia", "Sexta", "Nona"] {
        let lines = render(&c, &args_for(hour, Some("Sancti/05-04")));
        assert!(oratio_after_section(&lines, "Oratio").map(|b| b.contains("Mónicæ")).unwrap_or(false), "{hour}");
    }
}

#[test]
fn sexta_splices_capitulum_from_commune() {
    let c = day_corpus();
    let lines = render(&c, &args_for("Sexta", Some("Sancti/05-04")));
    let cap = oratio_after_section(&lines, "Capitulum Responsorium Versus").expect("capitulum spliced");
    assert!(cap.contains("Fallax grátia"));
}

#[test]
fn completorium_renders_non_empty() {
    let c = day_corpus();
    let lines = render(&c, &args_for("Completorium", Some("Sancti/05-04")));
    assert!(!lines.is_empty());
    assert!(lines.iter().any(|l| matches!(l, RenderedLine::Section { label } if label.contains("Nunc"))));
}

#[test]
fn matutinum_renders_invitatorium_and_lectio4() {
    let c = day_corpus();
    let lines = render(&c, &args_for("Matutinum", Some("Sancti/05-04")));
    assert!(oratio_after_section(&lines, "Invitatorium").map(|b| b.contains("Mónicæ")).unwrap_or(false));
    assert!(oratio_after_section(&lines, "Lectio4").map(|b| b.contains("Augustíni")).unwrap_or(false));
}

#[test]
fn matutinum_emits_multiple_lectios() {
    let c = day_corpus();
    let lines = render(&c, &args_for("Matutinum", Some("Sancti/05-04")));
    let n = lines.iter().filter(|l| matches!(l, RenderedLine::Section { label } if label.starts_with("Lectio"))).count();
    assert_eq!(n, 9);
}

#[test]
fn matutinum_3_lectiones_caps_at_lectio3() {
    let c = day_corpus();
    let a = OfficeArgs { year: 2026, month: 12, day: 24, rubric: Rubric::Tridentine1570, hour: "Matutinum", rubrics: true, day_key: Some("Sancti/12-24") };
    let lines = render(&c, &a);
    let labels: Vec<String> = lines.iter().filter_map(|l| match l {
        RenderedLine::Section { label } => Some(label.clone()),
        _ => None,
    }).collect();
    for want in ["Lectio1", "Lectio2", "Lectio3"] {
        assert!(labels.iter().any(|s| s == want), "missing {want}");
    }
    for forbidden in ["Lectio4", "Lectio5", "Lectio6", "Lectio7", "Lectio8", "Lectio9", "Ant Matutinum 2", "Ant Matutinum 3"] {
        assert!(!labels.iter().any(|s| s == forbidden), "unexpected {forbidden}");
    }
}

#[test]
fn matutinum_emits_te_deum_after_final_lectio() {
    let c = day_corpus();
    let lines = render(&c, &args_for("Matutinum", Some("Sancti/05-04")));
    for l in &lines {
        if let RenderedLine::Plain { body } | RenderedLine::Macro { body, .. } = l {
            assert!(!body.contains("&teDeum"));
        }
    }
    assert!(lines.iter().any(|l| matches!(l, RenderedLine::Macro { name, body } if name == "Te_Deum" && body.contains("Te Deum laudámus"))));
}

#[test]
fn matutinum_emits_nocturn_antiphons_for_apostles() {
    let c = day_corpus();
    let lines = render(&c, &args_for("Matutinum", Some("Sancti/05-04")));
    for label in ["Ant Matutinum 1", "Ant Matutinum 2", "Ant Matutinum 3"] {
        assert!(lines.iter().any(|l| matches!(l, RenderedLine::Section { label: x } if x == label)), "{label}");
    }
}

#[test]
fn first_vespers_swaps_when_tomorrow_outranks() {
    let c = day_corpus();
    assert_eq!(first_vespers_day_key(&c, "Sancti/05-04", "Sancti/06-29"), "Sancti/06-29");
}

#[test]
fn first_vespers_keeps_today_when_tomorrow_outranked() {
    let c = day_corpus();
    assert_eq!(first_vespers_day_key(&c, "Sancti/06-29", "Sancti/05-04"), "Sancti/06-29");
}

#[test]
fn first_vespers_swaps_to_tomorrow_on_rank_tie() {
    let c = day_corpus();
    assert_eq!(first_vespers_day_key(&c, "Sancti/12-24", "Sancti/12-25"), "Sancti/12-25");
}

#[test]
fn epiphany_week_takes_the_sunday_oratio_under_1960() {
    let mut c = HorasCorpus::new();
    c.insert("Tempora/Epi1-0a".to_string(), file_with(&[("Oratio", "Vota, quǽsumus, Dómine")]));
    let day = file_with(&[("Rule", "Infra octavam Epiphaniæ\n")]);
    let chain = [&day];
    let mut out = Vec::new();
    splice_proper_into_slot(&mut out, &c, "Oratio", "Laudes", Rubric::Rubrics1960, &chain, None, Some("Tempora/Epi1-1"), 2026, 1, 12);
    assert_eq!(out, vec![plain("Vota, quǽsumus, Dómine")]);
    let mut tridentine = Vec::new();
    splice_proper_into_slot(&mut tridentine, &c, "Oratio", "Laudes", Rubric::Tridentine1570, &chain, None, Some("Tempora/Epi1-1"), 2026, 1, 12);
    assert!(tridentine.is_empty());
    let mut later = Vec::new();
    splice_proper_into_slot(&mut later, &c, "Oratio", "Laudes", Rubric::Rubrics1960, &chain, None, Some("Tempora/Epi2-1"), 2026, 1, 19);
    assert!(later.is_empty());
}

#[test]
fn plain_tempora_feria_takes_its_sundays_oratio() {
    let mut c = HorasCorpus::new();
    let feria_rank = [("Rank", "Feria Tertia infra Hebdomadam III post Pentecosten;;Feria;;1")];
    let feria = file_with(&feria_rank);
    c.insert("Tempora/Pent03-2".to_string(), file_with(&feria_rank));
    c.insert("Tempora/Pent03-0".to_string(), file_with(&[("Oratio", "Protéctor in te sperántium")]));
    let chain = [&feria];
    let mut out = Vec::new();
    splice_proper_into_slot(&mut out, &c, "Oratio", "Laudes", Rubric::Tridentine1570, &chain, None, Some("Tempora/Pent03-2"), 2026, 6, 16);
    assert_eq!(out, vec![plain("Protéctor in te sperántium")]);
    let major_rank = [("Rank", "Feria IV Cinerum;;Feria major;;6.9")];
    let major = file_with(&major_rank);
    c.insert("Tempora/Quadp3-3".to_string(), file_with(&major_rank));
    c.insert("Tempora/Quadp3-0".to_string(), file_with(&[("Oratio", "Preces pópuli tui")]));
    let chain = [&major];
    let mut none = Vec::new();
    splice_proper_into_slot(&mut none, &c, "Oratio", "Laudes", Rubric::Tridentine1570, &chain, None, Some("Tempora/Quadp3-3"), 2026, 2, 18);
    assert!(none.is_empty());
}

#[test]
fn ember_vespers_take_the_weeks_sunday_oratio() {
    let mut c = HorasCorpus::new();
    c.insert("Tempora/Adv3-0".to_string(), file_with(&[("Oratio", "Aurem tuam, quǽsumus, Dómine")]));
    let ember = file_with(&[
        ("Officium", "Feria IV Quattuor Temporum Adventus"),
        ("Oratio", "Præsta, quǽsumus, omnípotens Deus"),
    ]);
    let chain = [&ember];
    let mut vespers = Vec::new();
    splice_proper_into_slot(&mut vespers, &c, "Oratio", "Vespera", Rubric::Tridentine1570, &chain, None, Some("Tempora/Adv3-3"), 2026, 12, 16);
    assert_eq!(vespers, vec![plain("Aurem tuam, quǽsumus, Dómine")]);
    let mut lauds = Vec::new();
    splice_proper_into_slot(&mut lauds, &c, "Oratio", "Laudes", Rubric::Tridentine1570, &chain, None, Some("Tempora/Adv3-3"), 2026, 12, 16);
    assert_eq!(lauds, vec![plain("Præsta, quǽsumus, omnípotens Deus")]);
    let mut by_date = Vec::new();
    splice_proper_into_slot(&mut by_date, &c, "Oratio", "Vespera", Rubric::Tridentine1570, &chain, None, None, 2026, 12, 16);
    assert_eq!(by_date, vec![plain("Aurem tuam, quǽsumus, Dómine")]);
    let mut modern = Vec::new();
    splice_proper_into_slot(&mut modern, &c, "Oratio", "Vespera", Rubric::Rubrics1960, &chain, None, Some("Tempora/Adv3-3"), 2026, 12, 16);
    assert_eq!(modern, vec![plain("Præsta, quǽsumus, omnípotens Deus")]);
}

fn redirect_corpus() -> HorasCorpus {
    let mut c = HorasCorpus::new();
    c.insert(
        "Tempora/Nat1-0".to_string(),
        file_with(&[("Oratio", "Omnípotens sempitérne Deus, dírige actus nostros in beneplácito tuo.\n$Per Dominum")]),
    );
    c.insert(
        "Sancti/01-06".to_string(),
        file_with(&[("Oratio", "Deus, qui hodiérna die Unigénitum tuum géntibus stella duce revelásti.")]),
    );
    c.insert("Sancti/01-05".to_string(), file_with(&[("Oratio", "@Tempora/Nat1-0")]));
    c
}

#[test]
fn expand_at_redirect_implicit_section() {
    let c = redirect_corpus();
    let resolved = expand_at_redirect(&c, "@Tempora/Nat1-0", "Oratio");
    assert!(!resolved.starts_with('@'), "redirect should expand, not leak literal `@…`: {resolved:?}");
    assert!(resolved.contains("Omnípotens") || resolved.contains("dírige actus") || resolved.len() > 30);
}

#[test]
fn expand_at_redirect_explicit_section() {
    let c = redirect_corpus();
    let resolved = expand_at_redirect(&c, "@Sancti/01-06:Oratio", "Hymnus Vespera");
    assert!(resolved.contains("Unigénitum tuum géntibus stella duce"));
}

#[test]
fn expand_at_redirect_passthrough_on_non_redirect() {
    let c = redirect_corpus();
    let body = "Plain prayer text with no redirect.";
    assert_eq!(expand_at_redirect(&c, body, "Oratio"), body);
}

#[test]
fn expand_at_redirect_unknown_path_keeps_literal() {
    let c = redirect_corpus();
    let body = "@Sancti/99-99";
    assert_eq!(expand_at_redirect(&c, body, "Oratio"), body);
}

#[test]
fn expand_at_redirect_follows_chains_and_keeps_what_it_cannot_read() {
    let c = redirect_corpus();
    assert_eq!(
        expand_at_redirect(&c, "  @Sancti/01-05\n", "Oratio"),
        "Omnípotens sempitérne Deus, dírige actus nostros in beneplácito tuo.\n$Per Dominum"
    );
    let two_lines = "@Tempora/Nat1-0\n(sed rubrica 1960)";
    assert_eq!(expand_at_redirect(&c, two_lines, "Oratio"), two_lines);
    let substituted = "@Sancti/01-06:Oratio:s/hodiérna/hac/";
    assert_eq!(expand_at_redirect(&c, substituted, "Oratio"), substituted);
    assert_eq!(expand_at_redirect(&c, "@Tempora/Nat1-0:Lectio1", "Oratio"), "@Tempora/Nat1-0:Lectio1");
    assert_eq!(expand_at_redirect(&c, "@:Oratio 1 loco", "Oratio"), "@:Oratio 1 loco");
    let mut looping = HorasCorpus::new();
    looping.insert("Commune/C1".to_string(), file_with(&[("Oratio", "@Commune/C1")]));
    assert_eq!(expand_at_redirect(&looping, "@Commune/C1", "Oratio"), "@Commune/C1");
}

#[test]
fn splice_follows_a_whole_body_redirect() {
    let c = redirect_corpus();
    let day = file_with(&[("Oratio", "@Tempora/Nat1-0\n")]);
    let prayers = file_with(&[("Per Dominum", "Per Dóminum nostrum.")]);
    let chain = [&day];
    let mut out = Vec::new();
    splice_proper_into_slot(&mut out, &c, "Oratio", "Laudes", Rubric::Tridentine1570, &chain, Some(&prayers), None, 2026, 1, 5);
    assert_eq!(
        out,
        vec![plain("Omnípotens sempitérne Deus, dírige actus nostros in beneplácito tuo.\nPer Dóminum nostrum.")]
    );
}

fn walker_corpus() -> HorasCorpus {
    let mut vespera = HorasFile::new();
    vespera.push_template_line(section_line("Incipit"));
    vespera.push_template_line(OrdoLine { name: Some("Deus_in_adjutorium".to_string()), ..line("macro") });
    vespera.push_template_line(OrdoLine { name: Some("Alleluia".to_string()), ..line("macro") });
    vespera.push_template_line(section_line("Psalmi"));
    vespera.push_template_line(section_line("Capitulum Hymnus Versus"));
    vespera.push_template_line(section_line("Canticum: Magnificat"));
    vespera.push_template_line(section_line("Oratio"));
    vespera.push_template_line(OrdoLine { name: Some("Dominus_vobiscum".to_string()), ..line("macro") });
    vespera.push_template_line(section_line("Conclusio"));
    vespera.push_template_line(OrdoLine { name: Some("Benedicamus_Domino".to_string()), ..line("macro") });
    let prayers = file_with(&[
        ("Deus in adjutorium", "V. Deus in adjutórium meum inténde.\nR. Dómine, ad adjuvándum me festína.\nGlória Patri"),
        ("Alleluia", "Allelúja."),
        ("Dominus", "V. Dóminus vobíscum.\nR. Et cum spíritu tuo.\nV. Dómine, exáudi oratiónem meam.\nR. Et clamor meus ad te véniat.\nV. Dómine, exáudi oratiónem meam.\n$Oremus"),
        ("Benedicamus Domino", "V. Benedicámus Dómino.\nR. Deo grátias."),
    ]);
    let mut c = HorasCorpus::new();
    c.insert("Ordinarium/Vespera".to_string(), vespera);
    c.insert("Psalterium/Common/Prayers".to_string(), prayers);
    c
}

fn vespera_args(year: i32, month: u32, day: u32) -> OfficeArgs<'static> {
    OfficeArgs { year, month, day, rubric: Rubric::Tridentine1570, hour: "Vespera", rubrics: true, day_key: None }
}

#[test]
fn compute_office_hour_vespera_emits_walker_skeleton() {
    let c = walker_corpus();
    let lines = render(&c, &vespera_args(2026, 5, 4));
    assert!(!lines.is_empty(), "Vespera walker emitted nothing");
    let sections: Vec<&str> = lines
        .iter()
        .filter_map(|l| match l {
            RenderedLine::Section { label } => Some(label.as_str()),
            _ => None,
        })
        .collect();
    for want in ["Incipit", "Psalmi", "Canticum: Magnificat", "Oratio", "Conclusio"] {
        assert!(sections.iter().any(|s| *s == want), "Vespera missing section slot {want}; got {sections:?}");
    }
    let deus = lines
        .iter()
        .find_map(|l| match l {
            RenderedLine::Macro { name, body } if name == "Deus_in_adjutorium" => Some(body),
            _ => None,
        })
        .expect("Deus_in_adjutorium macro missing");
    assert!(deus.contains("adjutórium meum inténde"), "Deus_in_adjutorium body not resolved: {deus:?}");
    assert!(deus.contains("Glória Patri"), "Deus_in_adjutorium missing Gloria Patri tag");
    let names: Vec<&str> = lines
        .iter()
        .filter_map(|l| match l {
            RenderedLine::Macro { name, body } if !body.is_empty() => Some(name.as_str()),
            _ => None,
        })
        .collect();
    for want in ["Deus_in_adjutorium", "Alleluia", "Dominus_vobiscum", "Benedicamus_Domino"] {
        assert!(names.contains(&want), "macro {want} did not resolve; got {names:?}");
    }
}

#[test]
fn compute_office_hour_vespera_christmas_renders() {
    let c = walker_corpus();
    let lines = render(&c, &vespera_args(2026, 12, 25));
    assert!(!lines.is_empty(), "Christmas Vespera walker empty");
    let n_sections = lines.iter().filter(|l| matches!(l, RenderedLine::Section { .. })).count();
    assert!(n_sections >= 5, "Christmas Vespera: only {n_sections} section slots emitted");
}

#[test]
fn vespera_st_monica_splices_capitulum_or_hymnus_from_commune() {
    let c = day_corpus();
    let a = OfficeArgs { year: 2026, month: 5, day: 4, rubric: Rubric::Tridentine1570, hour: "Vespera", rubrics: true, day_key: Some("Sancti/05-04") };
    let lines = render(&c, &a);
    let found_splice = lines.windows(2).any(|w| match (&w[0], &w[1]) {
        (RenderedLine::Section { label }, RenderedLine::Plain { body }) => label.contains("Capitulum") && !body.trim().is_empty(),
        _ => false,
    });
    assert!(found_splice, "Capitulum of Commune/C7 not spliced");
}

#[test]
fn matutinum_3_lectiones_emits_single_nocturn_antiphon_block() {
    let c = day_corpus();
    let a = OfficeArgs { year: 2026, month: 12, day: 24, rubric: Rubric::Tridentine1570, hour: "Matutinum", rubrics: true, day_key: Some("Sancti/12-24") };
    let lines = render(&c, &a);
    for nocturn in 2..=3 {
        let forbidden = format!("Ant Matutinum {nocturn}");
        assert!(
            !lines.iter().any(|l| matches!(l, RenderedLine::Section { label } if label == &forbidden)),
            "{forbidden} leaked into 3-lectio Christmas-Vigil Matins"
        );
    }
}

#[test]
fn matutinum_oratio_splices_proper() {
    let c = day_corpus();
    let lines = render(&c, &args_for("Matutinum", Some("Sancti/05-04")));
    let found = lines.windows(2).any(|w| match (&w[0], &w[1]) {
        (RenderedLine::Section { label }, RenderedLine::Plain { body }) => label == "Oratio" && body.contains("Mónicæ"),
        _ => false,
    });
    assert!(found, "Matutinum Oratio splice missed Monica proper");
}
