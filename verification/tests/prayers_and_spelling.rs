use officium_rs::core_types::Rubric;
use officium_rs::data_types::{HorasFile, OrdoLine};
use officium_rs::horas::{
    apply_office_spelling, directive_body_for_template, dominus_vobiscum_lay_default, dominus_vobiscum_preces_form,
    expand_dollar_macro, expand_dollar_macros_in_body, lookup_horas_macro, lookup_te_deum_body,
    replace_cotidian_with_quotidian, resolve_self_redirect, slot_candidates,
};

fn prayers() -> HorasFile {
    let mut p = HorasFile::new();
    p.insert_section(
        "Dominus".to_string(),
        "V. Dóminus vobíscum.\nR. Et cum spíritu tuo.\nV. Dómine, exáudi oratiónem meam.\nR. Et clamor meus ad te véniat.\n/:secunda «Domine, exaudi» omittitur:/".to_string(),
    );
    p.insert_section("Deus in adjutorium".to_string(), "V. Deus in adjutórium meum inténde.".to_string());
    p.insert_section("oratio_Domine".to_string(), "Dómine Deus omnípotens".to_string());
    p.insert_section("oratio_Visita".to_string(), "@:Oratio Visita_".to_string());
    p.insert_section("Oratio Visita_".to_string(), "Vísita, quǽsumus, Dómine".to_string());
    p.insert_section("Kyrie".to_string(), "Kýrie, eléison.".to_string());
    p.insert_section("Pater noster Et".to_string(), "Pater noster... Et ne nos".to_string());
    p.insert_section("Te Deum".to_string(), "Te Deum laudámus".to_string());
    p.insert_section("Per Dominum".to_string(), "Per Dóminum nostrum.".to_string());
    p.insert_section("Alleluia".to_string(), "Allelúja.".to_string());
    p
}

#[test]
fn office_spelling_by_rubric() {
    assert_eq!(apply_office_spelling("Jesu, cujus", Rubric::Rubrics1960), "Iesu, cuius");
    assert_eq!(apply_office_spelling("H-Jesu", Rubric::Rubrics1960), "H-Jesu");
    assert_eq!(apply_office_spelling("per eúmdem", Rubric::Rubrics1960), "per eúndem");
    assert_eq!(apply_office_spelling("Dei Génetrix", Rubric::Tridentine1570), "Dei Génitrix");
    assert_eq!(apply_office_spelling("Genetrícis", Rubric::DivinoAfflatu1911), "Genitrícis");
    assert_eq!(apply_office_spelling("panem cotidiánum", Rubric::Reduced1955), "panem quotidiánum");
    assert_eq!(apply_office_spelling("Jesu", Rubric::Tridentine1570), "Jesu");
}

#[test]
fn cotidian_only_at_word_starts() {
    assert_eq!(replace_cotidian_with_quotidian("cotídie"), "quotídie");
    assert_eq!(replace_cotidian_with_quotidian("Cotidie et cotidie"), "Quotidie et quotidie");
    assert_eq!(replace_cotidian_with_quotidian("xcotidie"), "xcotidie");
    assert_eq!(replace_cotidian_with_quotidian("cotid"), "cotid");
    assert_eq!(replace_cotidian_with_quotidian("(cotidie)"), "(quotidie)");
}

#[test]
fn slot_candidates_by_label_and_hour() {
    assert!(slot_candidates("Oratio", "Prima").is_empty());
    assert_eq!(slot_candidates("Oratio", "Vespera"), vec!["Oratio 3", "Oratio", "Oratio 2", "Oratio 1"]);
    assert_eq!(slot_candidates("Oratio", "Matutinum"), vec!["Oratio Matutinum", "Oratio 2", "Oratio"]);
    assert_eq!(slot_candidates("Oratio", "Laudes"), vec!["Oratio 2", "Oratio"]);
    assert_eq!(slot_candidates("Capitulum Versus", "Sexta"), vec!["Capitulum Sexta", "Capitulum"]);
    assert_eq!(slot_candidates("Hymnus", "Prima"), vec!["Hymnus Prima", "Hymnus"]);
    assert_eq!(slot_candidates("Canticum: Magnificat", "Vespera"), vec!["Ant Magnificat Vespera", "Ant Magnificat"]);
    assert_eq!(slot_candidates("Lectio brevis", "Completorium"), vec!["Lectio brevis Completorium", "Lectio brevis", "Lectio Prima"]);
    assert_eq!(slot_candidates("Invitatorium", "Matutinum"), vec!["Invit"]);
    assert!(slot_candidates("Psalmi", "Vespera").is_empty());
}

#[test]
fn dominus_vobiscum_slices() {
    let p = prayers();
    assert_eq!(
        dominus_vobiscum_lay_default(&p).as_deref(),
        Some("V. Dómine, exáudi oratiónem meam.\nR. Et clamor meus ad te véniat.")
    );
    assert_eq!(
        dominus_vobiscum_preces_form(&p).as_deref(),
        Some("/:secunda «Domine, exaudi» omittitur:/")
    );
    assert_eq!(dominus_vobiscum_lay_default(&HorasFile::new()), None);
}

#[test]
fn horas_macros_resolve() {
    let p = prayers();
    assert_eq!(lookup_horas_macro(Some(&p), "Deus_in_adjutorium").as_deref(), Some("V. Deus in adjutórium meum inténde."));
    assert_eq!(lookup_horas_macro(Some(&p), "oratio_Domine").as_deref(), Some("Dómine Deus omnípotens"));
    assert_eq!(lookup_horas_macro(Some(&p), "Alleluia_simplex").as_deref(), Some("Allelúja."));
    assert_eq!(
        lookup_horas_macro(Some(&p), "Dominus_vobiscum1").as_deref(),
        Some("V. Dómine, exáudi oratiónem meam.\nR. Et clamor meus ad te véniat.")
    );
    assert_eq!(lookup_horas_macro(Some(&p), "Nothing_here"), None);
    assert_eq!(lookup_horas_macro(None, "Kyrie"), None);
    assert_eq!(lookup_te_deum_body(Some(&p)), Some("Te Deum laudámus"));
    assert_eq!(lookup_te_deum_body(None), None);
}

#[test]
fn dollar_macros_expand() {
    let p = prayers();
    assert_eq!(expand_dollar_macro("$Kyrie", Some(&p)).as_deref(), Some("Kýrie, eléison."));
    assert_eq!(expand_dollar_macro("  $Pater noster Et ", Some(&p)).as_deref(), Some("Pater noster... Et ne nos"));
    assert_eq!(expand_dollar_macro("$Kyrie eleison", Some(&p)).as_deref(), Some("Kýrie, eléison."));
    assert_eq!(expand_dollar_macro("$oratio_Visita", Some(&p)).as_deref(), Some("Vísita, quǽsumus, Dómine"));
    assert_eq!(expand_dollar_macro("$Conclusio cisterciensis", Some(&p)), None);
    assert_eq!(expand_dollar_macro("$rubrica 1960 Kyrie", Some(&p)), None);
    assert_eq!(expand_dollar_macro("Kyrie", Some(&p)), None);
    assert_eq!(expand_dollar_macro("$", Some(&p)), None);
    assert_eq!(expand_dollar_macro("$Kyrie", None), None);
    assert_eq!(resolve_self_redirect("@:Oratio Visita_:s/a/b/", &p), "Vísita, quǽsumus, Dómine");
    assert_eq!(resolve_self_redirect("@:Missing", &p), "@:Missing");
    assert_eq!(resolve_self_redirect("plain", &p), "plain");
}

#[test]
fn dollar_macros_in_multiline_bodies() {
    let p = prayers();
    assert_eq!(
        expand_dollar_macros_in_body("Deus, qui...\n$Per Dominum", Some(&p)),
        "Deus, qui...\nPer Dóminum nostrum."
    );
    assert_eq!(expand_dollar_macros_in_body("no macros here", Some(&p)), "no macros here");
    assert_eq!(expand_dollar_macros_in_body("$Unknown\nline", Some(&p)), "$Unknown\nline");
}

#[test]
fn template_directives_are_recognised() {
    let mut l = OrdoLine { kind: "plain".to_string(), body: Some("  (sed rubrica 1960 dicitur)".to_string()), ..Default::default() };
    assert_eq!(directive_body_for_template(&l).as_deref(), Some("(sed rubrica 1960 dicitur)"));
    l.body = Some("(unclosed".to_string());
    assert_eq!(directive_body_for_template(&l), None);
    l.body = Some("Deus (in) adjutorium".to_string());
    assert_eq!(directive_body_for_template(&l), None);
    l.kind = "rubric".to_string();
    l.body = Some("(sed rubrica 1960)".to_string());
    assert_eq!(directive_body_for_template(&l), None);
}
