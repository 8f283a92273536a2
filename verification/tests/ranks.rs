use officium_rs::core_types::Rubric;
use officium_rs::data_types::HorasFile;
use officium_rs::horas::HorasCorpus;
use officium_rs::kalendaria_layers::{Cell, KalendariaTable, LayerDays};
use officium_rs::office_day::{
    active_rank_line, first_vespers_day_key_for_rubric, flcrank_trident, flrank_trident,
    preces_dominicales_et_feriales_fires,
};
use officium_rs::ranks::{parse_first_rank_line, parse_horas_rank, parse_rank};

fn file_with(sections: &[(&str, &str)]) -> HorasFile {
    let mut f = HorasFile::new();
    for (name, body) in sections {
        f.insert_section(name.to_string(), body.to_string());
    }
    f
}

fn chars(s: &str) -> Vec<char> {
    s.chars().collect()
}

#[test]
fn parse_horas_rank_handles_corpus_shapes() {
    assert_eq!(parse_horas_rank("In Nativitate Domini;;Duplex I Classis;;6.9"), Some(6900));
    assert_eq!(
        parse_horas_rank(";;Duplex I classis cum octava communi;;6.5;;ex C1\n;;Duplex I classis;;6;;ex C1"),
        Some(6500)
    );
    assert_eq!(
        parse_horas_rank(";;Duplex;;3;;vide C7a\n(sed rubrica 1570 aut rubrica monastica)\n;;Simplex;;1.1;;vide C7a"),
        Some(3000)
    );
    assert_eq!(parse_horas_rank(""), None);
}

#[test]
fn ranks_are_thousandths() {
    assert_eq!(parse_rank(&chars("5.61")), Some(5610));
    assert_eq!(parse_rank(&chars("2.99")), Some(2990));
    assert_eq!(parse_rank(&chars("7")), Some(7000));
    assert_eq!(parse_rank(&chars(".5")), Some(500));
    assert_eq!(parse_rank(&chars("1.2345")), None);
    assert_eq!(parse_rank(&chars("x")), None);
    assert_eq!(parse_rank(&chars("")), None);
}

#[test]
fn first_rank_line_gives_line_class_and_rank() {
    let r = parse_first_rank_line("\n(sed rubrica 1570)\n Secunda die infra Octavam Epiphaniæ;;Semiduplex;;5.6 \n;;Duplex;;3").unwrap();
    assert_eq!(r.line, "Secunda die infra Octavam Epiphaniæ;;Semiduplex;;5.6");
    assert_eq!(r.class, "Semiduplex");
    assert_eq!(r.rank, 5600);
    assert!(parse_first_rank_line("no rank here").is_none());
}

#[test]
fn rank_lines_follow_whole_file_inheritance() {
    let mut c = HorasCorpus::new();
    c.insert("Commune/C10".to_string(), file_with(&[("Rank", "Sanctæ Mariæ Sabbato;;Simplex;;1.3")]));
    c.insert("Commune/C10b".to_string(), file_with(&[("__preamble__", "@Commune/C10")]));
    let r = active_rank_line(&c, "Commune/C10b").unwrap();
    assert_eq!(r.rank, 1300);
    assert_eq!(r.class, "Simplex");
    assert!(active_rank_line(&c, "Commune/C99").is_none());
}

#[test]
fn tridentine_flattening() {
    assert_eq!(flrank_trident(2200), 2000);
    assert_eq!(flrank_trident(3010), 3000);
    assert_eq!(flrank_trident(5100), 5100);
    assert_eq!(flcrank_trident(2200, false), 2000);
    assert_eq!(flcrank_trident(6100, true), 2990);
    assert_eq!(flcrank_trident(1500, false), 1500);
    assert_eq!(flcrank_trident(4500, false), 3000);
}

fn concurrence_corpus() -> HorasCorpus {
    let mut c = HorasCorpus::new();
    c.insert("Sancti/01-14".to_string(), file_with(&[("Rank", ";;Semiduplex;;2.2")]));
    c.insert("Sancti/01-15".to_string(), file_with(&[("Rank", ";;Semiduplex;;2.2")]));
    c.insert("Sancti/12-23".to_string(), file_with(&[("Rank", ";;Feria;;1")]));
    c.insert("Sancti/12-24".to_string(), file_with(&[("Rank", "In Vigilia Nativitatis;;Duplex I classis;;6.9")]));
    c.insert("Tempora/Pasc0-6".to_string(), file_with(&[("Rank", ";;Duplex maius;;6.9"), ("Rule", "No secunda Vespera")]));
    c.insert("Tempora/Pasc1-0".to_string(), file_with(&[("Rank", "Dominica in Albis;;Duplex maius;;6.9")]));
    c.insert("Tempora/Epi4-0tt".to_string(), file_with(&[("Rank", ";;Simplex;;1.5"), ("Rule", "No prima vespera")]));
    c.insert("Tempora/Epi3-6".to_string(), file_with(&[("Rank", ";;Feria;;1")]));
    c.insert("Sancti/01-12".to_string(), file_with(&[("Rank", ";;Semiduplex;;5.6")]));
    c.insert("Sancti/01-13".to_string(), file_with(&[("Rank", ";;Duplex II classis;;5.1"), ("Rule", "Festum Domini")]));
    c
}

#[test]
fn first_vespers_concurrence_cases() {
    let c = concurrence_corpus();
    let t = Rubric::Tridentine1570;
    // Equal flattened ranks of two Sancti days: tomorrow.
    assert_eq!(first_vespers_day_key_for_rubric(&c, "Sancti/01-14", "Sancti/01-15", t, 3), "Sancti/01-15");
    // A vigil tomorrow has no first Vespers.
    assert_eq!(first_vespers_day_key_for_rubric(&c, "Sancti/12-23", "Sancti/12-24", t, 3), "Sancti/12-23");
    // "No secunda Vespera" today gives tomorrow, except under 1960.
    assert_eq!(first_vespers_day_key_for_rubric(&c, "Tempora/Pasc0-6", "Tempora/Pasc1-0", t, 6), "Tempora/Pasc1-0");
    // "No prima vespera" tomorrow keeps today.
    assert_eq!(first_vespers_day_key_for_rubric(&c, "Tempora/Epi3-6", "Tempora/Epi4-0tt", t, 6), "Tempora/Epi3-6");
    // 1960: a II class feast of the Lord on a Tuesday has no first Vespers.
    assert_eq!(
        first_vespers_day_key_for_rubric(&c, "Sancti/01-12", "Sancti/01-13", Rubric::Rubrics1960, 1),
        "Sancti/01-12"
    );
    // 1570: the feast of the Lord tomorrow wins.
    assert_eq!(first_vespers_day_key_for_rubric(&c, "Sancti/01-12", "Sancti/01-13", t, 1), "Sancti/01-13");
}

fn preces_corpus() -> HorasCorpus {
    let mut c = HorasCorpus::new();
    c.insert("Sancti/01-19".to_string(), file_with(&[("Rank", ";;Simplex;;1.1"), ("Officium", "S. Marii")]));
    c.insert("Sancti/01-20".to_string(), file_with(&[("Rank", ";;Duplex;;3")]));
    c.insert("Tempora/Epi2-3".to_string(), file_with(&[("Rank", ";;Feria;;1"), ("Rule", "Omit Preces")]));
    c.insert("Sancti/01-21".to_string(), file_with(&[("Rank", "Tertia die infra Octavam;;Semiduplex;;2")]));
    c
}

#[test]
fn ferial_preces_decision() {
    let c = preces_corpus();
    let empty = KalendariaTable::new();
    let t = Rubric::Tridentine1570;
    assert!(preces_dominicales_et_feriales_fires(&c, &empty, "Sancti/01-19", t, "Prima", 1, 1, 19));
    // Duplex: no preces.
    assert!(!preces_dominicales_et_feriales_fires(&c, &empty, "Sancti/01-20", t, "Prima", 2, 1, 20));
    // "Omit Preces".
    assert!(!preces_dominicales_et_feriales_fires(&c, &empty, "Tempora/Epi2-3", t, "Prima", 3, 1, 21));
    // Octave in the rank line.
    assert!(!preces_dominicales_et_feriales_fires(&c, &empty, "Sancti/01-21", t, "Prima", 3, 1, 21));
    // Saturday Vespers.
    assert!(!preces_dominicales_et_feriales_fires(&c, &empty, "Sancti/01-19", t, "Vespera", 6, 1, 19));
    // From 1955 only on Wednesdays and Fridays.
    assert!(!preces_dominicales_et_feriales_fires(&c, &empty, "Sancti/01-19", Rubric::Rubrics1960, "Prima", 1, 1, 19));
    assert!(preces_dominicales_et_feriales_fires(&c, &empty, "Sancti/01-19", Rubric::Rubrics1960, "Prima", 3, 1, 19));
    // The kalendar names a commemoration of rank 7 or more (Tridentine).
    let mut days = LayerDays::new();
    days.insert(
        "01-19".to_string(),
        vec![Cell {
            stem: "01-19".to_string(),
            officium: "S. Marii".to_string(),
            rank: "7".to_string(),
            rank_label: String::new(),
            kind: "main".to_string(),
        }],
    );
    let mut table = KalendariaTable::new();
    table.insert_layer("1570".to_string(), days);
    assert!(!preces_dominicales_et_feriales_fires(&c, &table, "Sancti/01-19", t, "Prima", 1, 1, 19));
}
