use officium_rs::kalendaria_layers::{layer_for_year, lookup, lookup_for_year, Cell, KalendariaTable, Layer, LayerDays};

#[test]
fn year_to_layer_breakpoints() {
    assert_eq!(layer_for_year(1700), Layer::Pius1570);
    assert_eq!(layer_for_year(1887), Layer::Pius1570);
    assert_eq!(layer_for_year(1888), Layer::LeoXIII1888);
    assert_eq!(layer_for_year(1900), Layer::LeoXIII1888);
    assert_eq!(layer_for_year(1906), Layer::PiusX1906);
    assert_eq!(layer_for_year(1925), Layer::PiusX1906);
    assert_eq!(layer_for_year(1939), Layer::PiusXI1939);
    assert_eq!(layer_for_year(1954), Layer::PiusXIIPre1954);
    assert_eq!(layer_for_year(1955), Layer::PiusXII1955);
    assert_eq!(layer_for_year(1959), Layer::PiusXII1955);
    assert_eq!(layer_for_year(1960), Layer::JohnXXIII1960);
    assert_eq!(layer_for_year(2026), Layer::JohnXXIII1960);
}

#[test]
fn layer_keys() {
    assert_eq!(Layer::Pius1570.key(), "1570");
    assert_eq!(Layer::PiusXIIPre1954.key(), "1954");
    assert_eq!(Layer::JohnXXIII1960.key(), "1960");
}

#[test]
fn layers_follow_the_years() {
    let mut last = layer_for_year(1500);
    for y in 1500..2100 {
        let l = layer_for_year(y);
        assert!(l >= last);
        last = l;
    }
}

fn cell(stem: &str, kind: &str) -> Cell {
    Cell {
        stem: stem.to_string(),
        officium: String::new(),
        rank: "1".to_string(),
        rank_label: String::new(),
        kind: kind.to_string(),
    }
}

#[test]
fn cell_is_main_reads_kind() {
    assert!(cell("01-01", "main").is_main());
    assert!(!cell("01-01", "commemoratio").is_main());
}

#[test]
fn lookup_reads_the_layer_and_day() {
    let mut table = KalendariaTable::new();
    let mut days = LayerDays::new();
    days.insert("05-01".to_string(), vec![cell("05-01r", "main")]);
    table.insert_layer("1955".to_string(), days);
    let e = lookup(&table, Layer::PiusXII1955, 5, 1).expect("05-01 listed");
    assert_eq!(e[0].stem, "05-01r");
    assert!(lookup(&table, Layer::PiusXII1955, 5, 2).is_none());
    assert!(lookup(&table, Layer::JohnXXIII1960, 5, 1).is_none());
    assert_eq!(lookup_for_year(&table, 1957, 5, 1).map(|e| e[0].stem.as_str()), Some("05-01r"));
    assert!(lookup_for_year(&table, 1961, 5, 1).is_none());
}
