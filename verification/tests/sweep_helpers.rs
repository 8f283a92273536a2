use officium_rs::core_types::{FileKey, MassPropers, ProperBlock, Rubric};
use officium_rs::harness::{
    cell_cmp_key, dates_for_year, days_in_month, excerpt, html_escape, layer_label, layer_year_range,
    next_day, parse_rubric, parse_year_range, rust_block, slugify_rubric, subslice_find,
};
use officium_rs::kalendaria_layers::{Cell, Layer};

#[test]
fn rubric_names_and_slugs() {
    assert_eq!(parse_rubric("Divino Afflatu - 1939"), Some(Rubric::DivinoAfflatu1911));
    assert_eq!(parse_rubric("Tridentine - 1910"), Some(Rubric::Tridentine1910));
    assert_eq!(parse_rubric("Monastic"), None);
    assert_eq!(slugify_rubric("Tridentine - 1570"), "Tridentine_1570");
    assert_eq!(slugify_rubric("Rubrics 1960 - 1960"), "Rubrics_1960_1960");
    assert_eq!(slugify_rubric("  --x--  "), "x");
    assert_eq!(slugify_rubric(""), "");
}

#[test]
fn days_of_the_year() {
    assert_eq!(days_in_month(2024, 2), 29);
    assert_eq!(days_in_month(1900, 2), 28);
    assert_eq!(days_in_month(2023, 4), 30);
    assert_eq!(next_day(2024, 2, 28), (2, 29, 2024));
    assert_eq!(next_day(2023, 2, 28), (3, 1, 2023));
    assert_eq!(next_day(2023, 12, 31), (1, 1, 2024));
    let d = dates_for_year(2024);
    assert_eq!(d.len(), 366);
    assert_eq!(d[0], (1, 1));
    assert_eq!(d[59], (2, 29));
    assert_eq!(d[365], (12, 31));
    assert_eq!(dates_for_year(2023).len(), 365);
}

#[test]
fn report_text() {
    assert_eq!(excerpt("a\nb\tc", 10), "a\\nb\\tc");
    assert_eq!(excerpt("abcdef", 3), "abc…");
    assert_eq!(excerpt("abc", 3), "abc");
    assert_eq!(excerpt("x", 0), "…");
    assert_eq!(html_escape("<a href=\"x\">Tom & 'Jerry'</a>"), "&lt;a href=&quot;x&quot;&gt;Tom &amp; &#39;Jerry&#39;&lt;/a&gt;");
    let hay: Vec<char> = "abcabc".chars().collect();
    let bc: Vec<char> = "bc".chars().collect();
    assert_eq!(subslice_find(&hay, &bc, 0), Some(1));
    assert_eq!(subslice_find(&hay, &bc, 2), Some(4));
    assert_eq!(subslice_find(&hay, &bc, 5), None);
    assert_eq!(subslice_find(&hay, &[], 0), None);
}

#[test]
fn layer_report_labels() {
    assert_eq!(layer_label(Layer::Pius1570), "Pius V (1570) baseline");
    assert_eq!(layer_year_range(Layer::PiusXIIPre1954), "1954");
    assert_eq!(layer_year_range(Layer::JohnXXIII1960), "1960 — present");
}

#[test]
fn year_ranges_in_three_spellings() {
    assert_eq!(parse_year_range("1976:2076"), Some((1976, 2076)));
    assert_eq!(parse_year_range("1976..=2076"), Some((1976, 2076)));
    assert_eq!(parse_year_range("1976..2077"), Some((1976, 2076)));
    assert_eq!(parse_year_range("-5:+5"), Some((-5, 5)));
}

#[test]
fn year_ranges_that_do_not_parse() {
    assert_eq!(parse_year_range("2026"), None);
    assert_eq!(parse_year_range("1976-2076"), None);
    assert_eq!(parse_year_range("1976:"), None);
    assert_eq!(parse_year_range("a..b"), None);
    // The first `:` decides, even when a range follows it.
    assert_eq!(parse_year_range("1:2..3"), None);
    assert_eq!(parse_year_range("1976:99999999999"), None);
}

fn block(text: &str) -> ProperBlock {
    ProperBlock { latin: text.to_string(), source: FileKey::parse("Sancti/05-02"), via_commune: false }
}

#[test]
fn mass_proper_by_section_name() {
    let mut p = MassPropers::default();
    p.introitus = Some(block("Gaudeamus"));
    p.postcommunio = Some(block("Sumpsimus"));
    assert_eq!(rust_block(&p, "Introitus").map(|b| b.latin.as_str()), Some("Gaudeamus"));
    assert_eq!(rust_block(&p, "Postcommunio").map(|b| b.latin.as_str()), Some("Sumpsimus"));
    assert!(rust_block(&p, "Oratio").is_none());
    assert!(rust_block(&p, "Kyrie").is_none());
}

#[test]
fn cell_comparison_keys_keep_order() {
    let cells = vec![
        Cell {
            stem: "01-11".to_string(),
            officium: "Sexta die infra Octavam Epiphaniae".to_string(),
            rank: "2".to_string(),
            rank_label: "Semiduplex".to_string(),
            kind: "main".to_string(),
        },
        Cell {
            stem: "01-11cc".to_string(),
            officium: "S. Hygini".to_string(),
            rank: "1".to_string(),
            rank_label: String::new(),
            kind: "commemoratio".to_string(),
        },
    ];
    let keys = cell_cmp_key(&cells);
    assert_eq!(keys.len(), 2);
    assert_eq!(
        keys[1],
        ("01-11cc".to_string(), "S. Hygini".to_string(), "1".to_string(), "commemoratio".to_string())
    );
    assert_eq!(keys[0].0, "01-11");
    assert!(cell_cmp_key(&[]).is_empty());
}
