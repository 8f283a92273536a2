use officium_rs::horas::{first_path_token, parse_vide_targets};

#[test]
fn parse_vide_targets_handles_common_shapes() {
    let r = "vide C7a;\n9 lectiones";
    assert_eq!(parse_vide_targets(r), vec!["Commune/C7a".to_string()]);
    let r = "vide C10b";
    assert_eq!(parse_vide_targets(r), vec!["Commune/C10b".to_string()]);
    let r = "C4;\nClass III";
    assert_eq!(parse_vide_targets(r), vec!["Commune/C4".to_string()]);
    let r = "Confessor; Class III";
    assert!(parse_vide_targets(r).is_empty());
}

#[test]
fn parse_vide_targets_handles_hyphenated_commune_subkey() {
    let r = "vide C6-1;\n";
    assert_eq!(parse_vide_targets(r), vec!["Commune/C6-1".to_string()]);
    let r = "vide C2-1;\n9 lectiones";
    assert_eq!(parse_vide_targets(r), vec!["Commune/C2-1".to_string()]);
    let r = "vide C7a-1b";
    assert_eq!(parse_vide_targets(r), vec!["Commune/C7a-1b".to_string()]);
    let r = "vide C7-;";
    assert!(parse_vide_targets(r).is_empty());
}

#[test]
fn parse_vide_targets_handles_ex_inherit() {
    let r = "ex Sancti/01-06\nLectio1 tempora\n9 lectiones\nFeria Te Deum";
    let targets = parse_vide_targets(r);
    assert!(targets.contains(&"Sancti/01-06".to_string()));
    let r = "ex Tempora/Pasc1-0\nvide C12\n9 lectiones";
    let targets = parse_vide_targets(r);
    assert!(targets.contains(&"Tempora/Pasc1-0".to_string()));
    assert!(targets.contains(&"Commune/C12".to_string()));
}

#[test]
fn parse_vide_targets_handles_at_inherit() {
    let r = "@Sancti/01-25\n9 lectiones";
    let targets = parse_vide_targets(r);
    assert!(targets.contains(&"Sancti/01-25".to_string()));
}

#[test]
fn parse_vide_targets_orders_and_dedups() {
    let r = "ex Tempora/Pasc1-0\nvide C12\nvide C12;\n@Tempora/Pasc1-0";
    assert_eq!(
        parse_vide_targets(r),
        vec!["Commune/C12".to_string(), "Tempora/Pasc1-0".to_string()]
    );
}

#[test]
fn parse_vide_targets_reads_rank_line_fields() {
    let r = ";;Duplex;;3.1;;vide Sancti/06-24";
    assert_eq!(parse_vide_targets(r), vec!["Sancti/06-24".to_string()]);
    let r = "(sed rubrica monastica) ex Sancti/06-24";
    assert!(parse_vide_targets(r).is_empty());
    let r = "vide sancti/06-24;";
    assert_eq!(parse_vide_targets(r), vec!["Sancti/06-24".to_string()]);
}

#[test]
fn first_path_token_canonicalises_directories() {
    assert_eq!(first_path_token("  sanctim/01-01, more"), Some("SanctiM/01-01".to_string()));
    assert_eq!(first_path_token("SANCTIOP/04-30;"), Some("SanctiOP/04-30".to_string()));
    assert_eq!(first_path_token("Commune/C4 and"), Some("Commune/C4".to_string()));
    assert_eq!(first_path_token("C4"), None);
    assert_eq!(first_path_token("   "), None);
}
