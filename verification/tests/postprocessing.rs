use officium_rs::breviary::postprocess::{alleluia_required, depunct, set_asterisk};
use officium_rs::breviary::specials::winner_rule;
use officium_rs::core_types::{RuleLine, Season};

#[test]
fn depunct_strips_punctuation() {
    assert_eq!(depunct("Beatus vir, qui non abiit."), "Beatus vir qui non abiit");
    assert_eq!(depunct("(quis dabit?) — quia non!"), "quis dabit — quia non");
    assert_eq!(depunct("'singles' \"doubles\""), "singles doubles");
}

#[test]
fn depunct_folds_accents() {
    assert_eq!(depunct("Beátus vir"), "Beatus vir");
    assert_eq!(depunct("órat"), "orat");
    assert_eq!(depunct("túus"), "tuus");
    assert_eq!(depunct("DÓminus"), "Dominus");
    assert_eq!(depunct("Élatus"), "elatus");
    assert_eq!(depunct("Á"), "a");
    assert_eq!(depunct("Cantátes"), "Cantates");
}

#[test]
fn depunct_substitutes_j_to_i() {
    assert_eq!(depunct("Jesus Justus"), "Iesus Iustus");
    assert_eq!(depunct("majestas"), "maiestas");
}

#[test]
fn depunct_expands_ligatures() {
    assert_eq!(depunct("cæli"), "caeli");
    assert_eq!(depunct("œcumenicus"), "oecumenicus");
    assert_eq!(depunct("præfatio cælestis"), "praefatio caelestis");
}

#[test]
fn depunct_preserves_other_characters() {
    assert_eq!(depunct("ABCdef 123"), "ABCdef 123");
    assert_eq!(depunct(""), "");
}

#[test]
fn set_asterisk_passes_through_already_asterisked() {
    let line = "Beatus vir qui * non abiit in consilio impiorum";
    assert_eq!(set_asterisk(line), line);
}

#[test]
fn set_asterisk_short_line_uses_space_split() {
    let result = set_asterisk("Beatus vir qui non abiit");
    assert!(result.contains('*'), "no asterisk in: {result:?}");
    let parts: Vec<&str> = result.split('*').collect();
    assert_eq!(parts.len(), 2, "expected exactly one asterisk: {result:?}");
    assert!(!parts[0].trim().is_empty());
    assert!(!parts[1].trim().is_empty());
}

#[test]
fn set_asterisk_uses_punctuation_when_available() {
    let line = "Cantate Domino canticum novum: cantate Domino omnis terra";
    let result = set_asterisk(line);
    assert!(result.contains(": *") || result.contains(":*"));
}

#[test]
fn set_asterisk_strips_trailing_whitespace() {
    let result = set_asterisk("Beatus vir qui   ");
    assert!(!result.ends_with("   "));
}

#[test]
fn set_asterisk_produces_balanced_split_for_average_line() {
    let line = "in domo Domini ambulabamus cum consensu";
    let result = set_asterisk(line);
    assert!(result.contains('*'));
    assert!(result.contains("Domini") || result.contains("ambulabamus"));
}

#[test]
fn set_asterisk_preserves_unicode() {
    let line = "Beátus vir qui non ábiit in consílio impiórum";
    let result = set_asterisk(line);
    assert!(result.contains('*'));
    assert!(result.contains("Beátus"));
    assert!(result.contains("impiórum"));
}

#[test]
fn set_asterisk_long_line_uses_lp2_24() {
    let line = "Et facta est super eum manus Domini, et locutus est ad Ezechielem prophetam Ego Dominus Deus tuus";
    let result = set_asterisk(line);
    assert!(result.contains('*'));
}

#[test]
fn set_asterisk_exact_splits() {
    assert_eq!(
        set_asterisk("Cantate Domino canticum novum: cantate Domino omnis terra"),
        "Cantate Domino canticum novum: * cantate Domino omnis terra"
    );
    assert_eq!(set_asterisk("Beatus vir qui non abiit"), "Beatus vir * qui non abiit");
    assert_eq!(
        set_asterisk("Et facta est super eum manus Domini, et locutus est ad Ezechielem prophetam Ego Dominus Deus tuus"),
        "Et facta est super eum manus Domini,* et locutus est ad Ezechielem prophetam Ego Dominus Deus tuus"
    );
    assert_eq!(set_asterisk("Beatus vir qui   "), "Beatus * vir qui");
    assert_eq!(set_asterisk("abc"), "abc * ");
    assert_eq!(set_asterisk(""), " * ");
    assert_eq!(
        set_asterisk("Laudate, pueri, Dominum: laudate nomen Domini."),
        "Laudate, pueri, Dominum: * laudate nomen Domini."
    );
    assert_eq!(
        set_asterisk("in domo Domini ambulabamus cum consensu"),
        "in domo Domini * ambulabamus cum consensu"
    );
}

#[test]
fn depunct_leaves_no_folded_characters() {
    let out = depunct("Jésus, Dóminus: æternus (cælum)! œ'\"*;?");
    for c in out.chars() {
        assert!(!".,:?!\"';*()áÁéÉíÍóöõÓÖÔúüûÚÜÛJjæœ".contains(c), "{c:?} left in {out:?}");
    }
}

#[test]
fn set_asterisk_inserts_exactly_one() {
    for line in [
        "Beatus vir qui non abiit in consilio impiorum",
        "Dixit Dominus Domino meo: Sede a dextris meis.",
        "a",
        "",
        "Laudate pueri Dominum, laudate nomen Domini; sit nomen Domini benedictum ex hoc nunc et usque in saeculum",
    ] {
        let out = set_asterisk(line);
        assert_eq!(out.matches('*').count(), 1, "{out:?}");
    }
}

#[test]
fn alleluia_required_only_in_easter() {
    assert!(alleluia_required(Season::Easter, ""));
    assert!(!alleluia_required(Season::Advent, ""));
    assert!(!alleluia_required(Season::Lent, ""));
}

#[test]
fn alleluia_required_suppressed_under_c9_or_c12_votive() {
    // Office of the Dead — no Alleluia even in Easter.
    assert!(!alleluia_required(Season::Easter, "C9"));
    // BMV Parva — same.
    assert!(!alleluia_required(Season::Easter, "C12"));
    // Other votive — Alleluia OK.
    assert!(alleluia_required(Season::Easter, "C7"));
    assert!(alleluia_required(Season::Easter, ""));
}

#[test]
fn alleluia_votive_match_is_a_substring_match() {
    assert!(!alleluia_required(Season::Easter, "Commune/C9"));
    assert!(!alleluia_required(Season::PentecostOctave, "C7"));
}

#[test]
fn winner_rule_joins_lines_with_newlines() {
    let rule = vec![
        RuleLine("vide C4a".to_string()),
        RuleLine("9 lectiones".to_string()),
        RuleLine("Credo".to_string()),
    ];
    assert_eq!(winner_rule(&rule), "vide C4a\n9 lectiones\nCredo");
    assert_eq!(winner_rule(&[]), "");
    assert_eq!(winner_rule(&[RuleLine("Gloria".to_string())]), "Gloria");
}

fn words_only(s: &str) -> String {
    s.chars().filter(|c| *c != '*' && !c.is_whitespace()).collect()
}

#[test]
fn set_asterisk_keeps_every_word_in_order() {
    for line in [
        "Beatus vir qui non abiit in consilio impiorum, et in via peccatorum non stetit",
        "Dixit Dominus Domino meo: Sede a dextris meis.",
        "Laudate pueri Dominum   ",
        "Amen.",
        "",
    ] {
        let out = set_asterisk(line);
        assert_eq!(words_only(&out), words_only(line), "{line:?} -> {out:?}");
    }
}
