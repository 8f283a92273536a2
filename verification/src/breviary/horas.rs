//! The canonical hours of the Roman Office, their headings and their
//! Ordinarium templates, and the psalter variant selection.

use vstd::prelude::*;
use crate::core_types::Rubric;
use crate::text::push_str;

verus! {

/// The eight canonical hours, in liturgical order.
#[derive(Debug, Clone, Copy, PartialEq, Eq, Hash, Structural)]
pub enum Hour {
    Matutinum,
    Laudes,
    Prima,
    Tertia,
    Sexta,
    Nona,
    Vespera,
    Completorium,
}

/// The hour's name, as used in section keys (`Hymnus Vespera`).
pub open spec fn hour_name(h: Hour) -> Seq<char> {
    match h {
        Hour::Matutinum => "Matutinum"@,
        Hour::Laudes => "Laudes"@,
        Hour::Prima => "Prima"@,
        Hour::Tertia => "Tertia"@,
        Hour::Sexta => "Sexta"@,
        Hour::Nona => "Nona"@,
        Hour::Vespera => "Vespera"@,
        Hour::Completorium => "Completorium"@,
    }
}

/// The Ordinarium template of an hour: Tertia, Sexta and Nona share
/// `Minor`.
pub open spec fn ordinarium_name(h: Hour) -> Seq<char> {
    match h {
        Hour::Tertia | Hour::Sexta | Hour::Nona => "Minor"@,
        _ => hour_name(h),
    }
}

/// The hour a name denotes; `Vesperae` is accepted for Vespera.
pub open spec fn hour_of_name(s: Seq<char>) -> Option<Hour> {
    if s == "Matutinum"@ { Some(Hour::Matutinum) }
    else if s == "Laudes"@ { Some(Hour::Laudes) }
    else if s == "Prima"@ { Some(Hour::Prima) }
    else if s == "Tertia"@ { Some(Hour::Tertia) }
    else if s == "Sexta"@ { Some(Hour::Sexta) }
    else if s == "Nona"@ { Some(Hour::Nona) }
    else if s == "Vespera"@ || s == "Vesperae"@ { Some(Hour::Vespera) }
    else if s == "Completorium"@ { Some(Hour::Completorium) }
    else { None }
}

/// The heading `Ad <hour>`: the accusative of motion (`Ad Primam`,
/// `Ad Tertiam`), `Ad Vesperas` for Vespera, unchanged names not
/// ending in `a`.
pub open spec fn heading_text(h: Hour) -> Seq<char> {
    if h == Hour::Vespera {
        "Ad Vesperas"@
    } else if hour_name(h).last() == 'a' {
        "Ad "@ + hour_name(h) + seq!['m']
    } else {
        "Ad "@ + hour_name(h)
    }
}

impl Hour {
    /// All eight hours in canonical liturgical order.
    pub const ALL: [Hour; 8] = [
        Hour::Matutinum,
        Hour::Laudes,
        Hour::Prima,
        Hour::Tertia,
        Hour::Sexta,
        Hour::Nona,
        Hour::Vespera,
        Hour::Completorium,
    ];

    /// The hour's name (used as section-key suffix).
    pub fn as_str(self) -> (r: &'static str)
        ensures
            r@ == hour_name(self),
    {
        match self {
            Hour::Matutinum => "Matutinum",
            Hour::Laudes => "Laudes",
            Hour::Prima => "Prima",
            Hour::Tertia => "Tertia",
            Hour::Sexta => "Sexta",
            Hour::Nona => "Nona",
            Hour::Vespera => "Vespera",
            Hour::Completorium => "Completorium",
        }
    }

    /// The Ordinarium template file of the hour.
    pub fn ordinarium_filename(self) -> (r: &'static str)
        ensures
            r@ == ordinarium_name(self),
    {
        match self {
            Hour::Tertia | Hour::Sexta | Hour::Nona => "Minor",
            other => other.as_str(),
        }
    }

    /// Parses an hour name, case-sensitively; `Vesperae` is accepted
    /// for Vespera.
    pub fn parse(s: &str) -> (r: Option<Hour>)
        ensures
            r == hour_of_name(s@),
    {
        let v = crate::text::chars_of(s);
        if crate::text::eq_str(&v, "Matutinum") { Some(Hour::Matutinum) }
        else if crate::text::eq_str(&v, "Laudes") { Some(Hour::Laudes) }
        else if crate::text::eq_str(&v, "Prima") { Some(Hour::Prima) }
        else if crate::text::eq_str(&v, "Tertia") { Some(Hour::Tertia) }
        else if crate::text::eq_str(&v, "Sexta") { Some(Hour::Sexta) }
        else if crate::text::eq_str(&v, "Nona") { Some(Hour::Nona) }
        else if crate::text::eq_str(&v, "Vespera") || crate::text::eq_str(&v, "Vesperae") { Some(Hour::Vespera) }
        else if crate::text::eq_str(&v, "Completorium") { Some(Hour::Completorium) }
        else { None }
    }
}

/// Parsing an hour's name gives the hour back.
pub proof fn lemma_hour_name_round_trip(h: Hour)
    ensures
        hour_of_name(hour_name(h)) == Some(h),
{
    reveal_strlit("Matutinum");
    reveal_strlit("Laudes");
    reveal_strlit("Prima");
    reveal_strlit("Tertia");
    reveal_strlit("Sexta");
    reveal_strlit("Nona");
    reveal_strlit("Vespera");
    reveal_strlit("Vesperae");
    reveal_strlit("Completorium");
    let n = hour_name(h);
    assert(n.len() != "Matutinum"@.len() || n[0] != "Matutinum"@[0] || h == Hour::Matutinum);
    assert(n.len() != "Laudes"@.len() || n[0] != "Laudes"@[0] || h == Hour::Laudes);
    assert(n.len() != "Prima"@.len() || n[0] != "Prima"@[0] || h == Hour::Prima);
    assert(n.len() != "Tertia"@.len() || n[0] != "Tertia"@[0] || h == Hour::Tertia);
    assert(n.len() != "Sexta"@.len() || n[0] != "Sexta"@[0] || h == Hour::Sexta);
    assert(n.len() != "Nona"@.len() || n[0] != "Nona"@[0] || h == Hour::Nona);
    assert(n.len() != "Vespera"@.len() || n[0] != "Vespera"@[0] || h == Hour::Vespera);
    assert(n.len() != "Completorium"@.len() || n[0] != "Completorium"@[0] || h == Hour::Completorium);
    if h == Hour::Matutinum { assert(n =~= "Matutinum"@); }
    if h == Hour::Laudes { assert(n =~= "Laudes"@); }
    if h == Hour::Prima { assert(n =~= "Prima"@); }
    if h == Hour::Tertia { assert(n =~= "Tertia"@); }
    if h == Hour::Sexta { assert(n =~= "Sexta"@); }
    if h == Hour::Nona { assert(n =~= "Nona"@); }
    if h == Hour::Vespera { assert(n =~= "Vespera"@); }
    if h == Hour::Completorium { assert(n =~= "Completorium"@); }
}

/// The heading of an hour (`Ad Matutinum`, `Ad Primam`, `Ad Vesperas`, …).
pub fn ad_horam_heading(hour: Hour) -> (r: String)
    ensures
        r@ == heading_text(hour),
{
    if hour == Hour::Vespera {
        return "Ad Vesperas".to_owned();
    }
    let name = hour.as_str();
    let v = crate::text::chars_of(name);
    let mut out = String::new();
    push_str(&mut out, "Ad ");
    push_str(&mut out, name);
    proof {
        reveal_strlit("Matutinum");
        reveal_strlit("Laudes");
        reveal_strlit("Prima");
        reveal_strlit("Tertia");
        reveal_strlit("Sexta");
        reveal_strlit("Nona");
        reveal_strlit("Completorium");
    }
    if v.len() > 0 && v[v.len() - 1] == 'a' {
        crate::text::push_char(&mut out, 'm');
    }
    out
}

/// The psalter text to read: with `psalmvar` the Bea revision
/// (`(true, "Latin-Bea")`), else the Vulgate (`(false, "Latin")`). The
/// rubric does not enter into it.
pub fn resolve_psalter_variant(rubric: Rubric, psalmvar: bool) -> (r: (bool, &'static str))
    ensures
        r.0 == psalmvar,
        r.1@ == (if psalmvar { "Latin-Bea"@ } else { "Latin"@ }),
{
    if psalmvar {
        (true, "Latin-Bea")
    } else {
        (false, "Latin")
    }
}

} // verus!
