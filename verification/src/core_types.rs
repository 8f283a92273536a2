//! The value types of the rubric core: dates, rubrics, locale, office
//! inputs, Mass propers, rank classes and kinds, day kinds, seasons,
//! colours, file keys, rule lines and reform traces.

use vstd::prelude::*;
use crate::kalendaria_layers::Layer;
use crate::text::{index_from, index_from_exec, pad_int, push_char, push_pad_int, push_str, string_of, chars_of, eq_str};

verus! {

// ─── Date ────────────────────────────────────────────────────────────

/// Gregorian date.
#[derive(Debug, Clone, Copy, PartialEq, Eq, Hash, PartialOrd, Ord, Structural)]
pub struct Date {
    pub year: i32,
    pub month: u32,
    pub day: u32,
}

/// `YYYY-MM-DD`, each field zero-padded.
pub open spec fn iso_date_text(y: int, m: int, d: int) -> Seq<char> {
    pad_int(y, 4) + seq!['-'] + pad_int(m, 2) + seq!['-'] + pad_int(d, 2)
}

impl Date {
    pub fn new(year: i32, month: u32, day: u32) -> (r: Self)
        ensures
            r.year == year,
            r.month == month,
            r.day == day,
    {
        Date { year, month, day }
    }

    /// The date as `YYYY-MM-DD` (`{:04}-{:02}-{:02}`).
    pub fn to_string(&self) -> (r: String)
        ensures
            r@ == iso_date_text(self.year as int, self.month as int, self.day as int),
    {
        let mut s = String::new();
        push_pad_int(&mut s, self.year as i64, 4);
        push_char(&mut s, '-');
        push_pad_int(&mut s, self.month as i64, 2);
        push_char(&mut s, '-');
        push_pad_int(&mut s, self.day as i64, 2);
        assert(s@ =~= iso_date_text(self.year as int, self.month as int, self.day as int));
        s
    }
}

// ─── Rubric ──────────────────────────────────────────────────────────

#[derive(Debug, Clone, Copy, PartialEq, Eq, Hash, Structural)]
pub enum Rubric {
    Tridentine1570,
    Tridentine1910,
    DivinoAfflatu1911,
    Reduced1955,
    Rubrics1960,
    Monastic,
}

pub open spec fn version_name_text(r: Rubric) -> Seq<char> {
    match r {
        Rubric::Tridentine1570 => "Tridentine - 1570"@,
        Rubric::Tridentine1910 => "Tridentine - 1906/1910"@,
        Rubric::DivinoAfflatu1911 => "Divino Afflatu"@,
        Rubric::Reduced1955 => "Reduced - 1955"@,
        Rubric::Rubrics1960 => "Rubrics 1960 - 1960"@,
        Rubric::Monastic => "pre-Trident Monastic"@,
    }
}

pub open spec fn slug_text(r: Rubric) -> Seq<char> {
    match r {
        Rubric::Tridentine1570 => "trid-1570"@,
        Rubric::Tridentine1910 => "trid-1910"@,
        Rubric::DivinoAfflatu1911 => "divino-afflatu"@,
        Rubric::Reduced1955 => "reduced-1955"@,
        Rubric::Rubrics1960 => "rubrics-1960"@,
        Rubric::Monastic => "monastic"@,
    }
}

pub open spec fn transfer_tag_text(r: Rubric) -> Seq<char> {
    match r {
        Rubric::Tridentine1570 => "1570"@,
        Rubric::Tridentine1910 => "1906"@,
        Rubric::DivinoAfflatu1911 => "DA"@,
        Rubric::Reduced1955 => "1960"@,
        Rubric::Rubrics1960 => "1960"@,
        Rubric::Monastic => "M1617"@,
    }
}

/// The kalendar layer a rubric reads its saints from.
pub open spec fn layer_of_rubric(r: Rubric) -> Layer {
    match r {
        Rubric::Tridentine1570 => Layer::Pius1570,
        Rubric::Tridentine1910 => Layer::PiusX1906,
        Rubric::DivinoAfflatu1911 => Layer::PiusXI1939,
        Rubric::Reduced1955 => Layer::PiusXII1955,
        Rubric::Rubrics1960 => Layer::JohnXXIII1960,
        Rubric::Monastic => Layer::Pius1570,
    }
}

impl Rubric {
    /// The five Roman rubrics, oldest first (Monastic excluded).
    pub const ALL_ROMAN: [Rubric; 5] = [
        Rubric::Tridentine1570,
        Rubric::Tridentine1910,
        Rubric::DivinoAfflatu1911,
        Rubric::Reduced1955,
        Rubric::Rubrics1960,
    ];

    /// The rubric's name as the Divinum Officium office and Mass scripts
    /// take it in their `version` parameter.
    pub fn as_perl_version(self) -> (r: &'static str)
        ensures
            r@ == version_name_text(self),
    {
        match self {
            Rubric::Tridentine1570 => "Tridentine - 1570",
            Rubric::Tridentine1910 => "Tridentine - 1906/1910",
            Rubric::DivinoAfflatu1911 => "Divino Afflatu",
            Rubric::Reduced1955 => "Reduced - 1955",
            Rubric::Rubrics1960 => "Rubrics 1960 - 1960",
            Rubric::Monastic => "pre-Trident Monastic",
        }
    }

    /// Filesystem-safe slug.
    pub fn slug(self) -> (r: &'static str)
        ensures
            r@ == slug_text(self),
    {
        match self {
            Rubric::Tridentine1570 => "trid-1570",
            Rubric::Tridentine1910 => "trid-1910",
            Rubric::DivinoAfflatu1911 => "divino-afflatu",
            Rubric::Reduced1955 => "reduced-1955",
            Rubric::Rubrics1960 => "rubrics-1960",
            Rubric::Monastic => "monastic",
        }
    }

    /// The rubric tag of the transfer tables (`1570`, `1906`, `DA`,
    /// `1960`, `M1617`); Reduced 1955 uses the 1960 transfer rules.
    pub fn transfer_rubric_tag(self) -> (r: &'static str)
        ensures
            r@ == transfer_tag_text(self),
    {
        match self {
            Rubric::Tridentine1570 => "1570",
            Rubric::Tridentine1910 => "1906",
            Rubric::DivinoAfflatu1911 => "DA",
            Rubric::Reduced1955 => "1960",
            Rubric::Rubrics1960 => "1960",
            Rubric::Monastic => "M1617",
        }
    }

    /// The kalendar layer this rubric reads its saints from.
    pub fn kalendar_layer(self) -> (r: Layer)
        ensures
            r == layer_of_rubric(self),
    {
        match self {
            Rubric::Tridentine1570 => Layer::Pius1570,
            Rubric::Tridentine1910 => Layer::PiusX1906,
            Rubric::DivinoAfflatu1911 => Layer::PiusXI1939,
            Rubric::Reduced1955 => Layer::PiusXII1955,
            Rubric::Rubrics1960 => Layer::JohnXXIII1960,
            Rubric::Monastic => Layer::Pius1570,
        }
    }
}

// ─── Locale ──────────────────────────────────────────────────────────

/// The rubric core operates in Latin.
#[derive(Debug, Clone, Copy, PartialEq, Eq, Hash, Structural)]
pub enum Locale {
    Latin,
}

// ─── OfficeInput ─────────────────────────────────────────────────────

#[derive(Debug, Clone, Copy, PartialEq, Eq, Hash, Structural)]
pub struct OfficeInput {
    pub date: Date,
    pub rubric: Rubric,
    pub locale: Locale,
    /// `true` when the caller renders the Mass rather than the Office.
    pub is_mass_context: bool,
}

// ─── Mass propers ────────────────────────────────────────────────────

#[derive(Debug, Clone, Default)]
pub struct MassPropers {
    pub introitus: Option<ProperBlock>,
    pub oratio: Option<ProperBlock>,
    pub lectio: Option<ProperBlock>,
    pub graduale: Option<ProperBlock>,
    pub tractus: Option<ProperBlock>,
    pub sequentia: Option<ProperBlock>,
    pub evangelium: Option<ProperBlock>,
    pub offertorium: Option<ProperBlock>,
    pub secreta: Option<ProperBlock>,
    pub prefatio: Option<ProperBlock>,
    pub communio: Option<ProperBlock>,
    pub postcommunio: Option<ProperBlock>,
    pub commemorations: Vec<MassCommemoration>,
}

#[derive(Debug, Clone)]
pub struct ProperBlock {
    pub latin: String,
    pub source: FileKey,
    /// True when the body was pulled from the Commune rather than
    /// being proper to the winning office.
    pub via_commune: bool,
}

#[derive(Debug, Clone)]
pub struct MassCommemoration {
    pub source: FileKey,
    pub oratio: Option<ProperBlock>,
    pub secreta: Option<ProperBlock>,
    pub postcommunio: Option<ProperBlock>,
}

// ─── Rank ────────────────────────────────────────────────────────────

/// Coarse precedence class; declared from the highest class down, so
/// a smaller class outranks a larger one.
#[derive(Debug, Clone, Copy, PartialEq, Eq, Hash, PartialOrd, Ord, Structural)]
pub enum RankClass {
    First,
    Second,
    Third,
    Fourth,
}

pub open spec fn class_label(c: RankClass) -> Seq<char> {
    match c {
        RankClass::First => "I classis"@,
        RankClass::Second => "II classis"@,
        RankClass::Third => "III classis"@,
        RankClass::Fourth => "IV classis"@,
    }
}

impl RankClass {
    pub fn label(self) -> (r: &'static str)
        ensures
            r@ == class_label(self),
    {
        match self {
            RankClass::First => "I classis",
            RankClass::Second => "II classis",
            RankClass::Third => "III classis",
            RankClass::Fourth => "IV classis",
        }
    }
}

/// The rubrical rank kinds, from above I classis down to Simplex, plus
/// Feria and Commemoration.
#[derive(Debug, Clone, Copy, PartialEq, Eq, Hash, Structural)]
pub enum RankKind {
    Above,
    DuplexIClassis,
    DuplexIIClassis,
    DuplexMajus,
    Duplex,
    Semiduplex,
    Simplex,
    Feria,
    Commemoration,
}

// ─── DayKind / Season / Color / CommuneType ──────────────────────────

#[derive(Debug, Clone, Copy, PartialEq, Eq, Hash, Structural)]
pub enum DayKind {
    Sunday,
    Feria,
    Feast,
    OctaveDay,
    Vigil,
    EmberDay,
    RogationDay,
}

#[derive(Debug, Clone, Copy, PartialEq, Eq, Hash, Structural)]
pub enum Season {
    Advent,
    Christmas,
    Septuagesima,
    Lent,
    Passiontide,
    Easter,
    PentecostOctave,
    PostPentecost,
    PostEpiphany,
}

#[derive(Debug, Clone, Copy, PartialEq, Eq, Hash, Structural)]
pub enum Color {
    White,
    Red,
    Green,
    Purple,
    Black,
    Rose,
}

#[derive(Debug, Clone, Copy, PartialEq, Eq, Hash, Structural)]
pub enum CommuneType {
    /// No Common: the office is wholly proper.
    NoCommune,
    /// `vide C2a-1`: some sections proper, some from the Common.
    Vide,
    /// `ex C2a-1`: drawn directly from the Common.
    Ex,
}

// ─── FileKey ─────────────────────────────────────────────────────────

/// Typed handle for a Mass / Office data-file key: `Sancti/04-29`,
/// `Tempora/Pasc3-0`, `Commune/C2a-1`.
#[derive(Debug, Clone, PartialEq, Eq, Hash)]
pub struct FileKey {
    pub category: FileCategory,
    pub stem: String,
}

#[derive(Debug, Clone, PartialEq, Eq, Hash)]
pub enum FileCategory {
    Sancti,
    Tempora,
    Commune,
    SanctiM,
    SanctiOP,
    SanctiCist,
    Other(String),
}

/// The path prefix a category renders as.
pub open spec fn category_text(c: FileCategory) -> Seq<char> {
    match c {
        FileCategory::Sancti => "Sancti"@,
        FileCategory::Tempora => "Tempora"@,
        FileCategory::Commune => "Commune"@,
        FileCategory::SanctiM => "SanctiM"@,
        FileCategory::SanctiOP => "SanctiOP"@,
        FileCategory::SanctiCist => "SanctiCist"@,
        FileCategory::Other(s) => s@,
    }
}

/// The six category names that have a variant of their own.
pub open spec fn is_named_category(h: Seq<char>) -> bool {
    h == "Sancti"@ || h == "Tempora"@ || h == "Commune"@ || h == "SanctiM"@
        || h == "SanctiOP"@ || h == "SanctiCist"@
}

/// The part of a key before its first `/` (empty when there is none).
pub open spec fn key_head(s: Seq<char>) -> Seq<char> {
    let i = index_from(s, '/', 0);
    if i < s.len() { s.subrange(0, i) } else { Seq::empty() }
}

/// The part of a key after its first `/` (all of it when there is none).
pub open spec fn key_stem(s: Seq<char>) -> Seq<char> {
    let i = index_from(s, '/', 0);
    if i < s.len() { s.subrange(i + 1, s.len() as int) } else { s }
}

/// A key rendered from its category prefix and stem.
pub open spec fn key_text(head: Seq<char>, stem: Seq<char>) -> Seq<char> {
    if head.len() == 0 { stem } else { head + seq!['/'] + stem }
}

impl FileKey {
    /// Parse `"Sancti/04-29"` into `{ Sancti, "04-29" }`. The text
    /// before the first `/` picks the category (an unknown one is
    /// kept as `Other`); input without a `/` maps to `Other("")` with
    /// the whole text as stem.
    pub fn parse(s: &str) -> (r: Self)
        ensures
            category_text(r.category) == key_head(s@),
            (r.category is Other) <==> !is_named_category(key_head(s@)),
            r.stem@ == key_stem(s@),
    {
        let v = chars_of(s);
        let i = index_from_exec(&v, '/', 0);
        if i == v.len() {
            let stem = string_of(&v, 0, v.len());
            assert(v@.subrange(0, v@.len() as int) =~= v@);
            proof {
                reveal_strlit("Sancti");
                reveal_strlit("Tempora");
                reveal_strlit("Commune");
                reveal_strlit("SanctiM");
                reveal_strlit("SanctiOP");
                reveal_strlit("SanctiCist");
                assert(key_head(s@) =~= Seq::<char>::empty());
            }
            return FileKey { category: FileCategory::Other(String::new()), stem };
        }
        let stem = string_of(&v, i + 1, v.len());
        let head = string_of(&v, 0, i);
        let hv = chars_of(head.as_str());
        let category = if eq_str(&hv, "Sancti") {
            FileCategory::Sancti
        } else if eq_str(&hv, "Tempora") {
            FileCategory::Tempora
        } else if eq_str(&hv, "Commune") {
            FileCategory::Commune
        } else if eq_str(&hv, "SanctiM") {
            FileCategory::SanctiM
        } else if eq_str(&hv, "SanctiOP") {
            FileCategory::SanctiOP
        } else if eq_str(&hv, "SanctiCist") {
            FileCategory::SanctiCist
        } else {
            FileCategory::Other(head)
        };
        FileKey { category, stem }
    }

    /// `prefix/stem`, or the bare stem when the prefix is empty.
    pub fn render(&self) -> (r: String)
        ensures
            r@ == key_text(category_text(self.category), self.stem@),
    {
        let prefix: &str = match &self.category {
            FileCategory::Sancti => "Sancti",
            FileCategory::Tempora => "Tempora",
            FileCategory::Commune => "Commune",
            FileCategory::SanctiM => "SanctiM",
            FileCategory::SanctiOP => "SanctiOP",
            FileCategory::SanctiCist => "SanctiCist",
            FileCategory::Other(s) => s.as_str(),
        };
        if prefix.is_empty() {
            self.stem.clone()
        } else {
            let mut out = String::new();
            push_str(&mut out, prefix);
            push_char(&mut out, '/');
            push_str(&mut out, self.stem.as_str());
            assert(out@ =~= key_text(category_text(self.category), self.stem@));
            out
        }
    }

    /// Same text as [`FileKey::render`].
    pub fn to_string(&self) -> (r: String)
        ensures
            r@ == key_text(category_text(self.category), self.stem@),
    {
        self.render()
    }
}

/// Rendering a parsed key gives the key back, for every key that does
/// not start with `/` (there the empty prefix is dropped on rendering).
pub proof fn lemma_file_key_round_trip(s: Seq<char>)
    requires
        !(s.len() > 0 && s[0] == '/'),
    ensures
        key_text(key_head(s), key_stem(s)) == s,
{
    let i = index_from(s, '/', 0);
    crate::text::lemma_index_from_bounds(s, '/', 0);
    if i < s.len() {
        crate::text::lemma_index_from_first(s, '/', 0);
        assert(i != 0);
        assert(s.subrange(0, i) + seq!['/'] + s.subrange(i + 1, s.len() as int) =~= s);
    }
}

// ─── RuleLine ────────────────────────────────────────────────────────

/// A line from the tail of a `[Rank]` section (`"no Gloria"`,
/// `"Credo"`, `"Preface=Communis"`).
#[derive(Debug, Clone, PartialEq, Eq, Hash)]
pub struct RuleLine(pub String);

// ─── ReformAction ────────────────────────────────────────────────────

/// One step of a reform trace: which layer made a decision, of which
/// kind, and why.
#[derive(Debug, Clone)]
pub struct ReformAction {
    pub layer: &'static str,
    pub kind: ReformActionKind,
    pub note: String,
}

#[derive(Debug, Clone, Copy, PartialEq, Eq, Hash, Structural)]
pub enum ReformActionKind {
    KalendarSuppressed,
    KalendarDemoted,
    KalendarAdded,
    KalendarTransferred,
    RubricOverride,
    CorpusOverride,
}

// ─── VespersSplit ────────────────────────────────────────────────────

/// First-vespers concurrence: today's evening office switches to
/// tomorrow's at the given break-point.
#[derive(Debug, Clone)]
pub struct VespersSplit {
    pub split_at: VespersSplitPoint,
    pub from: FileKey,
    pub to: FileKey,
}

#[derive(Debug, Clone, Copy, PartialEq, Eq, Hash, Structural)]
pub enum VespersSplitPoint {
    AfterCapitulum,
    AtMagnificat,
}

} // verus!
