//! Year-aware kalendar layers.
//!
//! The sanctoral kalendar is a chain of superseding diffs over the
//! 1570 baseline (1570 → 1888 → 1906 → 1939 → 1954 → 1955 → 1960).
//! A [`KalendariaTable`] holds the resolved table at each point of the
//! chain, keyed by the layer's key and by `MM-DD`; [`layer_for_year`]
//! picks the layer active in a given year and [`lookup`] reads a day.

use vstd::prelude::*;
use vstd::hash_map::StringHashMap;
use crate::date::mm_dd;
use crate::text::{push_char, push_pad_int, same_text};

verus! {

/// One sanctoral cell of a day under a layer: the main feast or one
/// of its commemorations.
#[derive(Debug, Clone)]
pub struct Cell {
    /// Sancti file stem (`01-01`, `02-23o`, `08-09cc`, …).
    pub stem: String,
    /// Officium label as it appears in the kalendar.
    pub officium: String,
    /// Numeric rank, as text (`"1"`..`"7"`, `"1.5"`).
    pub rank: String,
    /// Rank class label (`"Simplex"`, `"Vigilia"`, …), possibly empty.
    pub rank_label: String,
    /// `"main"` or `"commemoratio"`.
    pub kind: String,
}

impl Cell {
    /// True for the main-feast cell of a date, false for a
    /// commemoration.
    pub fn is_main(&self) -> (r: bool)
        ensures
            r == (self.kind@ == "main"@),
    {
        same_text(self.kind.as_str(), "main")
    }
}

/// One day's resolved cells under a layer: the main feast first, then
/// the commemorations.
pub type Entry = Vec<Cell>;

/// The seven kalendar layers, in chronological order.
#[derive(Debug, Clone, Copy, PartialEq, Eq, PartialOrd, Ord, Hash, Structural)]
pub enum Layer {
    /// Pius V baseline. Active 1570-1887.
    Pius1570,
    /// Leo XIII updates. Active 1888-1905.
    LeoXIII1888,
    /// Pius X early reforms. Active 1906-1938.
    PiusX1906,
    /// Pius XI updates. Active 1939-1953.
    PiusXI1939,
    /// Pius XII pre-Reduced kalendar. Active 1954.
    PiusXIIPre1954,
    /// Pius XII Reduced kalendar. Active 1955-1959.
    PiusXII1955,
    /// John XXIII rubrics. Active 1960 onward.
    JohnXXIII1960,
}

/// Chronological position of a layer (0 for the 1570 baseline).
pub open spec fn layer_rank(l: Layer) -> int {
    match l {
        Layer::Pius1570 => 0,
        Layer::LeoXIII1888 => 1,
        Layer::PiusX1906 => 2,
        Layer::PiusXI1939 => 3,
        Layer::PiusXIIPre1954 => 4,
        Layer::PiusXII1955 => 5,
        Layer::JohnXXIII1960 => 6,
    }
}

/// The key of a layer in the resolved table.
pub open spec fn layer_key(l: Layer) -> Seq<char> {
    match l {
        Layer::Pius1570 => "1570"@,
        Layer::LeoXIII1888 => "1888"@,
        Layer::PiusX1906 => "1906"@,
        Layer::PiusXI1939 => "1939"@,
        Layer::PiusXIIPre1954 => "1954"@,
        Layer::PiusXII1955 => "1955"@,
        Layer::JohnXXIII1960 => "1960"@,
    }
}

/// The layer in force in year `y`.
pub open spec fn layer_of_year(y: int) -> Layer {
    if y <= 1887 {
        Layer::Pius1570
    } else if y <= 1905 {
        Layer::LeoXIII1888
    } else if y <= 1938 {
        Layer::PiusX1906
    } else if y <= 1953 {
        Layer::PiusXI1939
    } else if y == 1954 {
        Layer::PiusXIIPre1954
    } else if y <= 1959 {
        Layer::PiusXII1955
    } else {
        Layer::JohnXXIII1960
    }
}

impl Layer {
    /// The layer's key in the resolved table (`"1570"`, …, `"1960"`).
    pub fn key(self) -> (r: &'static str)
        ensures
            r@ == layer_key(self),
    {
        match self {
            Layer::Pius1570 => "1570",
            Layer::LeoXIII1888 => "1888",
            Layer::PiusX1906 => "1906",
            Layer::PiusXI1939 => "1939",
            Layer::PiusXIIPre1954 => "1954",
            Layer::PiusXII1955 => "1955",
            Layer::JohnXXIII1960 => "1960",
        }
    }
}

/// Map a calendar year to its active kalendar layer.
pub fn layer_for_year(year: i32) -> (r: Layer)
    ensures
        r == layer_of_year(year as int),
{
    if year <= 1887 {
        Layer::Pius1570
    } else if year <= 1905 {
        Layer::LeoXIII1888
    } else if year <= 1938 {
        Layer::PiusX1906
    } else if year <= 1953 {
        Layer::PiusXI1939
    } else if year == 1954 {
        Layer::PiusXIIPre1954
    } else if year <= 1959 {
        Layer::PiusXII1955
    } else {
        Layer::JohnXXIII1960
    }
}

/// Layers never go back in time: a later year has the same or a later
/// layer.
pub proof fn lemma_layer_for_year_monotone(y1: int, y2: int)
    requires
        y1 <= y2,
    ensures
        layer_rank(layer_of_year(y1)) <= layer_rank(layer_of_year(y2)),
{
}

/// Distinct layers have distinct keys, so no two layers share a table.
pub proof fn lemma_layer_keys_distinct(a: Layer, b: Layer)
    requires
        a != b,
    ensures
        layer_key(a) != layer_key(b),
{
    reveal_strlit("1570");
    reveal_strlit("1888");
    reveal_strlit("1906");
    reveal_strlit("1939");
    reveal_strlit("1954");
    reveal_strlit("1955");
    reveal_strlit("1960");
    assert(layer_key(a)[2] != layer_key(b)[2] || layer_key(a)[3] != layer_key(b)[3]);
}

/// One layer's resolved kalendar: `MM-DD` → entry.
pub struct LayerDays {
    pub days: StringHashMap<Entry>,
}

impl LayerDays {
    /// A layer listing no day.
    pub fn new() -> (r: Self)
        ensures
            r.days@ == Map::<Seq<char>, Entry>::empty(),
    {
        LayerDays { days: StringHashMap::new() }
    }

    /// Lists `entry` under `mm_dd`, replacing an earlier entry.
    pub fn insert(&mut self, mm_dd: String, entry: Entry)
        ensures
            final(self).days@ == old(self).days@.insert(mm_dd@, entry),
    {
        self.days.insert(mm_dd, entry);
    }
}

/// The resolved kalendar of every layer: layer key → `MM-DD` → entry.
pub struct KalendariaTable {
    pub layers: StringHashMap<LayerDays>,
}

impl KalendariaTable {
    /// An empty table.
    pub fn new() -> (r: Self)
        ensures
            r.layers@ == Map::<Seq<char>, LayerDays>::empty(),
    {
        KalendariaTable { layers: StringHashMap::new() }
    }

    /// Sets the days of the layer keyed `key`, replacing earlier ones.
    pub fn insert_layer(&mut self, key: String, days: LayerDays)
        ensures
            final(self).layers@ == old(self).layers@.insert(key@, days),
    {
        self.layers.insert(key, days);
    }
}

/// Whether `table` lists `mmdd` under `layer`.
pub open spec fn table_has(table: &KalendariaTable, layer: Layer, mmdd: Seq<char>) -> bool {
    table.layers@.contains_key(layer_key(layer))
        && table.layers@[layer_key(layer)].days@.contains_key(mmdd)
}

/// Look up the resolved entry for `(month, day)` under `layer`.
/// `None` when the layer's kalendar does not list the date: the day is
/// ferial under that layer.
pub fn lookup<'a>(table: &'a KalendariaTable, layer: Layer, month: u32, day: u32) -> (r: Option<&'a Entry>)
    ensures
        match r {
            Some(e) => table_has(table, layer, mm_dd(month as int, day as int))
                && *e == table.layers@[layer_key(layer)].days@[mm_dd(month as int, day as int)],
            None => !table_has(table, layer, mm_dd(month as int, day as int)),
        },
{
    let mut mmdd = String::new();
    push_pad_int(&mut mmdd, month as i64, 2);
    push_char(&mut mmdd, '-');
    push_pad_int(&mut mmdd, day as i64, 2);
    assert(mmdd@ =~= mm_dd(month as int, day as int));
    match table.layers.get(layer.key()) {
        Some(layer_days) => layer_days.days.get(mmdd.as_str()),
        None => None,
    }
}

/// Look up `(month, day)` under the layer active in `year`.
pub fn lookup_for_year<'a>(table: &'a KalendariaTable, year: i32, month: u32, day: u32) -> (r: Option<&'a Entry>)
    ensures
        match r {
            Some(e) => table_has(table, layer_of_year(year as int), mm_dd(month as int, day as int))
                && *e == table.layers@[layer_key(layer_of_year(year as int))].days@[mm_dd(month as int, day as int)],
            None => !table_has(table, layer_of_year(year as int), mm_dd(month as int, day as int)),
        },
{
    lookup(table, layer_for_year(year), month, day)
}

} // verus!
