//! Helpers of the regression sweeps that compare the rubric core with
//! the reference renderer: rubric names and slugs, the days of a year,
//! year-range arguments, text excerpts and HTML escaping for the
//! reports, the Mass proper of a section name, comparison keys of
//! kalendar cells and the layer labels of the kalendar report.

use vstd::prelude::*;
use crate::core_types::{MassPropers, ProperBlock, Rubric};
use crate::date::{leap_year, month_len, parse_i32, parse_i32_chars};
use crate::horas::{find_pat, lemma_find_pat_bounds};
use crate::kalendaria_layers::{Cell, Layer};
use crate::text::{chars_of, is_ascii_alnum, matches_at, occurs_at, owned, push_char, push_str, same_text};

verus! {

// ─── Rubric names ────────────────────────────────────────────────────

/// The rubric a sweep's rubric name denotes.
pub open spec fn rubric_of_name(s: Seq<char>) -> Option<Rubric> {
    if s == "Tridentine - 1570"@ {
        Some(Rubric::Tridentine1570)
    } else if s == "Tridentine - 1910"@ {
        Some(Rubric::Tridentine1910)
    } else if s == "Divino Afflatu - 1939"@ {
        Some(Rubric::DivinoAfflatu1911)
    } else if s == "Reduced - 1955"@ {
        Some(Rubric::Reduced1955)
    } else if s == "Rubrics 1960 - 1960"@ {
        Some(Rubric::Rubrics1960)
    } else {
        None
    }
}

/// Parses one of the sweep's rubric names.
pub fn parse_rubric(s: &str) -> (r: Option<Rubric>)
    ensures
        r == rubric_of_name(s@),
{
    if same_text(s, "Tridentine - 1570") {
        Some(Rubric::Tridentine1570)
    } else if same_text(s, "Tridentine - 1910") {
        Some(Rubric::Tridentine1910)
    } else if same_text(s, "Divino Afflatu - 1939") {
        Some(Rubric::DivinoAfflatu1911)
    } else if same_text(s, "Reduced - 1955") {
        Some(Rubric::Reduced1955)
    } else if same_text(s, "Rubrics 1960 - 1960") {
        Some(Rubric::Rubrics1960)
    } else {
        None
    }
}

/// A character of a slug: ASCII letters and digits kept, anything else
/// `_`.
pub open spec fn slug_char(c: char) -> char {
    if is_ascii_alnum(c) { c } else { '_' }
}

/// `s[i..]` mapped to slug characters with runs of `_` collapsed to one
/// (`prev` tells whether an `_` was just written).
pub open spec fn slug_from(s: Seq<char>, i: int, prev: bool) -> Seq<char>
    decreases s.len() - i,
{
    if i < 0 || i >= s.len() {
        Seq::empty()
    } else if slug_char(s[i]) == '_' {
        (if prev { Seq::empty() } else { seq!['_'] }) + slug_from(s, i + 1, true)
    } else {
        seq![s[i]] + slug_from(s, i + 1, false)
    }
}

/// Length of `s[..k]` once trailing `_` are removed.
pub open spec fn us_trimmed_len(s: Seq<char>, k: int) -> int
    decreases k,
{
    if k > 0 && s[k - 1] == '_' { us_trimmed_len(s, k - 1) } else { k }
}

/// The first position of `s[from..k]` that is not `_` (`k` when none).
pub open spec fn skip_us(s: Seq<char>, from: int, k: int) -> int
    decreases k - from,
{
    if from < k && s[from] == '_' { skip_us(s, from + 1, k) } else { from }
}

/// The filesystem-safe slug of a rubric name: non-alphanumerics as
/// single `_`, none at either end.
pub open spec fn slug_text(s: Seq<char>) -> Seq<char> {
    let m = slug_from(s, 0, false);
    let e = us_trimmed_len(m, m.len() as int);
    m.subrange(skip_us(m, 0, e), e)
}

pub proof fn lemma_us_trim_bounds(s: Seq<char>, k: int)
    requires
        0 <= k,
    ensures
        0 <= us_trimmed_len(s, k) <= k,
    decreases k,
{
    if k > 0 && s[k - 1] == '_' {
        lemma_us_trim_bounds(s, k - 1);
    }
}

/// Stable slug of a rubric name, used as a cache directory name.
pub fn slugify_rubric(r: &str) -> (out: String)
    ensures
        out@ == slug_text(r@),
{
    let v = chars_of(r);
    let mut m: Vec<char> = Vec::new();
    let mut prev = false;
    let mut i: usize = 0;
    while i < v.len()
        invariant
            i <= v@.len(),
            m@ + slug_from(v@, i as int, prev) == slug_from(v@, 0, false),
        decreases v.len() - i,
    {
        let c = v[i];
        let mapped = if ('A' <= c && c <= 'Z') || ('a' <= c && c <= 'z') || ('0' <= c && c <= '9') { c } else { '_' };
        let ghost before = m@;
        if mapped == '_' {
            if !prev {
                m.push('_');
            }
            assert(before + slug_from(v@, i as int, prev) =~= m@ + slug_from(v@, i + 1, true));
            prev = true;
        } else {
            m.push(c);
            assert(before + slug_from(v@, i as int, prev) =~= m@ + slug_from(v@, i + 1, false));
            prev = false;
        }
        i = i + 1;
    }
    assert(m@ + slug_from(v@, i as int, prev) =~= m@);
    let mut e = m.len();
    while e > 0 && m[e - 1] == '_'
        invariant
            e <= m@.len(),
            us_trimmed_len(m@, e as int) == us_trimmed_len(m@, m@.len() as int),
        decreases e,
    {
        e = e - 1;
    }
    let mut b: usize = 0;
    while b < e && m[b] == '_'
        invariant
            b <= e <= m@.len(),
            e == us_trimmed_len(m@, m@.len() as int),
            skip_us(m@, b as int, e as int) == skip_us(m@, 0, e as int),
        decreases e - b,
    {
        b = b + 1;
    }
    crate::text::string_of(&m, b, e)
}

// ─── The days of a year ──────────────────────────────────────────────

/// Number of days of month `month` (1..=12) of `year`.
pub fn days_in_month(year: i32, month: u32) -> (r: u32)
    requires
        1 <= month <= 12,
    ensures
        r == month_len(month as int, year as int),
{
    if month == 1 || month == 3 || month == 5 || month == 7 || month == 8 || month == 10 || month == 12 {
        31
    } else if month == 4 || month == 6 || month == 9 || month == 11 {
        30
    } else if leap_year(year) {
        29
    } else {
        28
    }
}

/// The calendar day after `day`/`month`/`year`, as `(month, day, year)`:
/// the next day of the month, else the 1st of the next month, else
/// January 1st of the next year.
pub open spec fn following_day(year: int, month: int, day: int) -> (int, int, int) {
    if day < month_len(month, year) {
        (month, day + 1, year)
    } else if month < 12 {
        (month + 1, 1, year)
    } else {
        (1, 1, year + 1)
    }
}

/// The calendar day after a date, as `(month, day, year)`.
pub fn next_day(year: i32, month: u32, day: u32) -> (r: (u32, u32, i32))
    requires
        1 <= month <= 12,
        !(month == 12 && day >= 31 && year == i32::MAX),
    ensures
        r.0 == following_day(year as int, month as int, day as int).0,
        r.1 == following_day(year as int, month as int, day as int).1,
        r.2 == following_day(year as int, month as int, day as int).2,
{
    let dim = days_in_month(year, month);
    if day < dim {
        (month, day + 1, year)
    } else if month < 12 {
        (month + 1, 1, year)
    } else {
        (1, 1, year + 1)
    }
}

/// The `(month, day)` pairs of months `m..=12` of year `y`, in order.
pub open spec fn dates_from_month(y: int, m: int) -> Seq<(u32, u32)>
    decreases 13 - m,
{
    if m < 1 || m > 12 {
        Seq::empty()
    } else {
        Seq::new(month_len(m, y) as nat, |i: int| (m as u32, (i + 1) as u32)) + dates_from_month(y, m + 1)
    }
}

/// Every date of a year as `(month, day)`, in calendar order.
pub fn dates_for_year(year: i32) -> (r: Vec<(u32, u32)>)
    ensures
        r@ == dates_from_month(year as int, 1),
{
    let mut out: Vec<(u32, u32)> = Vec::new();
    let mut m: u32 = 1;
    while m <= 12
        invariant
            1 <= m <= 13,
            out@ + dates_from_month(year as int, m as int) == dates_from_month(year as int, 1),
        decreases 13 - m,
    {
        let dim = days_in_month(year, m);
        let ghost start = out@;
        let mut d: u32 = 1;
        while d <= dim
            invariant
                1 <= d <= dim + 1,
                dim == month_len(m as int, year as int),
                1 <= m <= 12,
                out@ == start + Seq::new((d - 1) as nat, |i: int| (m as u32, (i + 1) as u32)),
            decreases dim + 1 - d,
        {
            out.push((m, d));
            assert(out@ =~= start + Seq::new(d as nat, |i: int| (m as u32, (i + 1) as u32)));
            d = d + 1;
        }
        assert(start + dates_from_month(year as int, m as int)
            =~= out@ + dates_from_month(year as int, m + 1));
        m = m + 1;
    }
    assert(out@ + dates_from_month(year as int, 13) =~= out@);
    out
}

// ─── Report text ─────────────────────────────────────────────────────

/// How `excerpt` writes one character: newline and tab escaped.
pub open spec fn excerpt_char(c: char) -> Seq<char> {
    if c == '\n' { seq!['\\', 'n'] } else if c == '\t' { seq!['\\', 't'] } else { seq![c] }
}

/// Every character of `s` written as `excerpt_char` says.
pub open spec fn excerpt_escape(s: Seq<char>) -> Seq<char>
    decreases s.len(),
{
    if s.len() == 0 { Seq::empty() } else { excerpt_escape(s.drop_last()) + excerpt_char(s.last()) }
}

/// At most `max` characters of `s`, escaped, followed by `…` when some
/// were left out.
pub open spec fn excerpt_text(s: Seq<char>, max: int) -> Seq<char> {
    if s.len() <= max { excerpt_escape(s) } else { excerpt_escape(s.subrange(0, max)) + seq!['…'] }
}

/// A one-line excerpt of at most `max_chars` characters.
pub fn excerpt(s: &str, max_chars: usize) -> (r: String)
    ensures
        r@ == excerpt_text(s@, max_chars as int),
{
    let v = chars_of(s);
    let mut out = String::new();
    let mut i: usize = 0;
    while i < v.len()
        invariant
            i <= v@.len(),
            i <= max_chars,
            v@ == s@,
            out@ == excerpt_escape(v@.subrange(0, i as int)),
        decreases v.len() - i,
    {
        if i >= max_chars {
            push_char(&mut out, '…');
            assert(v@.subrange(0, i as int) =~= v@.subrange(0, max_chars as int));
            return out;
        }
        let c = v[i];
        if c == '\n' {
            push_str(&mut out, "\\n");
        } else if c == '\t' {
            push_str(&mut out, "\\t");
        } else {
            push_char(&mut out, c);
        }
        proof {
            reveal_strlit("\\n");
            reveal_strlit("\\t");
            let next = v@.subrange(0, i + 1);
            assert(next.drop_last() =~= v@.subrange(0, i as int));
            assert(next.last() == c);
            assert(out@ =~= excerpt_escape(next));
        }
        i = i + 1;
    }
    assert(v@.subrange(0, i as int) =~= s@);
    out
}

/// How one character is written in HTML text.
pub open spec fn html_char(c: char) -> Seq<char> {
    if c == '&' {
        "&amp;"@
    } else if c == '<' {
        "&lt;"@
    } else if c == '>' {
        "&gt;"@
    } else if c == '"' {
        "&quot;"@
    } else if c == '\'' {
        "&#39;"@
    } else {
        seq![c]
    }
}

/// `s` escaped for HTML text, character by character.
pub open spec fn html_text(s: Seq<char>) -> Seq<char>
    decreases s.len(),
{
    if s.len() == 0 { Seq::empty() } else { html_text(s.drop_last()) + html_char(s.last()) }
}

/// Escapes `&`, `<`, `>`, `"` and `'` for HTML.
pub fn html_escape(s: &str) -> (r: String)
    ensures
        r@ == html_text(s@),
{
    let v = chars_of(s);
    let mut out = String::new();
    let mut i: usize = 0;
    while i < v.len()
        invariant
            i <= v@.len(),
            v@ == s@,
            out@ == html_text(v@.subrange(0, i as int)),
        decreases v.len() - i,
    {
        let c = v[i];
        if c == '&' {
            push_str(&mut out, "&amp;");
        } else if c == '<' {
            push_str(&mut out, "&lt;");
        } else if c == '>' {
            push_str(&mut out, "&gt;");
        } else if c == '"' {
            push_str(&mut out, "&quot;");
        } else if c == '\'' {
            push_str(&mut out, "&#39;");
        } else {
            push_char(&mut out, c);
        }
        proof {
            let next = v@.subrange(0, i + 1);
            assert(next.drop_last() =~= v@.subrange(0, i as int));
            assert(next.last() == c);
            assert(out@ =~= html_text(next));
        }
        i = i + 1;
    }
    assert(v@.subrange(0, i as int) =~= s@);
    out
}

/// Finds `needle` in `haystack` at or after `from`.
pub fn subslice_find(haystack: &[char], needle: &[char], from: usize) -> (r: Option<usize>)
    ensures
        match r {
            Some(i) => {
                &&& needle@.len() > 0
                &&& from <= i <= haystack@.len() - needle@.len()
                &&& occurs_at(haystack@, needle@, i as int)
                &&& forall|j: int| from <= j < i ==> !occurs_at(haystack@, needle@, j)
            },
            None => needle@.len() == 0 || forall|j: int|
                from <= j <= haystack@.len() - needle@.len() ==> !occurs_at(haystack@, needle@, j),
        },
{
    if needle.len() == 0 || haystack.len() < needle.len() {
        return None;
    }
    let max = haystack.len() - needle.len();
    let mut i = from;
    while i <= max
        invariant
            from <= i,
            needle@.len() > 0,
            max == haystack@.len() - needle@.len(),
            max + 1 <= haystack.len(),
            forall|j: int| from <= j < i ==> !occurs_at(haystack@, needle@, j),
        decreases max + 1 - i,
    {
        if crate::text::matches_at(haystack, i, needle) {
            return Some(i);
        }
        i = i + 1;
    }
    None
}

// ─── Layer labels ────────────────────────────────────────────────────

pub open spec fn layer_label_text(l: Layer) -> Seq<char> {
    match l {
        Layer::Pius1570 => "Pius V (1570) baseline"@,
        Layer::LeoXIII1888 => "Leo XIII / Pius IX era (1888)"@,
        Layer::PiusX1906 => "Pius X early reforms (1906)"@,
        Layer::PiusXI1939 => "Pius XI updates (1939)"@,
        Layer::PiusXIIPre1954 => "Pius XII pre-Reduced (1954)"@,
        Layer::PiusXII1955 => "Pius XII Reduced (Cum nostra hac aetate, 1955)"@,
        Layer::JohnXXIII1960 => "John XXIII Rubrics (1960)"@,
    }
}

pub open spec fn layer_years_text(l: Layer) -> Seq<char> {
    match l {
        Layer::Pius1570 => "1570 — 1887"@,
        Layer::LeoXIII1888 => "1888 — 1905"@,
        Layer::PiusX1906 => "1906 — 1938"@,
        Layer::PiusXI1939 => "1939 — 1953"@,
        Layer::PiusXIIPre1954 => "1954"@,
        Layer::PiusXII1955 => "1955 — 1959"@,
        Layer::JohnXXIII1960 => "1960 — present"@,
    }
}

/// A layer's name in the kalendar report.
pub fn layer_label(layer: Layer) -> (r: &'static str)
    ensures
        r@ == layer_label_text(layer),
{
    match layer {
        Layer::Pius1570 => "Pius V (1570) baseline",
        Layer::LeoXIII1888 => "Leo XIII / Pius IX era (1888)",
        Layer::PiusX1906 => "Pius X early reforms (1906)",
        Layer::PiusXI1939 => "Pius XI updates (1939)",
        Layer::PiusXIIPre1954 => "Pius XII pre-Reduced (1954)",
        Layer::PiusXII1955 => "Pius XII Reduced (Cum nostra hac aetate, 1955)",
        Layer::JohnXXIII1960 => "John XXIII Rubrics (1960)",
    }
}

/// The years a layer is in force, as the kalendar report prints them.
pub fn layer_year_range(layer: Layer) -> (r: &'static str)
    ensures
        r@ == layer_years_text(layer),
{
    match layer {
        Layer::Pius1570 => "1570 — 1887",
        Layer::LeoXIII1888 => "1888 — 1905",
        Layer::PiusX1906 => "1906 — 1938",
        Layer::PiusXI1939 => "1939 — 1953",
        Layer::PiusXIIPre1954 => "1954",
        Layer::PiusXII1955 => "1955 — 1959",
        Layer::JohnXXIII1960 => "1960 — present",
    }
}

// ─── Year ranges ─────────────────────────────────────────────────────

/// Both values, when both are there.
pub open spec fn both(a: Option<int>, b: Option<int>) -> Option<(int, int)> {
    match (a, b) {
        (Some(x), Some(y)) => Some((x, y)),
        _ => None,
    }
}

/// The year range a sweep's `FROM:TO`, `FROM..=TO` or `FROM..TO`
/// argument denotes (both ends inclusive; `..` excludes `TO`). The
/// first `:` decides when there is one, else the first `..=`, else the
/// first `..`; both ends must parse as `i32`.
pub open spec fn year_range(s: Seq<char>) -> Option<(int, int)> {
    let c = find_pat(s, seq![':'], 0);
    let e = find_pat(s, seq!['.', '.', '='], 0);
    let d = find_pat(s, seq!['.', '.'], 0);
    if c < s.len() {
        both(parse_i32(s.subrange(0, c)), parse_i32(s.subrange(c + 1, s.len() as int)))
    } else if e < s.len() {
        both(parse_i32(s.subrange(0, e)), parse_i32(s.subrange(e + 3, s.len() as int)))
    } else if d < s.len() {
        match both(parse_i32(s.subrange(0, d)), parse_i32(s.subrange(d + 2, s.len() as int))) {
            Some((a, b)) => Some((a, b - 1)),
            None => None,
        }
    } else {
        None
    }
}

/// The first occurrence of `p` in `v` (`v.len()` when none).
fn find_first(v: &[char], p: &[char]) -> (r: usize)
    ensures
        r as int == find_pat(v@, p@, 0),
        r <= v@.len(),
        r < v@.len() ==> occurs_at(v@, p@, r as int),
{
    let mut i: usize = 0;
    while i < v.len() && !matches_at(v, i, p)
        invariant
            i <= v@.len(),
            find_pat(v@, p@, i as int) == find_pat(v@, p@, 0),
        decreases v.len() - i,
    {
        i = i + 1;
    }
    proof { lemma_find_pat_bounds(v@, p@, i as int); }
    i
}

/// Parses a sweep's year-range argument (`FROM:TO`, `FROM..=TO` or
/// `FROM..TO`) into an inclusive range.
pub fn parse_year_range(s: &str) -> (r: Option<(i32, i32)>)
    requires
        match year_range(s@) {
            Some((_, b)) => i32::MIN <= b,
            None => true,
        },
    ensures
        match year_range(s@) {
            Some((a, b)) => r == Some((a as i32, b as i32)),
            None => r is None,
        },
{
    let v = chars_of(s);
    let n = v.len();
    let colon = find_first(&v, &[':']);
    let ghost c_pat = seq![':'];
    assert([':']@ =~= c_pat);
    if colon < n {
        proof { assert(occurs_at(v@, c_pat, colon as int)); }
        let a = parse_i32_chars(&v, 0, colon);
        let b = parse_i32_chars(&v, colon + 1, n);
        return match (a, b) {
            (Some(x), Some(y)) => Some((x, y)),
            _ => None,
        };
    }
    let incl = find_first(&v, &['.', '.', '=']);
    assert(['.', '.', '=']@ =~= seq!['.', '.', '=']);
    if incl < n {
        proof { assert(occurs_at(v@, seq!['.', '.', '='], incl as int)); }
        let a = parse_i32_chars(&v, 0, incl);
        let b = parse_i32_chars(&v, incl + 3, n);
        return match (a, b) {
            (Some(x), Some(y)) => Some((x, y)),
            _ => None,
        };
    }
    let excl = find_first(&v, &['.', '.']);
    assert(['.', '.']@ =~= seq!['.', '.']);
    if excl < n {
        proof { assert(occurs_at(v@, seq!['.', '.'], excl as int)); }
        let b = parse_i32_chars(&v, excl + 2, n);
        let a = parse_i32_chars(&v, 0, excl);
        return match (a, b) {
            (Some(x), Some(y)) => Some((x, y - 1)),
            _ => None,
        };
    }
    None
}

// ─── Comparison keys ─────────────────────────────────────────────────

/// The proper of `p` named by a Mass section name (`None` for a name
/// that is not one of the twelve proper sections).
pub open spec fn proper_slot(p: MassPropers, name: Seq<char>) -> Option<ProperBlock> {
    if name == "Introitus"@ {
        p.introitus
    } else if name == "Oratio"@ {
        p.oratio
    } else if name == "Lectio"@ {
        p.lectio
    } else if name == "Graduale"@ {
        p.graduale
    } else if name == "Tractus"@ {
        p.tractus
    } else if name == "Sequentia"@ {
        p.sequentia
    } else if name == "Evangelium"@ {
        p.evangelium
    } else if name == "Offertorium"@ {
        p.offertorium
    } else if name == "Secreta"@ {
        p.secreta
    } else if name == "Prefatio"@ {
        p.prefatio
    } else if name == "Communio"@ {
        p.communio
    } else if name == "Postcommunio"@ {
        p.postcommunio
    } else {
        None
    }
}

/// The proper block of `p` for the Mass section `name`.
pub fn rust_block<'a>(p: &'a MassPropers, name: &str) -> (r: Option<&'a ProperBlock>)
    ensures
        match r {
            Some(b) => proper_slot(*p, name@) == Some(*b),
            None => proper_slot(*p, name@) is None,
        },
{
    if same_text(name, "Introitus") {
        p.introitus.as_ref()
    } else if same_text(name, "Oratio") {
        p.oratio.as_ref()
    } else if same_text(name, "Lectio") {
        p.lectio.as_ref()
    } else if same_text(name, "Graduale") {
        p.graduale.as_ref()
    } else if same_text(name, "Tractus") {
        p.tractus.as_ref()
    } else if same_text(name, "Sequentia") {
        p.sequentia.as_ref()
    } else if same_text(name, "Evangelium") {
        p.evangelium.as_ref()
    } else if same_text(name, "Offertorium") {
        p.offertorium.as_ref()
    } else if same_text(name, "Secreta") {
        p.secreta.as_ref()
    } else if same_text(name, "Prefatio") {
        p.prefatio.as_ref()
    } else if same_text(name, "Communio") {
        p.communio.as_ref()
    } else if same_text(name, "Postcommunio") {
        p.postcommunio.as_ref()
    } else {
        None
    }
}

/// The fields by which two kalendar days are compared across layers:
/// each cell's stem, officium, rank and kind, in order.
pub fn cell_cmp_key(cells: &[Cell]) -> (r: Vec<(String, String, String, String)>)
    ensures
        r@.len() == cells@.len(),
        forall|i: int| 0 <= i < cells@.len() ==> {
            &&& (#[trigger] r@[i]).0@ == cells@[i].stem@
            &&& r@[i].1@ == cells@[i].officium@
            &&& r@[i].2@ == cells@[i].rank@
            &&& r@[i].3@ == cells@[i].kind@
        },
{
    let mut out: Vec<(String, String, String, String)> = Vec::new();
    let mut i: usize = 0;
    while i < cells.len()
        invariant
            i <= cells@.len(),
            out@.len() == i,
            forall|j: int| 0 <= j < i ==> {
                &&& (#[trigger] out@[j]).0@ == cells@[j].stem@
                &&& out@[j].1@ == cells@[j].officium@
                &&& out@[j].2@ == cells@[j].rank@
                &&& out@[j].3@ == cells@[j].kind@
            },
        decreases cells.len() - i,
    {
        let c = &cells[i];
        out.push((owned(c.stem.as_str()), owned(c.officium.as_str()), owned(c.rank.as_str()), owned(c.kind.as_str())));
        i = i + 1;
    }
    out
}

} // verus!
