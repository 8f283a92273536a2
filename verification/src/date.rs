//! Date arithmetic and the liturgical-calendar helpers of the
//! Divinum Officium calendar: leap years, Easter (Gregorian
//! computus), the first Sunday of Advent, day-of-week and day-of-year
//! conversions, the liturgical week label (`getweek`), the
//! August–December week blocks (`monthday`), the Sancti kalendar keys
//! with the Tridentine leap-day shift, and conversions to and from a
//! day count since 1970-01-01.
//!
//! All calendar arithmetic is proleptic Gregorian.

use vstd::prelude::*;
use vstd::arithmetic::div_mod::*;
use crate::text::{digit_char, has_prefix, index_from, index_from_exec, int_str, lemma_index_from_bounds, nat_str, pad_int, push_char, push_int, push_pad_int, push_str, zeros};

verus! {

// ─── Specifications ──────────────────────────────────────────────────

/// Gregorian leap-year rule.
pub open spec fn is_leap(y: int) -> bool {
    y % 4 == 0 && (y % 100 != 0 || y % 400 == 0)
}

/// Days before month `m` (1..=13) in a common year; month 13 stands for
/// the whole year.
pub open spec fn month_start(m: int) -> int {
    if m <= 1 { 0 }
    else if m == 2 { 31 }
    else if m == 3 { 59 }
    else if m == 4 { 90 }
    else if m == 5 { 120 }
    else if m == 6 { 151 }
    else if m == 7 { 181 }
    else if m == 8 { 212 }
    else if m == 9 { 243 }
    else if m == 10 { 273 }
    else if m == 11 { 304 }
    else if m == 12 { 334 }
    else { 365 }
}

/// Length of month `m` (1..=12) of year `y`; 0 outside 1..=12.
pub open spec fn month_len(m: int, y: int) -> int {
    if m == 1 || m == 3 || m == 5 || m == 7 || m == 8 || m == 10 || m == 12 { 31 }
    else if m == 4 || m == 6 || m == 9 || m == 11 { 30 }
    else if m == 2 { if is_leap(y) { 29 } else { 28 } }
    else { 0 }
}

/// Length of year `y` in days.
pub open spec fn year_len(y: int) -> int {
    if is_leap(y) { 366 } else { 365 }
}

/// A real calendar date.
pub open spec fn valid_date(d: int, m: int, y: int) -> bool {
    1 <= m <= 12 && 1 <= d <= month_len(m, y)
}

/// 1-based day of the year of `d`/`m`/`y` (Jan 1 = 1). Days past the
/// end of a month simply run on.
pub open spec fn ydays(d: int, m: int, y: int) -> int {
    month_start(m) + d + if m > 2 && is_leap(y) { 1int } else { 0int }
}

/// Days from the start of year 1 to the start of year `y` (negative
/// before year 1); consecutive values differ by the year's length.
pub open spec fn days_before_year(y: int) -> int {
    365 * y + (y - 1) / 4 - (y - 1) / 100 + (y - 1) / 400
}

/// Days since 1970-01-01 of `d`/`m`/`y`.
pub open spec fn epoch_days(d: int, m: int, y: int) -> int {
    days_before_year(y) - days_before_year(1970) + ydays(d, m, y) - 1
}

/// Day of the week, 0 = Sunday .. 6 = Saturday.
pub open spec fn dow(d: int, m: int, y: int) -> int {
    (days_before_year(y) - 1 + ydays(d, m, y)) % 7
}

/// Day of the year (1-based) of the first Sunday of Advent: the Sunday
/// before Christmas (a full week back when Christmas is a Sunday),
/// minus three weeks.
pub open spec fn advent1(y: int) -> int {
    let c = dow(25, 12, y);
    ydays(25, 12, y) - (if c == 0 { 7int } else { c }) - 21
}

/// Integer division truncating towards zero (Rust `/`), for `b != 0`.
pub open spec fn tdiv(a: int, b: int) -> int {
    if b < 0 {
        if a >= 0 { -(a / (-b)) } else { (-a) / (-b) }
    } else {
        if a >= 0 { a / b } else { -((-a) / b) }
    }
}

/// Remainder of truncating division (Rust `%`), for `b != 0`.
pub open spec fn tmod(a: int, b: int) -> int {
    a - b * tdiv(a, b)
}

/// The `H` term of the computus (the Paschal full moon's epact).
pub open spec fn computus_h(y: int) -> int {
    let g = tmod(y, 19);
    let c = tdiv(y, 100);
    tmod(c - tdiv(c, 4) - tdiv(8 * c + 13, 25) + 19 * g + 15, 30)
}

/// The "Anonymous Gregorian" computus, with
/// Rust's truncating integer division: returns `(l, month)` where the
/// Easter day of the month is `l + 28 - 31 * (month / 4)`.
pub open spec fn computus(y: int) -> (int, int) {
    let g = tmod(y, 19);
    let c = tdiv(y, 100);
    let h = computus_h(y);
    let i = h - tdiv(h, 28) * (1 - tdiv(h, 28) * (tdiv(29, h + 1) * tdiv(21 - g, 11)));
    let j = tmod(y + tdiv(y, 4) + i + 2 - c + tdiv(c, 4), 7);
    let l = i - j;
    let month = 3 + tdiv(l + 40, 44);
    (l, month)
}

/// Easter `(day, month)` of year `y`.
pub open spec fn easter_day(y: int) -> int {
    let (l, month) = computus(y);
    l + 28 - 31 * tdiv(month, 4)
}

pub open spec fn easter_month(y: int) -> int {
    computus(y).1
}

/// The Sancti kalendar `(month, day)` of a real date: in a leap year
/// real Feb 24 is the bissextile day (kalendar 02-29) and real
/// Feb 25..29 move down by one.
pub open spec fn sday(m: int, d: int, y: int) -> (int, int) {
    if is_leap(y) && m == 2 && d == 24 { (2, 29) }
    else if is_leap(y) && m == 2 && d > 24 { (2, d - 1) }
    else { (m, d) }
}

/// `MM-DD` rendering of a month/day pair.
pub open spec fn mm_dd(m: int, d: int) -> Seq<char> {
    pad_int(m, 2) + seq!['-'] + pad_int(d, 2)
}

/// `(day, month)` reached from day-of-year `d` by walking months from
/// `m`, as `ydays_to_date` does: whole months are skipped while `d`
/// exceeds the month's length, and the walk stops after December.
pub open spec fn ytd_walk(d: int, m: int, y: int) -> (int, int)
    decreases 13 - m,
{
    if 1 <= m <= 12 && d > month_len(m, y) {
        ytd_walk(d - month_len(m, y), m + 1, y)
    } else {
        (d, m)
    }
}


/// Whether `getweek` gets as far as computing Easter for this date: it
/// does unless the date falls from the first Sunday of Advent on, or in
/// January before the Sunday after Epiphany.
pub open spec fn getweek_needs_easter(day: int, month: int, year: int, tomorrow: bool) -> bool {
    let t = ydays(day, month, year) + if tomorrow { 1int } else { 0int };
    let ordtime = 6 + 7 - dow(6, 1, year);
    !(t >= advent1(year)) && !(month == 1 && day < ordtime - if tomorrow { 1int } else { 0int })
}

/// The inputs `getweek` handles: a month of the year, a day count that
/// leaves room for the day-of-year arithmetic, and (where Easter is
/// needed) a computus that yields a month of the year.
pub open spec fn getweek_domain(day: int, month: int, year: int, tomorrow: bool) -> bool {
    &&& 1 <= month <= 12
    &&& 0 <= day <= 0x7fff_0000
    &&& getweek_needs_easter(day, month, year, tomorrow) ==> {
        &&& computus_h(year) != -1
        &&& 1 <= easter_month(year) <= 12
        &&& 0 <= easter_day(year) <= 0x7fff_0000
    }
}

/// The liturgical week label of a date, as `getweek` gives it.
pub open spec fn week_label(day: int, month: int, year: int, tomorrow: bool, missa: bool) -> Seq<char> {
    let t = ydays(day, month, year) + if tomorrow { 1int } else { 0int };
    let a1 = advent1(year);
    let christmas = ydays(25, 12, year);
    let t_day = if tomorrow { day + 1 } else { day };
    if t >= a1 {
        if t < christmas && (month == 11 || day < 25) {
            "Adv"@ + int_str(1 + tdiv(t - a1, 7))
        } else {
            "Nat"@ + int_str(t_day)
        }
    } else {
        let ordtime = 6 + 7 - dow(6, 1, year);
        if month == 1 && day < ordtime - if tomorrow { 1int } else { 0int } {
            "Nat"@ + pad_int(t_day, 2)
        } else {
            let e = ydays(easter_day(year), easter_month(year), year);
            if t < e - 63 {
                "Epi"@ + int_str(1 + tdiv(t - ordtime, 7))
            } else if t < e - 56 {
                "Quadp1"@
            } else if t < e - 49 {
                "Quadp2"@
            } else if t < e - 42 {
                "Quadp3"@
            } else if t < e {
                "Quad"@ + int_str(1 + tdiv(t - (e - 42), 7))
            } else if t < e + 56 {
                "Pasc"@ + int_str(tdiv(t - e, 7))
            } else {
                let n = tdiv(t - (e + 49), 7);
                if n < 23 {
                    "Pent"@ + pad_int(n, 2)
                } else {
                    let wd = tdiv(a1 - t + 6, 7);
                    if wd < 2 {
                        "Pent24"@
                    } else if n == 23 {
                        "Pent23"@
                    } else if missa {
                        "PentEpi"@ + int_str(8 - wd)
                    } else {
                        "Epi"@ + int_str(8 - wd)
                    }
                }
            }
        }
    }
}


/// Day of the year of the "first Sunday" of month `m` used by the
/// August–December week blocks: the Sunday on or before the 1st when
/// the 1st falls Sunday..Wednesday, otherwise the following Sunday
/// (under the 1960 rubrics always the Sunday on or after the 1st).
pub open spec fn first_sunday(m: int, y: int, modern: bool) -> int {
    let dw = dow(1, m, y);
    ydays(1, m, y) - dw + if dw >= 4 || (dw != 0 && modern) { 7int } else { 0int }
}

/// The last month of `m..=12` whose first Sunday has been reached by
/// `base`, scanning upwards and stopping at the first month not yet
/// reached; `acc` when none.
pub open spec fn lit_month_from(m: int, base: int, y: int, modern: bool, acc: int) -> int
    decreases 13 - m,
{
    if m > 12 {
        acc
    } else if base >= first_sunday(m, y, modern) {
        lit_month_from(m + 1, base, y, modern, m)
    } else {
        acc
    }
}

/// The week number (0-based) within the August–December block `lm`.
pub open spec fn block_week(lm: int, base: int, y: int, modern: bool) -> int {
    let fs = first_sunday(lm, y, modern);
    let w0 = tdiv(base - fs, 7);
    let w1 = if lm == 10 && modern && w0 >= 2 && ytd_walk(fs, 1, y).0 >= 4 { w0 + 1 } else { w0 };
    if lm == 11 && (w1 > 0 || modern) {
        let a = 4 - tdiv(advent1(y) - base - 1, 7);
        if modern && a == 1 { 0 } else { a }
    } else {
        w1
    }
}

/// The `MMW-D` label of the August–December week blocks (`monthday`):
/// empty before the first Sunday of August, from the first Sunday of
/// Advent on, and for months before July.
pub open spec fn month_block(day: int, month: int, year: int, modern: bool, tomorrow: bool) -> Seq<char> {
    if month < 7 {
        Seq::empty()
    } else {
        let base = ydays(day, month, year) + if tomorrow { 1int } else { 0int };
        let lm = lit_month_from(8, base, year, modern, 0);
        if lm == 0 {
            Seq::empty()
        } else if lm > 10 && base >= advent1(year) {
            Seq::empty()
        } else {
            pad_int(lm, 2) + int_str(block_week(lm, base, year, modern) + 1) + seq!['-']
                + int_str(dow(day, month, year))
        }
    }
}


/// Days before month `m` of year `y` (leap day included).
pub open spec fn mstart(m: int, y: int) -> int {
    month_start(m) + if m > 2 && is_leap(y) { 1int } else { 0int }
}

/// The real date `(day, month, year)` lying `k` days after 1970-01-01.
pub open spec fn civil(k: int) -> (int, int, int) {
    choose|d: int, m: int, y: int| valid_date(d, m, y) && epoch_days(d, m, y) == k
}


/// Value of a decimal digit character.
pub open spec fn digit_value(c: char) -> int {
    (c as u32) as int - 48
}

pub open spec fn is_digit(c: char) -> bool {
    '0' <= c && c <= '9'
}

/// Value of a string of decimal digits.
pub open spec fn digits_value(s: Seq<char>) -> int
    decreases s.len(),
{
    if s.len() == 0 {
        0
    } else {
        digits_value(s.drop_last()) * 10 + digit_value(s.last())
    }
}

/// Length of the optional leading `+` or `-`.
pub open spec fn sign_len(s: Seq<char>) -> int {
    if s.len() > 0 && (s[0] == '+' || s[0] == '-') { 1 } else { 0 }
}

/// The digits part of a signed decimal numeral.
pub open spec fn numeral_body(s: Seq<char>) -> Seq<char> {
    s.subrange(sign_len(s), s.len() as int)
}

pub open spec fn all_digits(s: Seq<char>) -> bool {
    forall|i: int| 0 <= i < s.len() ==> is_digit(#[trigger] s[i])
}

/// What Rust's `str::parse::<i32>` yields: an optional `+` or `-`
/// followed by at least one ASCII digit, within the range of `i32`.
pub open spec fn parse_i32(s: Seq<char>) -> Option<int> {
    let body = numeral_body(s);
    let v = if s.len() > 0 && s[0] == '-' { -digits_value(body) } else { digits_value(body) };
    if body.len() == 0 || !all_digits(body) {
        None
    } else if i32::MIN <= v <= i32::MAX {
        Some(v)
    } else {
        None
    }
}

/// Number of `c` characters in `s[from..]`.
pub open spec fn count_from(s: Seq<char>, c: char, from: int) -> int
    decreases s.len() - from,
{
    if from < 0 || from >= s.len() {
        0
    } else {
        count_from(s, c, from + 1) + if s[from] == c { 1int } else { 0int }
    }
}

/// Number of `c` characters in `s`.
pub open spec fn count_char(s: Seq<char>, c: char) -> int {
    count_from(s, c, 0)
}

/// The three `-`-separated fields of `MM-DD-YYYY` (meaningful when the
/// text holds exactly two dashes).
pub open spec fn us_date_fields(s: Seq<char>) -> (Seq<char>, Seq<char>, Seq<char>) {
    let i1 = index_from(s, '-', 0);
    let i2 = index_from(s, '-', i1 + 1);
    (s.subrange(0, i1), s.subrange(i1 + 1, i2), s.subrange(i2 + 1, s.len() as int))
}

/// The month, day and year `prevnext` reads from its argument, with
/// the defaults 1, 1 and 1970 for fields that do not parse.
pub open spec fn us_date_values(s: Seq<char>) -> (int, int, int) {
    let (a, b, c) = us_date_fields(s);
    (
        match parse_i32(a) { Some(v) => v, None => 1 },
        match parse_i32(b) { Some(v) => v, None => 1 },
        match parse_i32(c) { Some(v) => v, None => 1970 },
    )
}

/// The day count `prevnext` lands on.
pub open spec fn prevnext_target(s: Seq<char>, inc: int) -> int {
    let (m, d, y) = us_date_values(s);
    epoch_days(d, m, y) + inc
}

/// The arguments `prevnext` handles: with three fields, a month in
/// 1..=13, a positive day, and day counts within the range of `i32`.
pub open spec fn prevnext_domain(s: Seq<char>, inc: int) -> bool {
    count_char(s, '-') == 2 ==> {
        let (m, d, y) = us_date_values(s);
        &&& 1 <= m <= 13
        &&& d >= 1
        &&& i32::MIN <= epoch_days(d, m, y) <= i32::MAX
        &&& i32::MIN <= epoch_days(d, m, y) + inc <= i32::MAX - 4
    }
}

/// `MM-DD-YYYY` of the real date `k` days after 1970-01-01.
pub open spec fn us_date_text(k: int) -> Seq<char> {
    let (d, m, y) = civil(k);
    pad_int(m, 2) + seq!['-'] + pad_int(d, 2) + seq!['-'] + pad_int(y, 4)
}

// ─── Lemmas ──────────────────────────────────────────────────────────

/// Consecutive year starts differ by the year's length.
pub proof fn lemma_days_before_year_step(y: int)
    ensures
        days_before_year(y + 1) == days_before_year(y) + year_len(y),
{
    lemma_div_step(y, 4);
    lemma_div_step(y, 100);
    lemma_div_step(y, 400);
    assert(y % 400 == 0 ==> y % 100 == 0 && y % 4 == 0) by {
        if y % 400 == 0 {
            lemma_fundamental_div_mod(y, 400);
            lemma_fundamental_div_mod_converse(y, 100, 4 * (y / 400), 0);
            lemma_fundamental_div_mod_converse(y, 4, 100 * (y / 400), 0);
        }
    }
    assert(y % 100 == 0 ==> y % 4 == 0) by {
        if y % 100 == 0 {
            lemma_fundamental_div_mod(y, 100);
            lemma_fundamental_div_mod_converse(y, 4, 25 * (y / 100), 0);
        }
    }
}

/// `y / k - (y - 1) / k` is 1 exactly when `k` divides `y`.
pub proof fn lemma_div_step(y: int, k: int)
    requires
        k > 0,
    ensures
        y / k - (y - 1) / k == if y % k == 0 { 1int } else { 0int },
{
    lemma_fundamental_div_mod(y, k);
    let q = y / k;
    let r = y % k;
    lemma_mod_bound(y, k);
    assert(y == q * k + r) by (nonlinear_arith)
        requires y == k * (y / k) + y % k, q == y / k, r == y % k;
    if r == 0 {
        assert(y - 1 == (q - 1) * k + (k - 1)) by (nonlinear_arith)
            requires y == q * k + r, r == 0;
        lemma_fundamental_div_mod_converse(y - 1, k, q - 1, k - 1);
    } else {
        lemma_fundamental_div_mod_converse(y - 1, k, q, r - 1);
    }
}


/// Later years start later: by at least 365 days per year.
pub proof fn lemma_days_before_year_monotone(a: int, b: int)
    requires
        a <= b,
    ensures
        days_before_year(a) + 365 * (b - a) <= days_before_year(b),
    decreases b - a,
{
    if a < b {
        lemma_days_before_year_monotone(a, b - 1);
        lemma_days_before_year_step(b - 1);
    }
}

/// A real date's day of the year lies within its year.
pub proof fn lemma_ydays_in_year(d: int, m: int, y: int)
    requires
        valid_date(d, m, y),
    ensures
        1 <= ydays(d, m, y) <= year_len(y),
        ydays(d, m, y) == mstart(m, y) + d,
{
}

/// Walking the months from `m` with a count that stays inside the year
/// lands on a real date with the same day of the year.
pub proof fn lemma_ytd_walk(d: int, m: int, y: int)
    requires
        1 <= m <= 12,
        d >= 1,
        mstart(m, y) + d <= year_len(y),
    ensures
        valid_date(ytd_walk(d, m, y).0, ytd_walk(d, m, y).1, y),
        mstart(ytd_walk(d, m, y).1, y) + ytd_walk(d, m, y).0 == mstart(m, y) + d,
    decreases 13 - m,
{
    if d > month_len(m, y) {
        lemma_ytd_walk(d - month_len(m, y), m + 1, y);
    }
}

/// Walking the months from `k` up to a real date's month recovers the
/// date.
pub proof fn lemma_ytd_walk_exact(d: int, m: int, y: int, k: int)
    requires
        valid_date(d, m, y),
        1 <= k <= m,
    ensures
        ytd_walk(mstart(m, y) - mstart(k, y) + d, k, y) == (d, m),
    decreases m - k,
{
    if k < m {
        assert(mstart(k + 1, y) == mstart(k, y) + month_len(k, y));
        lemma_ytd_walk_exact(d, m, y, k + 1);
    }
}

/// Distinct real dates lie on distinct days.
pub proof fn lemma_epoch_days_injective(d1: int, m1: int, y1: int, d2: int, m2: int, y2: int)
    requires
        valid_date(d1, m1, y1),
        valid_date(d2, m2, y2),
        epoch_days(d1, m1, y1) == epoch_days(d2, m2, y2),
    ensures
        d1 == d2 && m1 == m2 && y1 == y2,
{
    lemma_ydays_in_year(d1, m1, y1);
    lemma_ydays_in_year(d2, m2, y2);
    if y1 < y2 {
        lemma_days_before_year_monotone(y1 + 1, y2);
        lemma_days_before_year_step(y1);
        assert(false);
    } else if y2 < y1 {
        lemma_days_before_year_monotone(y2 + 1, y1);
        lemma_days_before_year_step(y2);
        assert(false);
    }
    lemma_ytd_walk_exact(d1, m1, y1, 1);
    lemma_ytd_walk_exact(d2, m2, y2, 1);
}

/// `civil` names the one real date on a given day.
pub proof fn lemma_civil_unique(d: int, m: int, y: int)
    requires
        valid_date(d, m, y),
    ensures
        civil(epoch_days(d, m, y)) == (d, m, y),
{
    let k = epoch_days(d, m, y);
    assert(valid_date(d, m, y) && epoch_days(d, m, y) == k);
    let (d2, m2, y2) = civil(k);
    lemma_epoch_days_injective(d, m, y, d2, m2, y2);
}


/// Counting from `from` jumps straight to the next occurrence.
pub proof fn lemma_count_from_index(s: Seq<char>, c: char, from: int)
    requires
        0 <= from <= s.len(),
    ensures
        count_from(s, c, from) >= 0,
        index_from(s, c, from) < s.len() ==>
            count_from(s, c, from) == 1 + count_from(s, c, index_from(s, c, from) + 1),
        index_from(s, c, from) >= s.len() ==> count_from(s, c, from) == 0,
    decreases s.len() - from,
{
    if from < s.len() {
        lemma_count_from_index(s, c, from + 1);
    }
}

/// Exactly two dashes: the first three searches find two and then none.
pub proof fn lemma_count_char_dashes(s: Seq<char>, c: char)
    ensures
        ({
            let i1 = index_from(s, c, 0);
            let i2 = index_from(s, c, i1 + 1);
            let i3 = index_from(s, c, i2 + 1);
            (count_char(s, c) == 2) <==> (i1 < s.len() && i2 < s.len() && i3 >= s.len())
        }),
{
    let i1 = index_from(s, c, 0);
    lemma_count_from_index(s, c, 0);
    lemma_index_from_bounds(s, c, 0);
    if i1 < s.len() {
        let i2 = index_from(s, c, i1 + 1);
        lemma_count_from_index(s, c, i1 + 1);
        lemma_index_from_bounds(s, c, i1 + 1);
        if i2 < s.len() {
            lemma_count_from_index(s, c, i2 + 1);
            lemma_index_from_bounds(s, c, i2 + 1);
            let i3 = index_from(s, c, i2 + 1);
            if i3 < s.len() {
                lemma_count_from_index(s, c, i3 + 1);
            }
        }
    }
}

pub proof fn lemma_digits_value_nonneg(s: Seq<char>)
    requires
        forall|i: int| 0 <= i < s.len() ==> is_digit(s[i]),
    ensures
        digits_value(s) >= 0,
    decreases s.len(),
{
    if s.len() > 0 {
        lemma_digits_value_nonneg(s.drop_last());
    }
}

/// Extending a run of digits never lowers its value.
pub proof fn lemma_digits_value_grows(v: Seq<char>, start: int, i: int, hi: int)
    requires
        0 <= start <= i <= hi <= v.len(),
        forall|k: int| start <= k < hi ==> is_digit(v[k]),
    ensures
        digits_value(v.subrange(start, i)) <= digits_value(v.subrange(start, hi)),
    decreases hi - i,
{
    if i < hi {
        lemma_digits_value_grows(v, start, i + 1, hi);
        assert(v.subrange(start, i + 1).drop_last() =~= v.subrange(start, i));
        lemma_digits_value_nonneg(v.subrange(start, i));
    }
}


// ─── Laws of the calendar ────────────────────────────────────────────

/// Leap years are exactly those counted by the `/4 - /100 + /400` rule.
pub proof fn lemma_leap_indicator(y: int)
    ensures
        (if y % 4 == 0 { 1int } else { 0int }) - (if y % 100 == 0 { 1int } else { 0int })
            + (if y % 400 == 0 { 1int } else { 0int }) == (if is_leap(y) { 1int } else { 0int }),
{
    if y % 400 == 0 {
        lemma_fundamental_div_mod(y, 400);
        lemma_fundamental_div_mod_converse(y, 100, 4 * (y / 400), 0);
        lemma_fundamental_div_mod_converse(y, 4, 100 * (y / 400), 0);
    }
    if y % 100 == 0 {
        lemma_fundamental_div_mod(y, 100);
        lemma_fundamental_div_mod_converse(y, 4, 25 * (y / 100), 0);
    }
}

/// `day_of_week` agrees with the day count of `date_to_days`: 1970-01-01
/// was a Thursday, so the weekday is `(days + 4) mod 7`, the `wday` that
/// `days_to_date` reports.
pub proof fn lemma_weekday_from_day_count(d: int, m: int, y: int)
    ensures
        dow(d, m, y) == (epoch_days(d, m, y) + 4) % 7,
{
    assert(days_before_year(1970) == 719527);
    let a = days_before_year(y) - 1 + ydays(d, m, y);
    assert(epoch_days(d, m, y) + 4 == a - 7 * 102789);
    lemma_mod_sub_multiples_vanish(a, 7);
    lemma_mod_multiples_vanish(-102789, a, 7);
}

/// `days_to_date` undoes `date_to_days`: the real date on the day count
/// of a real date is that date. (The converse direction, that
/// `date_to_days` undoes `days_to_date`, is part of the contract of
/// `days_to_date`.)
pub proof fn lemma_days_round_trip(d: int, m: int, y: int)
    requires
        valid_date(d, m, y),
    ensures
        civil(epoch_days(d, m, y)) == (d, m, y),
{
    lemma_civil_unique(d, m, y);
}

/// `ydays_to_date` undoes `date_to_ydays` on real dates.
pub proof fn lemma_ydays_round_trip(d: int, m: int, y: int)
    requires
        valid_date(d, m, y),
    ensures
        ytd_walk(ydays(d, m, y), 1, y) == (d, m),
{
    lemma_ydays_in_year(d, m, y);
    lemma_ytd_walk_exact(d, m, y, 1);
}

/// The first Sunday of Advent is a Sunday, 22 to 28 days before
/// Christmas.
pub proof fn lemma_advent_is_sunday_before_christmas(y: int)
    ensures
        dow(advent1(y), 1, y) == 0,
        ydays(25, 12, y) - 28 <= advent1(y) <= ydays(25, 12, y) - 22,
{
    let c = dow(25, 12, y);
    let a = days_before_year(y) - 1 + ydays(25, 12, y);
    lemma_mod_bound(a, 7);
    lemma_fundamental_div_mod(a, 7);
    let k = if c == 0 { 7int } else { c };
    let b = days_before_year(y) - 1 + advent1(y);
    assert(b == 7 * (a / 7) + c - k - 21);
    assert(b == 7 * (a / 7 - if c == 0 { 4int } else { 3int }));
    lemma_mod_multiples_basic(a / 7 - if c == 0 { 4int } else { 3int }, 7);
}

/// Truncating and floor division agree on non-negative operands.
proof fn lemma_tdiv_nonneg(a: int, b: int)
    requires
        a >= 0,
        b > 0,
    ensures
        tdiv(a, b) == a / b,
        tmod(a, b) == a % b,
        0 <= a % b < b,
        a / b >= 0,
{
    lemma_fundamental_div_mod(a, b);
    lemma_mod_bound(a, b);
    lemma_div_pos_is_pos(a, b);
}

/// For every year from 0 on, the computus is defined and Easter falls
/// on a Sunday between March 22 and April 25.
pub proof fn lemma_easter_sunday_in_window(y: int)
    requires
        y >= 0,
    ensures
        computus_h(y) >= 0,
        computus_h(y) != -1,
        easter_month(y) == 3 ==> 22 <= easter_day(y) <= 31,
        easter_month(y) == 4 ==> 1 <= easter_day(y) <= 25,
        easter_month(y) == 3 || easter_month(y) == 4,
        valid_date(easter_day(y), easter_month(y), y),
        dow(easter_day(y), easter_month(y), y) == 0,
{
    lemma_tdiv_nonneg(y, 19);
    lemma_tdiv_nonneg(y, 100);
    lemma_tdiv_nonneg(y, 4);
    lemma_tdiv_nonneg(y, 400);
    let g = y % 19;
    let c = y / 100;
    lemma_tdiv_nonneg(c, 4);
    lemma_tdiv_nonneg(8 * c + 13, 25);
    lemma_fundamental_div_mod(c, 4);
    lemma_fundamental_div_mod(8 * c + 13, 25);
    lemma_mod_bound(c, 4);
    lemma_mod_bound(8 * c + 13, 25);
    let hh = c - c / 4 - (8 * c + 13) / 25 + 19 * g + 15;
    assert(hh >= 15);
    lemma_tdiv_nonneg(hh, 30);
    let h = hh % 30;
    assert(computus_h(y) == h);
    // i: the days from March 21 to the Paschal full moon, 0..=28.
    lemma_tdiv_nonneg(h, 28);
    lemma_tdiv_nonneg(29int, h + 1);
    let q = h / 28;
    let r = 29int / (h + 1);
    let sg = tdiv(21 - g, 11);
    lemma_tdiv_nonneg(21 - g, 11);
    let i = h - q * (1 - q * (r * sg));
    if h < 28 {
        lemma_basic_div(h, 28);
        assert(q == 0);
        assert(i == h) by (nonlinear_arith)
            requires i == h - q * (1 - q * (r * sg)), q == 0;
    } else if h == 28 {
        assert(q == 1) by (nonlinear_arith)
            requires q == h / 28, h == 28;
        assert(r == 1) by (nonlinear_arith)
            requires r == 29int / (h + 1), h == 28;
        assert(0 <= sg <= 1) by {
            lemma_fundamental_div_mod(21 - g, 11);
        }
        assert(i == 27 + sg) by (nonlinear_arith)
            requires i == h - q * (1 - q * (r * sg)), q == 1, r == 1, h == 28;
    } else {
        assert(h == 29);
        assert(q == 1) by (nonlinear_arith)
            requires q == h / 28, h == 29;
        assert(r == 0) by (nonlinear_arith)
            requires r == 29int / (h + 1), h == 29;
        assert(i == 28) by (nonlinear_arith)
            requires i == h - q * (1 - q * (r * sg)), q == 1, r == 0, h == 29;
    }
    assert(0 <= i <= 28);
    // j: weekday of the full moon; l = i - j.
    let x = y + y / 4 + i + 2 - c + c / 4;
    assert(y / 100 <= y) by {
        lemma_fundamental_div_mod(y, 100);
    }
    assert(x >= 0);
    lemma_tdiv_nonneg(x, 7);
    lemma_fundamental_div_mod(x, 7);
    let j = x % 7;
    let l = i - j;
    assert(-6 <= l <= 28);
    lemma_tdiv_nonneg(l + 40, 44);
    let month = 3 + (l + 40) / 44;
    if l < 4 {
        lemma_basic_div(l + 40, 44);
    } else {
        assert((l + 40) / 44 == 1) by {
            lemma_fundamental_div_mod(l + 40, 44);
        }
    }
    assert(computus(y) == (l, month));
    lemma_tdiv_nonneg(month, 4);
    if month == 3 {
        assert(3int / 4 == 0);
    } else {
        assert(4int / 4 == 1);
    }
    // Sunday: the weekday sum telescopes to a multiple of 7.
    lemma_div_step(y, 4);
    lemma_div_step(y, 100);
    lemma_div_step(y, 400);
    lemma_leap_indicator(y);
    lemma_div_denominator(y, 100, 4);
    assert(ydays(easter_day(y), easter_month(y), y) == 87 + l + if is_leap(y) { 1int } else { 0int });
    let a = days_before_year(y) - 1 + ydays(easter_day(y), easter_month(y), y);
    assert(a == 365 * y + y / 4 - c + c / 4 + 86 + l);
    assert(a == 7 * (52 * y + 12 + x / 7));
    lemma_mod_multiples_basic(52 * y + 12 + x / 7, 7);
}


/// Easter Sunday and the Sundays of Paschaltide: the date `7 * k` days
/// after Easter (`k` in 0..=7, Pentecost at 7) is labelled `Pasc{k}`,
/// whatever the Mass flag, for every year from 0 on; so Easter itself is
/// `Pasc0` and within `getweek`'s domain.
pub proof fn lemma_paschaltide_sundays(d: int, m: int, y: int, k: int, missa: bool)
    requires
        y >= 0,
        valid_date(d, m, y),
        0 <= k <= 7,
        ydays(d, m, y) == ydays(easter_day(y), easter_month(y), y) + 7 * k,
    ensures
        week_label(d, m, y, false, missa) == "Pasc"@ + int_str(k),
{
    lemma_easter_sunday_in_window(y);
    lemma_advent_is_sunday_before_christmas(y);
    let e = ydays(easter_day(y), easter_month(y), y);
    let t = ydays(d, m, y);
    assert(81 <= e <= 117);
    assert(t < advent1(y));
    assert(m != 1);
    assert(tdiv(t - e, 7) == k) by {
        lemma_fundamental_div_mod_converse(7 * k, 7, k, 0);
    }
}

/// Easter Sunday is labelled `Pasc0` and lies in `getweek`'s domain,
/// for every year from 0 on.
pub proof fn lemma_easter_is_pasc0(y: int, missa: bool)
    requires
        y >= 0,
    ensures
        getweek_domain(easter_day(y), easter_month(y), y, false),
        week_label(easter_day(y), easter_month(y), y, false, missa) == "Pasc0"@,
{
    lemma_easter_sunday_in_window(y);
    lemma_paschaltide_sundays(easter_day(y), easter_month(y), y, 0, missa);
    reveal_strlit("Pasc0");
    reveal_strlit("Pasc");
    assert(int_str(0) == seq!['0']);
    assert("Pasc"@ + int_str(0) =~= "Pasc0"@);
}


// ─── The weeks after Pentecost and the August–December blocks ───────

/// The Sundays after Pentecost and their weeks: a date lying `k` full
/// weeks and `r` days after Pentecost (`1 <= k <= 22`, `0 <= r < 7`)
/// and before the first Sunday of Advent is in week `Pent{k:02}`,
/// whatever the Mass flag; the resumed Epiphany weeks come only later.
pub proof fn lemma_weeks_after_pentecost(d: int, m: int, y: int, k: int, r: int, missa: bool)
    requires
        y >= 0,
        valid_date(d, m, y),
        1 <= k <= 22,
        0 <= r < 7,
        ydays(d, m, y) == ydays(easter_day(y), easter_month(y), y) + 49 + 7 * k + r,
        ydays(d, m, y) < advent1(y),
    ensures
        week_label(d, m, y, false, missa) == "Pent"@ + pad_int(k, 2),
{
    lemma_easter_sunday_in_window(y);
    let e = ydays(easter_day(y), easter_month(y), y);
    let t = ydays(d, m, y);
    assert(81 <= e <= 117);
    assert(t >= e + 56);
    assert(m != 1);
    assert(tdiv(t - (e + 49), 7) == k) by {
        lemma_fundamental_div_mod_converse(7 * k + r, 7, k, r);
    }
}

/// The weeks of Lent: a date lying `k` full weeks and `r` days after
/// the first Sunday of Lent (`0 <= k <= 5`, `0 <= r < 7`, Easter 42 days
/// after it) is in week `Quad{k+1}`, whatever the Mass flag.
pub proof fn lemma_weeks_of_lent(d: int, m: int, y: int, k: int, r: int, missa: bool)
    requires
        y >= 0,
        valid_date(d, m, y),
        0 <= k <= 5,
        0 <= r < 7,
        ydays(d, m, y) == ydays(easter_day(y), easter_month(y), y) - 42 + 7 * k + r,
    ensures
        week_label(d, m, y, false, missa) == "Quad"@ + int_str(k + 1),
{
    lemma_easter_sunday_in_window(y);
    lemma_advent_is_sunday_before_christmas(y);
    let e = ydays(easter_day(y), easter_month(y), y);
    let t = ydays(d, m, y);
    assert(81 <= e <= 117);
    assert(m != 1);
    assert(tdiv(t - (e - 42), 7) == k) by {
        lemma_fundamental_div_mod_converse(7 * k + r, 7, k, r);
    }
}

/// The weeks of Advent: a date lying `k` full weeks and `r` days after
/// the first Sunday of Advent and before Christmas is in week
/// `Adv{k+1}`, whatever the Mass flag.
pub proof fn lemma_weeks_of_advent(d: int, m: int, y: int, k: int, r: int, missa: bool)
    requires
        valid_date(d, m, y),
        0 <= k,
        0 <= r < 7,
        ydays(d, m, y) == advent1(y) + 7 * k + r,
        ydays(d, m, y) < ydays(25, 12, y),
    ensures
        week_label(d, m, y, false, missa) == "Adv"@ + int_str(k + 1),
{
    lemma_advent_is_sunday_before_christmas(y);
    let t = ydays(d, m, y);
    assert(m == 11 || m == 12);
    assert(m == 12 ==> d < 25);
    assert(tdiv(t - advent1(y), 7) == k) by {
        lemma_fundamental_div_mod_converse(7 * k + r, 7, k, r);
    }
}

/// The last week before Advent is always `Pent24`: a date in the seven
/// days before the first Sunday of Advent, at least 23 weeks after
/// Pentecost, whatever the Mass flag.
pub proof fn lemma_last_week_before_advent(d: int, m: int, y: int, missa: bool)
    requires
        y >= 0,
        valid_date(d, m, y),
        ydays(d, m, y) >= ydays(easter_day(y), easter_month(y), y) + 49 + 7 * 23,
        advent1(y) - 7 <= ydays(d, m, y) < advent1(y),
    ensures
        week_label(d, m, y, false, missa) == "Pent24"@,
{
    lemma_easter_sunday_in_window(y);
    let e = ydays(easter_day(y), easter_month(y), y);
    let t = ydays(d, m, y);
    let a1 = advent1(y);
    assert(m != 1);
    assert(tdiv(t - (e + 49), 7) >= 23) by {
        lemma_div_is_ordered(161int, t - (e + 49), 7);
        lemma_div_multiples_vanish(23, 7);
    }
    assert(tdiv(a1 - t + 6, 7) == 1) by {
        lemma_fundamental_div_mod_converse(a1 - t + 6, 7, 1, a1 - t - 1);
    }
}

/// The first Sunday of a month for the August–December blocks: under
/// the pre-1960 rubrics the Sunday nearest the 1st (at most three days
/// before or after it), under the 1960 rubrics the Sunday on or after
/// the 1st.
pub proof fn lemma_first_sunday_is_nearest(m: int, y: int)
    requires
        1 <= m <= 12,
    ensures
        dow(first_sunday(m, y, false), 1, y) == 0,
        ydays(1, m, y) - 3 <= first_sunday(m, y, false) <= ydays(1, m, y) + 3,
        dow(first_sunday(m, y, true), 1, y) == 0,
        ydays(1, m, y) <= first_sunday(m, y, true) <= ydays(1, m, y) + 6,
{
    let a = days_before_year(y) - 1 + ydays(1, m, y);
    let dw = dow(1, m, y);
    lemma_mod_bound(a, 7);
    lemma_fundamental_div_mod(a, 7);
    assert(dw == a % 7);
    assert(0 <= dw < 7);
    let q = a / 7;
    assert(a == 7 * q + dw);
    let b0 = days_before_year(y) - 1 + first_sunday(m, y, false);
    let b1 = days_before_year(y) - 1 + first_sunday(m, y, true);
    assert(ydays(first_sunday(m, y, false), 1, y) == first_sunday(m, y, false));
    assert(ydays(first_sunday(m, y, true), 1, y) == first_sunday(m, y, true));
    if dw >= 4 {
        assert(b0 == 7 * (q + 1));
        lemma_mod_multiples_basic(q + 1, 7);
    } else {
        assert(b0 == 7 * q);
        lemma_mod_multiples_basic(q, 7);
    }
    if dw != 0 {
        assert(b1 == 7 * (q + 1));
        lemma_mod_multiples_basic(q + 1, 7);
    } else {
        assert(b1 == 7 * q);
        lemma_mod_multiples_basic(q, 7);
    }
}

/// Under the pre-1960 rubrics the days of August, September and October
/// from the 4th up to three days before the next month's 1st belong to
/// their own month's block: the next block cannot begin more than three
/// days before its month.
pub proof fn lemma_late_month_days_keep_their_block(d: int, m: int, y: int)
    requires
        8 <= m <= 10,
        valid_date(d, m, y),
        4 <= d,
        ydays(d, m, y) + 3 < ydays(1, m + 1, y),
    ensures
        has_prefix(month_block(d, m, y, false, false), pad_int(m, 2)),
{
    lemma_first_sunday_is_nearest(8, y);
    lemma_first_sunday_is_nearest(9, y);
    lemma_first_sunday_is_nearest(10, y);
    lemma_first_sunday_is_nearest(11, y);
    let base = ydays(d, m, y);
    assert(lit_month_from(8, base, y, false, 0) == m) by {
        reveal_with_fuel(lit_month_from, 5);
    }
    let lm = lit_month_from(8, base, y, false, 0);
    let mb = month_block(d, m, y, false, false);
    let p = pad_int(m, 2);
    let rest = int_str(block_week(lm, base, y, false) + 1) + seq!['-'] + int_str(dow(d, m, y));
    assert(mb == p + rest);
    assert((p + rest).subrange(0, p.len() as int) =~= p);
}

/// Under the pre-1960 rubrics the Sundays of an August, September or
/// October block are counted from the month's first Sunday: the Sunday
/// `7 * k` days after it, before the next month's first Sunday, is
/// `{MM}{k+1}-0`.
pub proof fn lemma_block_sundays(d: int, dm: int, y: int, m: int, k: int)
    requires
        8 <= m <= 10,
        7 <= dm <= 12,
        valid_date(d, dm, y),
        0 <= k,
        ydays(d, dm, y) == first_sunday(m, y, false) + 7 * k,
        ydays(d, dm, y) < first_sunday(m + 1, y, false),
    ensures
        month_block(d, dm, y, false, false) == pad_int(m, 2) + int_str(k + 1) + seq!['-'] + int_str(0),
{
    lemma_first_sunday_is_nearest(8, y);
    lemma_first_sunday_is_nearest(9, y);
    lemma_first_sunday_is_nearest(10, y);
    lemma_first_sunday_is_nearest(11, y);
    let base = ydays(d, dm, y);
    let fs = first_sunday(m, y, false);
    assert(lit_month_from(8, base, y, false, 0) == m) by {
        reveal_with_fuel(lit_month_from, 5);
    }
    assert(tdiv(base - fs, 7) == k) by {
        lemma_fundamental_div_mod_converse(7 * k, 7, k, 0);
    }
    assert(block_week(m, base, y, false) == k);
    // The date is a Sunday: it lies whole weeks after a Sunday.
    let a = days_before_year(y) - 1 + fs;
    assert(ydays(fs, 1, y) == fs);
    assert(a % 7 == 0);
    lemma_fundamental_div_mod(a, 7);
    assert(days_before_year(y) - 1 + base == 7 * (a / 7 + k));
    lemma_mod_multiples_basic(a / 7 + k, 7);
    assert(dow(d, dm, y) == 0);
}

// ─── Reading back the dates `prevnext` writes ───────────────────────

/// Days from 1970-01-01 to the first day of year `y`.
pub open spec fn year_start(y: int) -> int {
    days_before_year(y) - days_before_year(1970)
}

/// The year whose days include day count `k`, searching from `y`.
proof fn lemma_year_of_day(k: int, y: int) -> (r: int)
    ensures
        year_start(r) <= k < year_start(r) + year_len(r),
    decreases
        (if k >= year_start(y) { 0int } else { 1int }),
        (if k >= year_start(y) { k - year_start(y) } else { year_start(y) - k }),
{
    lemma_days_before_year_step(y);
    lemma_days_before_year_step(y - 1);
    if k >= year_start(y) {
        if k < year_start(y) + year_len(y) {
            y
        } else {
            lemma_year_of_day(k, y + 1)
        }
    } else {
        lemma_year_of_day(k, y - 1)
    }
}

/// Every day count names a real date: `civil` is defined everywhere.
pub proof fn lemma_civil_exists(k: int)
    ensures
        valid_date(civil(k).0, civil(k).1, civil(k).2),
        epoch_days(civil(k).0, civil(k).1, civil(k).2) == k,
{
    let y = lemma_year_of_day(k, 1970);
    let n = k - year_start(y) + 1;
    lemma_ytd_walk(n, 1, y);
    let (d, m) = ytd_walk(n, 1, y);
    lemma_ydays_in_year(d, m, y);
    assert(valid_date(d, m, y) && epoch_days(d, m, y) == k);
}

proof fn lemma_digit_char(d: int)
    requires
        0 <= d <= 9,
    ensures
        is_digit(digit_char(d)),
        digit_value(digit_char(d)) == d,
{
}

/// The decimal digits of `n` are digits and read back as `n`.
proof fn lemma_nat_str_reads_back(n: nat)
    ensures
        forall|i: int| 0 <= i < nat_str(n).len() ==> is_digit(#[trigger] nat_str(n)[i]),
        digits_value(nat_str(n)) == n,
        nat_str(n).len() >= 1,
    decreases n,
{
    crate::text::lemma_nat_str_len_pos(n);
    if n < 10 {
        lemma_digit_char(n as int);
        assert(nat_str(n).drop_last() =~= Seq::<char>::empty());
        assert(digits_value(Seq::<char>::empty()) == 0);
        assert(digits_value(nat_str(n)) == digits_value(nat_str(n).drop_last()) * 10 + digit_value(nat_str(n).last()));
    } else {
        lemma_nat_str_reads_back(n / 10);
        lemma_digit_char((n % 10) as int);
        let s = nat_str(n);
        assert(s.drop_last() =~= nat_str(n / 10));
        assert(s.last() == digit_char((n % 10) as int));
        assert(digits_value(s) == digits_value(s.drop_last()) * 10 + digit_value(s.last()));
        assert(n == (n / 10) * 10 + n % 10);
    }
}

/// Leading zeros add nothing to a numeral's value.
proof fn lemma_leading_zeros(z: int, s: Seq<char>)
    ensures
        digits_value(zeros(z) + s) == digits_value(s),
    decreases s.len(), (if z > 0 { z } else { 0 }),
{
    if s.len() > 0 {
        lemma_leading_zeros(z, s.drop_last());
        assert((zeros(z) + s).drop_last() =~= zeros(z) + s.drop_last());
        assert((zeros(z) + s).last() == s.last());
    } else if z > 0 {
        lemma_leading_zeros(z - 1, s);
        assert((zeros(z) + s).drop_last() =~= zeros(z - 1) + s);
        assert((zeros(z) + s).last() == '0');
    } else {
        assert(zeros(z) + s =~= Seq::<char>::empty());
    }
}

/// `str::parse::<i32>` reads a zero-padded rendering back.
proof fn lemma_parse_pad_int(n: int, w: int)
    requires
        0 <= n <= i32::MAX,
    ensures
        parse_i32(pad_int(n, w)) == Some(n),
        forall|i: int| 0 <= i < pad_int(n, w).len() ==> is_digit(#[trigger] pad_int(n, w)[i]),
        w >= nat_str(n as nat).len() ==> pad_int(n, w).len() == w,
{
    let t = nat_str(n as nat);
    lemma_nat_str_reads_back(n as nat);
    let z = zeros(w - t.len());
    let s = pad_int(n, w);
    assert(s == z + t);
    lemma_leading_zeros(w - t.len(), t);
    assert forall|i: int| 0 <= i < s.len() implies is_digit(#[trigger] s[i]) by {
        if i < z.len() {
            assert(s[i] == '0');
        } else {
            assert(s[i] == t[i - z.len()]);
        }
    }
    assert(s.len() > 0);
    assert(sign_len(s) == 0);
    assert(numeral_body(s) =~= s);
}

/// The first `c` at or after `from` is at `j`.
proof fn lemma_index_from_is(s: Seq<char>, c: char, from: int, j: int)
    requires
        0 <= from <= j <= s.len(),
        j < s.len() ==> s[j] == c,
        forall|i: int| from <= i < j ==> s[i] != c,
    ensures
        index_from(s, c, from) == j,
    decreases j - from,
{
    if from < j {
        lemma_index_from_is(s, c, from + 1, j);
    }
}

/// The date text `MM-DD-YYYY` of a day in a year from 0 on has exactly
/// two dashes and reads back as that day: `prevnext` lands on the day
/// count it starts from, shifted.
pub proof fn lemma_prevnext_reads_back(k: int, b: int)
    requires
        civil(k).2 >= 0,
        i32::MIN <= k <= i32::MAX,
    ensures
        count_char(us_date_text(k), '-') == 2,
        prevnext_target(us_date_text(k), b) == k + b,
{
    lemma_civil_exists(k);
    let (d, m, y) = civil(k);
    lemma_ydays_in_year(d, m, y);
    assert(y <= i32::MAX) by {
        if y > i32::MAX {
            lemma_days_before_year_monotone(1970, y);
        }
    }
    lemma_parse_pad_int(m, 2);
    lemma_parse_pad_int(d, 2);
    lemma_parse_pad_int(y, 4);
    crate::text::lemma_nat_str_len_pos(m as nat);
    crate::text::lemma_nat_str_len_pos(d as nat);
    assert(nat_str(m as nat).len() <= 2) by {
        if m >= 10 {
            assert(nat_str(m as nat) == nat_str((m / 10) as nat).push(digit_char(m % 10)));
            assert(m / 10 < 10);
        }
    }
    assert(nat_str(d as nat).len() <= 2) by {
        if d >= 10 {
            assert(nat_str(d as nat) == nat_str((d / 10) as nat).push(digit_char(d % 10)));
            assert(d / 10 < 10);
        }
    }
    let a = pad_int(m, 2);
    let bb = pad_int(d, 2);
    let c = pad_int(y, 4);
    let s = us_date_text(k);
    assert(s == a + seq!['-'] + bb + seq!['-'] + c);
    assert(a.len() == 2 && bb.len() == 2);
    assert(s[2] == '-' && s[5] == '-');
    assert(s[0] == a[0] && s[1] == a[1] && s[3] == bb[0] && s[4] == bb[1]);
    assert forall|i: int| 6 <= i < s.len() implies s[i] != '-' by {
        assert(s[i] == c[i - 6]);
    }
    lemma_index_from_is(s, '-', 0, 2);
    lemma_index_from_is(s, '-', 3, 5);
    lemma_index_from_is(s, '-', 6, s.len() as int);
    lemma_count_char_dashes(s, '-');
    assert(s.subrange(0, 2) =~= a);
    assert(s.subrange(3, 5) =~= bb);
    assert(s.subrange(6, s.len() as int) =~= c);
}

/// Shifting a date text by `a` and the result by `b` shifts it by
/// `a + b`, whenever the intermediate date lies in a year from 0 on
/// (a negative year would be written with a sign, i.e. a third dash).
pub proof fn lemma_prevnext_composes(s: Seq<char>, a: int, b: int)
    requires
        count_char(s, '-') == 2,
        prevnext_domain(s, a),
        civil(prevnext_target(s, a)).2 >= 0,
    ensures
        us_date_text(prevnext_target(us_date_text(prevnext_target(s, a)), b))
            == us_date_text(prevnext_target(s, a + b)),
{
    lemma_prevnext_reads_back(prevnext_target(s, a), b);
}

/// Real February 24..29 of a leap year are the only dates the Sancti
/// kalendar moves; every other date keeps its month and day.
pub proof fn lemma_sday_moves_only_leap_february(m: int, d: int, y: int)
    requires
        !(is_leap(y) && m == 2 && d >= 24),
    ensures
        sday(m, d, y) == (m, d),
{
}

/// Distinct real dates of a month map to distinct kalendar days.
pub proof fn lemma_sday_injective(m: int, d1: int, d2: int, y: int)
    requires
        valid_date(d1, m, y),
        valid_date(d2, m, y),
        d1 != d2,
    ensures
        sday(m, d1, y) != sday(m, d2, y),
{
}

// ─── Executable helpers ──────────────────────────────────────────────

/// Floor division for a positive divisor.
fn floor_div(a: i64, b: i64) -> (q: i64)
    requires
        b > 0,
    ensures
        q == a as int / b as int,
{
    if a >= 0 {
        a / b
    } else {
        let p = -(a + 1);
        let q = p / b;
        proof {
            let r = p as int % b as int;
            lemma_fundamental_div_mod(p as int, b as int);
            lemma_mod_bound(p as int, b as int);
            assert(a as int == (-(q as int) - 1) * b + (b - r - 1)) by (nonlinear_arith)
                requires p as int == b * q + r, a as int == -(p as int) - 1;
            lemma_fundamental_div_mod_converse(a as int, b as int, -(q as int) - 1, b - r - 1);
        }
        -q - 1
    }
}

/// Rust's truncating `/`, with the divisor's sign allowed either way.
fn trunc_div(a: i64, b: i64) -> (q: i64)
    requires
        b != 0,
        a > i64::MIN,
        b > i64::MIN,
    ensures
        q == tdiv(a as int, b as int),
        a >= 0 ==> -a <= q <= a,
        a < 0 ==> a <= q <= -a,
{
    if b < 0 {
        if a >= 0 { -(a / (-b)) } else { (-a) / (-b) }
    } else {
        if a >= 0 { a / b } else { -((-a) / b) }
    }
}

/// Rust's truncating `%`, for a positive divisor.
fn trunc_mod(a: i64, b: i64) -> (r: i64)
    requires
        0 < b <= 1000,
        -0x10_0000_0000 <= a <= 0x10_0000_0000,
    ensures
        r == tmod(a as int, b as int),
        -b < r < b,
{
    let q = trunc_div(a, b);
    proof {
        let ai = a as int;
        let bi = b as int;
        let qi = q as int;
        if a >= 0 {
            lemma_fundamental_div_mod(ai, bi);
            lemma_mod_bound(ai, bi);
            let r0 = ai % bi;
            assert(-bi < ai - bi * qi < bi) by (nonlinear_arith)
                requires bi > 0, qi == ai / bi, ai == bi * (ai / bi) + r0, 0 <= r0 < bi;
        } else {
            let na = -ai;
            lemma_fundamental_div_mod(na, bi);
            lemma_mod_bound(na, bi);
            let r0 = na % bi;
            assert(-bi < ai - bi * qi < bi) by (nonlinear_arith)
                requires bi > 0, qi == -(na / bi), na == bi * (na / bi) + r0, 0 <= r0 < bi, na == -ai;
        }
    }
    let m = b * q;
    a - m
}

/// Returns `true` if the given year is a leap year under the Gregorian rules.
pub fn leap_year(year: i32) -> (r: bool)
    ensures
        r == is_leap(year as int),
{
    let y = year as i64;
    (euclid_mod(y, 4) == 0) && ((euclid_mod(y, 100) != 0) || (euclid_mod(y, 400) == 0))
}

/// Non-negative remainder for a positive divisor.
fn euclid_mod(a: i64, b: i64) -> (r: i64)
    requires
        0 < b <= 1000,
        -0x1_0000_0000 <= a <= 0x1_0000_0000,
    ensures
        r == a as int % b as int,
{
    let q = floor_div(a, b);
    proof {
        lemma_fundamental_div_mod(a as int, b as int);
        lemma_mod_bound(a as int, b as int);
    }
    let m = b * q;
    a - m
}

fn month_start_of(month: u32) -> (r: u32)
    requires
        1 <= month <= 13,
    ensures
        r == month_start(month as int),
{
    if month == 1 { 0 }
    else if month == 2 { 31 }
    else if month == 3 { 59 }
    else if month == 4 { 90 }
    else if month == 5 { 120 }
    else if month == 6 { 151 }
    else if month == 7 { 181 }
    else if month == 8 { 212 }
    else if month == 9 { 243 }
    else if month == 10 { 273 }
    else if month == 11 { 304 }
    else if month == 12 { 334 }
    else { 365 }
}

fn month_len_of(month: u32, year: i32) -> (r: u32)
    ensures
        r == month_len(month as int, year as int),
{
    if month == 1 || month == 3 || month == 5 || month == 7 || month == 8 || month == 10 || month == 12 {
        31
    } else if month == 4 || month == 6 || month == 9 || month == 11 {
        30
    } else if month == 2 {
        if leap_year(year) { 29 } else { 28 }
    } else {
        0
    }
}

/// Converts a date to its day-of-year index (1-based).
pub fn date_to_ydays(day: u32, month: u32, year: i32) -> (r: u32)
    requires
        1 <= month <= 12,
        day <= u32::MAX - 366,
    ensures
        r == ydays(day as int, month as int, year as int),
{
    let mut days = month_start_of(month) + day;
    if month > 2 && leap_year(year) {
        days += 1;
    }
    days
}

/// Converts a 1-based day-of-year index back into `(day, month, year)`.
/// Whole months are skipped while the remaining count exceeds the
/// month's length; the walk stops after December.
pub fn ydays_to_date(day_of_year: u32, year: i32) -> (r: (u32, u32, i32))
    ensures
        r.0 == ytd_walk(day_of_year as int, 1, year as int).0,
        r.1 == ytd_walk(day_of_year as int, 1, year as int).1,
        r.2 == year,
{
    let mut m: u32 = 1;
    let mut d = day_of_year;
    while m <= 12 && d > month_len_of(m, year)
        invariant
            1 <= m <= 13,
            ytd_walk(d as int, m as int, year as int) == ytd_walk(day_of_year as int, 1, year as int),
        decreases 13 - m,
    {
        d -= month_len_of(m, year);
        m += 1;
    }
    (d, m, year)
}

/// Computes the day of week, 0 = Sunday .. 6 = Saturday, as
/// `(year * 365 + floor((year-1)/4) - floor((year-1)/100)
///   + floor((year-1)/400) - 1 + date_to_ydays(day,month,year)) mod 7`.
pub fn day_of_week(day: u32, month: u32, year: i32) -> (r: u32)
    requires
        1 <= month <= 12,
        day <= u32::MAX - 366,
    ensures
        r == dow(day as int, month as int, year as int),
        r < 7,
{
    let y = year as i64;
    let sum_years = y * 365 + floor_div(y - 1, 4) - floor_div(y - 1, 100) + floor_div(y - 1, 400) - 1;
    let day_of_year = date_to_ydays(day, month, year) as i64;
    let t = sum_years + day_of_year;
    let q = floor_div(t, 7);
    proof {
        lemma_fundamental_div_mod(t as int, 7);
        lemma_mod_bound(t as int, 7);
    }
    (t - 7 * q) as u32
}

/// Returns the day-of-year (1-based) for the First Sunday of Advent of `year`.
pub fn getadvent(year: i32) -> (r: u32)
    ensures
        r == advent1(year as int),
{
    let christmas_ydays = date_to_ydays(25, 12, year);
    let christmas_dow = day_of_week(25, 12, year);
    let dow_for_offset = if christmas_dow == 0 { 7 } else { christmas_dow };
    christmas_ydays - dow_for_offset - 21
}

/// Computes the date of Easter (day, month, year) for the given year
/// (Gregorian), following the "Anonymous Gregorian Computus".
pub fn geteaster(year: i32) -> (r: (u32, u32, i32))
    requires
        computus_h(year as int) != -1,
    ensures
        r.0 == easter_day(year as int) as u32,
        r.1 == easter_month(year as int) as u32,
        r.2 == year,
{
    let y = year as i64;
    let g = trunc_mod(y, 19);
    let c = trunc_div(y, 100);
    proof {
        assert(-21474837 <= c <= 21474837) by (nonlinear_arith)
            requires c == tdiv(y as int, 100), -2147483648 <= y <= 2147483647;
    }
    let h = trunc_mod(c - trunc_div(c, 4) - trunc_div(8 * c + 13, 25) + 19 * g + 15, 30);
    let h28 = trunc_div(h, 28);
    let t29 = trunc_div(29, h + 1);
    let t21 = trunc_div(21 - g, 11);
    proof {
        assert(-1 <= h28 <= 1) by (nonlinear_arith)
            requires h28 == tdiv(h as int, 28), -30 < h < 30;
        assert(0 <= t21 <= 3) by (nonlinear_arith)
            requires t21 == tdiv(21 - g, 11), -19 < g < 19;
        assert(-29 <= t29 <= 29);
        assert(-87 <= t29 * t21 <= 87) by (nonlinear_arith)
            requires -29 <= t29 <= 29, 0 <= t21 <= 3;
        assert(-88 <= h28 * (t29 * t21) <= 88) by (nonlinear_arith)
            requires -87 <= t29 * t21 <= 87, -1 <= h28 <= 1;
        assert(-89 <= h28 * (1 - h28 * (t29 * t21)) <= 89) by (nonlinear_arith)
            requires -88 <= h28 * (t29 * t21) <= 88, -1 <= h28 <= 1;
    }
    let i = h - h28 * (1 - h28 * (t29 * t21));
    let j = trunc_mod(y + trunc_div(y, 4) + i + 2 - c + trunc_div(c, 4), 7);
    let l = i - j;
    let month = 3 + trunc_div(l + 40, 44);
    let day = l + 28 - 31 * trunc_div(month, 4);
    (day as u32, month as u32, year)
}


/// A string holding `prefix` followed by `n` in decimal.
fn label_int(prefix: &str, n: i64) -> (r: String)
    ensures
        r@ == prefix@ + int_str(n as int),
{
    let mut s = String::new();
    push_str(&mut s, prefix);
    push_int(&mut s, n);
    assert(s@ =~= prefix@ + int_str(n as int));
    s
}

/// A string holding `prefix` followed by `n` zero-padded to two digits.
fn label_pad2(prefix: &str, n: i64) -> (r: String)
    ensures
        r@ == prefix@ + pad_int(n as int, 2),
{
    let mut s = String::new();
    push_str(&mut s, prefix);
    push_pad_int(&mut s, n, 2);
    assert(s@ =~= prefix@ + pad_int(n as int, 2));
    s
}

/// A string holding exactly `text`.
fn label(text: &str) -> (r: String)
    ensures
        r@ == text@,
{
    let mut s = String::new();
    push_str(&mut s, text);
    assert(s@ =~= text@);
    s
}

/// Returns the liturgical week label of a date, e.g. `Adv1`, `Nat25`,
/// `Nat02`, `Epi3`, `Quadp1`, `Quad3`, `Pasc0`, `Pent05`, `Pent24`,
/// `PentEpi5`. `tomorrow` labels the following day (Vespers logic);
/// `missa` selects the `PentEpi{n}` form over `Epi{n}` for the resumed
/// Sundays after Epiphany at the end of the year.
pub fn getweek(day: u32, month: u32, year: i32, tomorrow: bool, missa: bool) -> (r: String)
    requires
        getweek_domain(day as int, month as int, year as int, tomorrow),
    ensures
        r@ == week_label(day as int, month as int, year as int, tomorrow, missa),
{
    let mut t = date_to_ydays(day, month, year) as i64;
    if tomorrow {
        t += 1;
    }
    let advent1 = getadvent(year) as i64;
    let christmas = date_to_ydays(25, 12, year) as i64;
    let t_day: i64 = if tomorrow { day as i64 + 1 } else { day as i64 };
    if t >= advent1 {
        if t < christmas {
            let n = 1 + trunc_div(t - advent1, 7);
            if month == 11 || day < 25 {
                return label_int("Adv", n);
            }
        }
        return label_int("Nat", t_day);
    }
    let ordtime = 6 + 7 - day_of_week(6, 1, year) as i64;
    if month == 1 && (day as i64) < (ordtime - (if tomorrow { 1i64 } else { 0i64 })) {
        return label_pad2("Nat", t_day);
    }
    let (e_day, e_month, _eyear) = geteaster(year);
    let easter_ydays = date_to_ydays(e_day, e_month, year) as i64;
    if t < easter_ydays - 63 {
        let n = 1 + trunc_div(t - ordtime, 7);
        return label_int("Epi", n);
    }
    if t < easter_ydays - 56 {
        return label("Quadp1");
    }
    if t < easter_ydays - 49 {
        return label("Quadp2");
    }
    if t < easter_ydays - 42 {
        return label("Quadp3");
    }
    if t < easter_ydays {
        let n = 1 + trunc_div(t - (easter_ydays - 42), 7);
        return label_int("Quad", n);
    }
    if t < easter_ydays + 56 {
        let n = trunc_div(t - easter_ydays, 7);
        return label_int("Pasc", n);
    }
    let n = trunc_div(t - (easter_ydays + 49), 7);
    if n < 23 {
        return label_pad2("Pent", n);
    }
    let wd_dist = trunc_div(advent1 - t + 6, 7);
    if wd_dist < 2 {
        return label("Pent24");
    }
    if n == 23 {
        return label("Pent23");
    }
    if missa {
        label_int("PentEpi", 8 - wd_dist)
    } else {
        label_int("Epi", 8 - wd_dist)
    }
}


/// The "MMW-D" label for the August–December week blocks of the older
/// rubrics (e.g. `"081-1"`), or an empty string outside them.
/// `modernstyle` applies the 1960 changes; `tomorrow` labels the next
/// day.
#[verifier::spinoff_prover]
#[verifier::rlimit(40)]
pub fn monthday(day: u32, month: u32, year: i32, modernstyle: bool, tomorrow: bool) -> (r: String)
    requires
        month < 7 || (month <= 12 && day <= 0x7fff_0000),
    ensures
        r@ == month_block(day as int, month as int, year as int, modernstyle, tomorrow),
{
    if month < 7 {
        return String::new();
    }
    let day_of_year = date_to_ydays(day, month, year);
    let mut base = day_of_year as i64;
    if tomorrow {
        base += 1;
    }
    let ghost target = lit_month_from(8, base as int, year as int, modernstyle, 0);
    let mut lit_month: i64 = 0;
    let mut lit_sunday: i64 = 0;
    let mut m: u32 = 8;
    let mut done = false;
    while m <= 12 && !done
        invariant
            8 <= m <= 13,
            done ==> target == lit_month,
            !done ==> lit_month_from(m as int, base as int, year as int, modernstyle, lit_month as int) == target,
            lit_month == 0 || (8 <= lit_month <= 12 && lit_sunday == first_sunday(lit_month as int, year as int, modernstyle)),
        decreases 13 - m,
    {
        let first_of_month = date_to_ydays(1, m, year);
        let dofweek = day_of_week(1, m, year);
        let mut sunday = first_of_month as i64 - dofweek as i64;
        if dofweek >= 4 || (dofweek != 0 && modernstyle) {
            sunday += 7;
        }
        if base >= sunday {
            lit_month = m as i64;
            lit_sunday = sunday;
        } else {
            done = true;
        }
        m += 1;
    }
    if lit_month == 0 {
        return String::new();
    }
    if lit_month > 10 {
        let advent = getadvent(year) as i64;
        if base >= advent {
            return String::new();
        }
    }
    let dw = day_of_week(day, month, year);
    let mut w = trunc_div(base - lit_sunday, 7);
    if lit_month == 10 && modernstyle && w >= 2 {
        let offset = ydays_to_date(lit_sunday as u32, year);
        let first_sunday_day = offset.0;
        if first_sunday_day >= 4 {
            w += 1;
        }
    }
    if lit_month == 11 && (w > 0 || modernstyle) {
        let advent = getadvent(year) as i64;
        let alt_w = 4 - trunc_div(advent - base - 1, 7);
        w = alt_w;
        if modernstyle && w == 1 {
            w = 0;
        }
    }
    let mut s = String::new();
    push_pad_int(&mut s, lit_month, 2);
    push_int(&mut s, w + 1);
    push_char(&mut s, '-');
    push_int(&mut s, dw as i64);
    assert(s@ =~= month_block(day as int, month as int, year as int, modernstyle, tomorrow));
    s
}


/// `days_before_year(y)` for years within the range of `i32`.
fn days_before_year_of(y: i64) -> (r: i64)
    requires
        -3_000_000_000 <= y <= 3_000_000_000,
    ensures
        r == days_before_year(y as int),
{
    365 * y + floor_div(y - 1, 4) - floor_div(y - 1, 100) + floor_div(y - 1, 400)
}

/// Day of the year, month 13 standing for the whole year.
fn ydays_ext(day: u32, month: u32, year: i32) -> (r: i64)
    requires
        1 <= month <= 13,
    ensures
        r == ydays(day as int, month as int, year as int),
{
    let mut days = month_start_of(month) as i64 + day as i64;
    if month > 2 && leap_year(year) {
        days += 1;
    }
    days
}

/// Converts a date to the count of days since 1970-01-01. Day counts
/// past the end of the month run on; month 13 stands for the whole
/// year.
pub fn date_to_days(day: u32, month: u32, year: i32) -> (r: i32)
    requires
        1 <= month <= 13,
        day >= 1,
        i32::MIN <= epoch_days(day as int, month as int, year as int) <= i32::MAX,
    ensures
        r == epoch_days(day as int, month as int, year as int),
{
    date_to_days_fallback(day, month, year)
}

/// The day count of [`date_to_days`]: whole years before `year`, then
/// the day of the year.
fn date_to_days_fallback(day: u32, month: u32, year: i32) -> (r: i32)
    requires
        1 <= month <= 13,
        day >= 1,
        i32::MIN <= epoch_days(day as int, month as int, year as int) <= i32::MAX,
    ensures
        r == epoch_days(day as int, month as int, year as int),
{
    let v = days_before_year_of(year as i64) - days_before_year_of(1970) + ydays_ext(day, month, year) - 1;
    v as i32
}

/// `(day, month, year)` of the real date `days` after 1970-01-01.
fn days_to_date_fallback(days: i32) -> (r: (u32, u32, i32))
    ensures
        valid_date(r.0 as int, r.1 as int, r.2 as int),
        epoch_days(r.0 as int, r.1 as int, r.2 as int) == days,
        r == (civil(days as int).0 as u32, civil(days as int).1 as u32, civil(days as int).2 as i32),
{
    let base = days_before_year_of(1970);
    let z: i64 = days as i64 + base;
    let mut y: i64 = floor_div(z * 10000, 3652425);
    proof {
        assert(-5_900_000 <= y <= 5_900_000) by (nonlinear_arith)
            requires y == (z * 10000) / 3652425, -2147483648 + base <= z <= 2147483647 + base,
                base == days_before_year(1970), base == 719527;
    }
    while days_before_year_of(y) > z
        invariant
            -6_000_000 <= y <= 5_900_000,
            z == days as int + days_before_year(1970),
            days_before_year(1970) == 719527,
        decreases y + 6_000_000,
    {
        proof {
            if y - 1 < -6_000_000 {
                lemma_days_before_year_monotone(y as int, 1970);
                assert(false);
            }
        }
        y = y - 1;
    }
    while days_before_year_of(y + 1) <= z
        invariant
            -6_000_000 <= y <= 5_999_000,
            z == days as int + days_before_year(1970),
            days_before_year(1970) == 719527,
            days_before_year(y as int) <= z,
        decreases 6_000_000 - y,
    {
        proof {
            if y + 1 > 5_999_000 {
                lemma_days_before_year_monotone(1970, y as int + 1);
                assert(false);
            }
        }
        y = y + 1;
    }
    proof {
        lemma_days_before_year_step(y as int);
    }
    let doy = (z - days_before_year_of(y) + 1) as u32;
    let year = y as i32;
    let (d, m, _) = ydays_to_date(doy, year);
    proof {
        lemma_ytd_walk(doy as int, 1, year as int);
        lemma_civil_unique(d as int, m as int, year as int);
    }
    (d, m, year)
}


/// Converts "days since 1970-01-01" into a localtime-like tuple
/// `(sec, min, hour, day, month - 1, year - 1900, wday, yday, isdst)`,
/// the time of day fixed at 06:00:00, `wday` with 0 = Sunday and `yday`
/// 0-based.
pub fn days_to_date(days: i32) -> (r: (i32, i32, i32, i32, i32, i32, i32, i32, i32))
    requires
        days <= i32::MAX - 4,
    ensures
        r.0 == 0 && r.1 == 0 && r.2 == 6 && r.8 == 0,
        r.3 == civil(days as int).0,
        r.4 == civil(days as int).1 - 1,
        r.5 == civil(days as int).2 - 1900,
        r.6 == (days as int + 4) % 7,
        r.7 == ydays(civil(days as int).0, civil(days as int).1, civil(days as int).2) - 1,
        valid_date(civil(days as int).0, civil(days as int).1, civil(days as int).2),
        epoch_days(civil(days as int).0, civil(days as int).1, civil(days as int).2) == days,
{
    let sec: i32 = 0;
    let min: i32 = 0;
    let hour: i32 = 6;
    let w = days as i64 + 4;
    let q = floor_div(w, 7);
    proof {
        lemma_fundamental_div_mod(w as int, 7);
        lemma_mod_bound(w as int, 7);
    }
    let wday = (w - 7 * q) as i32;
    let isdst: i32 = 0;
    let (day, month, year) = days_to_date_fallback(days);
    let final_year = year - 1900;
    let final_mon = (month - 1) as i32;
    let final_day = day as i32;
    let final_yday = date_to_ydays(day, month, year) as i32 - 1;
    (sec, min, hour, final_day, final_mon, final_year, wday, final_yday, isdst)
}

fn is_digit_char(c: char) -> (r: bool)
    ensures
        r == is_digit(c),
{
    '0' <= c && c <= '9'
}

/// `str::parse::<i32>` on the characters `v[lo..hi]`.
pub(crate) fn parse_i32_chars(v: &[char], lo: usize, hi: usize) -> (r: Option<i32>)
    requires
        lo <= hi <= v@.len(),
    ensures
        match parse_i32(v@.subrange(lo as int, hi as int)) {
            Some(x) => r == Some(x as i32),
            None => r is None,
        },
{
    let ghost s = v@.subrange(lo as int, hi as int);
    let mut i = lo;
    let mut neg = false;
    if lo < hi && (v[lo] == '+' || v[lo] == '-') {
        neg = v[lo] == '-';
        i = lo + 1;
    }
    let ghost body = v@.subrange(i as int, hi as int);
    proof {
        assert(lo < hi ==> s[0] == v@[lo as int]);
        assert(body =~= numeral_body(s));
        assert(neg == (s.len() > 0 && s[0] == '-'));
    }
    if i == hi {
        return None;
    }
    let start = i;
    let mut acc: i64 = 0;
    while i < hi
        invariant
            start <= i <= hi <= v@.len(),
            start < hi,
            body == v@.subrange(start as int, hi as int),
            body == numeral_body(s),
            s == v@.subrange(lo as int, hi as int),
            forall|k: int| start <= k < i ==> is_digit(#[trigger] v@[k]),
            acc == digits_value(v@.subrange(start as int, i as int)),
            0 <= acc <= 2147483648,
        decreases hi - i,
    {
        let c = v[i];
        if !is_digit_char(c) {
            proof {
                assert(body[i - start] == v@[i as int]);
                assert(!all_digits(body));
            }
            return None;
        }
        proof {
            assert(v@.subrange(start as int, i + 1).drop_last() =~= v@.subrange(start as int, i as int));
            assert(v@.subrange(start as int, i + 1).last() == c);
        }
        let dv = (c as u32 - 48) as i64;
        acc = acc * 10 + dv;
        assert(acc == digits_value(v@.subrange(start as int, i + 1)));
        if acc > 2147483648 {
            proof {
                if all_digits(body) {
                    assert forall|k: int| start <= k < hi implies is_digit(#[trigger] v@[k]) by {
                        assert(body[k - start] == v@[k]);
                    }
                    lemma_digits_value_grows(v@, start as int, i + 1, hi as int);
                    assert(digits_value(body) > 2147483648);
                }
            }
            return None;
        }
        i = i + 1;
    }
    proof {
        assert forall|k: int| 0 <= k < body.len() implies is_digit(#[trigger] body[k]) by {
            assert(body[k] == v@[start + k]);
        }
        assert(v@.subrange(start as int, hi as int) =~= body);
    }
    if neg {
        Some((-acc) as i32)
    } else {
        if acc > 2147483647 {
            return None;
        }
        Some(acc as i32)
    }
}

/// Takes a date string in `MM-DD-YYYY` format, shifts it by `inc` days
/// (which can be negative) and returns the new date, also in
/// `MM-DD-YYYY`. A string without exactly three `-`-separated fields
/// comes back unchanged; fields that do not parse default to month 1,
/// day 1 and year 1970.
pub fn prevnext(date_str: &str, inc: i32) -> (r: String)
    requires
        prevnext_domain(date_str@, inc as int),
    ensures
        count_char(date_str@, '-') != 2 ==> r@ == date_str@,
        count_char(date_str@, '-') == 2 ==> r@ == us_date_text(prevnext_target(date_str@, inc as int)),
{
    let v = crate::text::chars_of(date_str);
    let i1 = index_from_exec(&v, '-', 0);
    let i2 = if i1 < v.len() { index_from_exec(&v, '-', i1 + 1) } else { v.len() };
    let i3 = if i2 < v.len() { index_from_exec(&v, '-', i2 + 1) } else { v.len() };
    proof {
        lemma_count_char_dashes(v@, '-');
    }
    if i1 == v.len() || i2 == v.len() || i3 != v.len() {
        return crate::text::owned(date_str);
    }
    let month = match parse_i32_chars(&v, 0, i1) { Some(x) => x, None => 1 };
    let day = match parse_i32_chars(&v, i1 + 1, i2) { Some(x) => x, None => 1 };
    let year = match parse_i32_chars(&v, i2 + 1, v.len()) { Some(x) => x, None => 1970 };
    let d = date_to_days(day as u32, month as u32, year) + inc;
    let (_sec, _min, _hour, dday, dmonth, dyear, _wday, _yday, _dummy) = days_to_date(d);
    let mut s = String::new();
    push_pad_int(&mut s, (dmonth + 1) as i64, 2);
    push_char(&mut s, '-');
    push_pad_int(&mut s, dday as i64, 2);
    push_char(&mut s, '-');
    push_pad_int(&mut s, (dyear + 1900) as i64, 4);
    assert(s@ =~= us_date_text(prevnext_target(date_str@, inc as int)));
    s
}

/// Same leap-year shift as `get_sday`, returned as `(month, day)`.
pub fn sday_pair(month: u32, day: u32, year: i32) -> (r: (u32, u32))
    ensures
        r.0 == sday(month as int, day as int, year as int).0,
        r.1 == sday(month as int, day as int, year as int).1,
{
    if leap_year(year) && month == 2 {
        if day == 24 {
            return (2, 29);
        } else if day > 24 {
            return (2, day - 1);
        }
    }
    (month, day)
}

/// Sancti kalendar lookup key, or `None` for real Feb 23 of a leap year
/// (the Vigil of Matthias is held on the bissextile day instead).
pub fn sancti_kalendar_key(year: i32, month: u32, day: u32) -> (r: Option<(u32, u32)>)
    ensures
        (is_leap(year as int) && month == 2 && day == 23) ==> r is None,
        !(is_leap(year as int) && month == 2 && day == 23) ==> r == Some((
            sday(month as int, day as int, year as int).0 as u32,
            sday(month as int, day as int, year as int).1 as u32,
        )),
{
    if leap_year(year) && month == 2 && day == 23 {
        return None;
    }
    Some(sday_pair(month, day, year))
}

/// The Sancti-folder date string `MM-DD`, with the leap-year shift.
pub fn get_sday(month: u32, day: u32, year: i32) -> (r: String)
    ensures
        r@ == mm_dd(sday(month as int, day as int, year as int).0, sday(month as int, day as int, year as int).1),
{
    let (m, d) = sday_pair(month, day, year);
    let mut s = String::new();
    push_pad_int(&mut s, m as i64, 2);
    push_char(&mut s, '-');
    push_pad_int(&mut s, d as i64, 2);
    assert(s@ =~= mm_dd(m as int, d as int));
    s
}

/// The Sancti-style `MM-DD` string for the next calendar day (1 Jan
/// after the last day of the year): `get_sday` of the next real day,
/// except that the day after 28 February of a leap year is `02-30`.
pub fn nextday(month: u32, day: u32, year: i32) -> (r: String)
    requires
        1 <= month <= 12,
        day <= 0x7fff_0000,
    ensures
        (is_leap(year as int) && month == 2 && day == 28) ==> r@ == mm_dd(2, 30),
        !(is_leap(year as int) && month == 2 && day == 28) ==> ({
            let total = ydays(day as int, month as int, year as int) + 1;
            if total > year_len(year as int) {
                r@ == mm_dd(1, 1)
            } else {
                let w = ytd_walk(total, 1, year as int);
                r@ == mm_dd(sday(w.1, w.0, year as int).0, sday(w.1, w.0, year as int).1)
            }
        }),
{
    if leap_year(year) && month == 2 && day == 28 {
        let mut s = String::new();
        push_pad_int(&mut s, 2, 2);
        push_char(&mut s, '-');
        push_pad_int(&mut s, 30, 2);
        assert(s@ =~= mm_dd(2, 30));
        return s;
    }
    let total = date_to_ydays(day, month, year) as i32 + 1;
    let max = if leap_year(year) { 366 } else { 365 };
    if total > max {
        let r = get_sday(1, 1, year);
        return r;
    }
    let (d2, m2, y2) = ydays_to_date(total as u32, year);
    get_sday(m2, d2, y2)
}

} // verus!
