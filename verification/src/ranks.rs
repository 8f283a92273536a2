//! Numeric ranks. A `[Rank]` line is `title;;class;;rank[;;commune]`,
//! the rank a decimal number (`2.2`, `5.61`, `6.9`). Ranks are held in
//! thousandths: `5.61` is 5610.

use vstd::prelude::*;
use crate::date::{all_digits, digits_value, is_digit};
use crate::horas::{split_pat, split_pat_exec};
use crate::text::{chars_of, index_from, index_from_exec, owned, string_from, trim_chars, trim_text};

verus! {

/// `10^(3 - k)` for `k` decimals.
pub open spec fn scale(k: int) -> int {
    if k == 0 { 1000 } else if k == 1 { 100 } else if k == 2 { 10 } else { 1 }
}

/// The rank a text denotes, in thousandths: digits with an optional
/// `.` and at most three decimals, at least one digit in all, at most
/// nine before the point.
pub open spec fn rank_value(s: Seq<char>) -> Option<int> {
    let d = index_from(s, '.', 0);
    let ip = s.subrange(0, d);
    let fp = if d < s.len() { s.subrange(d + 1, s.len() as int) } else { Seq::empty() };
    if all_digits(ip) && all_digits(fp) && ip.len() + fp.len() > 0 && fp.len() <= 3 && ip.len() <= 9 {
        Some(digits_value(ip) * 1000 + digits_value(fp) * scale(fp.len() as int))
    } else {
        None
    }
}

proof fn lemma_digits_value_bound(s: Seq<char>)
    requires
        all_digits(s),
    ensures
        0 <= digits_value(s) < p10(s.len() as int),
    decreases s.len(),
{
    if s.len() > 0 {
        lemma_digits_value_bound(s.drop_last());
        assert(is_digit(s[s.len() - 1]));
    }
}

/// `10^n`.
pub open spec fn p10(n: int) -> int
    decreases n,
{
    if n <= 0 { 1 } else { 10 * p10(n - 1) }
}

proof fn lemma_p10_mono(a: int, b: int)
    requires
        0 <= a <= b,
    ensures
        1 <= p10(a) <= p10(b),
    decreases b,
{
    if a < b {
        lemma_p10_mono(a, b - 1);
    } else if b > 0 {
        lemma_p10_mono(a - 1, b - 1);
    }
}

/// Value of the digits `v[lo..hi]`.
fn digits_exec(v: &[char], lo: usize, hi: usize) -> (r: i64)
    requires
        lo <= hi <= v@.len(),
        hi - lo <= 9,
        all_digits(v@.subrange(lo as int, hi as int)),
    ensures
        r == digits_value(v@.subrange(lo as int, hi as int)),
{
    let mut acc: i64 = 0;
    let mut i = lo;
    while i < hi
        invariant
            lo <= i <= hi <= v@.len(),
            hi - lo <= 9,
            all_digits(v@.subrange(lo as int, hi as int)),
            acc == digits_value(v@.subrange(lo as int, i as int)),
            0 <= acc < p10(i - lo),
        decreases hi - i,
    {
        proof {
            assert(v@.subrange(lo as int, i + 1).drop_last() =~= v@.subrange(lo as int, i as int));
            assert(v@.subrange(lo as int, i + 1).last() == v@[i as int]);
            assert(v@.subrange(lo as int, hi as int)[i - lo] == v@[i as int]);
            lemma_p10_mono(i - lo, 8);
            assert(p10(8) == 100_000_000) by { reveal_with_fuel(p10, 9); }
        }
        let d = (v[i] as u32 - 48) as i64;
        acc = acc * 10 + d;
        i = i + 1;
    }
    acc
}

fn all_digits_exec(v: &[char], lo: usize, hi: usize) -> (r: bool)
    requires
        lo <= hi <= v@.len(),
    ensures
        r == all_digits(v@.subrange(lo as int, hi as int)),
{
    let mut i = lo;
    while i < hi
        invariant
            lo <= i <= hi <= v@.len(),
            forall|k: int| lo <= k < i ==> is_digit(#[trigger] v@[k]),
        decreases hi - i,
    {
        if !('0' <= v[i] && v[i] <= '9') {
            assert(v@.subrange(lo as int, hi as int)[i - lo] == v@[i as int]);
            return false;
        }
        i = i + 1;
    }
    assert forall|k: int| 0 <= k < hi - lo implies is_digit(#[trigger] v@.subrange(lo as int, hi as int)[k]) by {
        assert(v@.subrange(lo as int, hi as int)[k] == v@[lo + k]);
    }
    true
}

/// Parses a rank text (see [`rank_value`]).
pub fn parse_rank(s: &[char]) -> (r: Option<i64>)
    ensures
        match r {
            Some(x) => rank_value(s@) == Some(x as int),
            None => rank_value(s@) is None,
        },
{
    let n = s.len();
    let d = index_from_exec(s, '.', 0);
    let fl: usize = if d < n { n - d - 1 } else { 0 };
    let fs: usize = if d < n { d + 1 } else { n };
    proof {
        if d < n {
            assert(s@.subrange(d + 1, n as int) =~= s@.subrange(fs as int, (fs + fl) as int));
        } else {
            assert(s@.subrange(fs as int, (fs + fl) as int) =~= Seq::<char>::empty());
        }
    }
    if d + fl == 0 || fl > 3 || d > 9 {
        return None;
    }
    if !all_digits_exec(s, 0, d) || !all_digits_exec(s, fs, fs + fl) {
        return None;
    }
    let ip = digits_exec(s, 0, d);
    let fp = digits_exec(s, fs, fs + fl);
    proof {
        lemma_digits_value_bound(s@.subrange(0, d as int));
        lemma_p10_mono(d as int, 9);
        assert(p10(9) == 1_000_000_000) by { reveal_with_fuel(p10, 10); }
        lemma_digits_value_bound(s@.subrange(fs as int, (fs + fl) as int));
        lemma_p10_mono(fl as int, 3);
        assert(p10(3) == 1000) by { reveal_with_fuel(p10, 4); }
    }
    let sc: i64 = if fl == 0 { 1000 } else if fl == 1 { 100 } else if fl == 2 { 10 } else { 1 };
    Some(ip * 1000 + fp * sc)
}

// ─── Rank lines ──────────────────────────────────────────────────────

/// A rank line: the whole (trimmed) line, its class, its rank.
pub struct RankLine {
    pub line: String,
    pub class: String,
    pub rank: i64,
}

/// What a line of a `[Rank]` body gives: nothing for a blank line, a
/// `(…)` condition line, a line with fewer than three `;;` fields or
/// whose third field is no rank; else the trimmed line, its trimmed
/// second field and the rank of its trimmed third field.
pub open spec fn rank_line_of(l: Seq<char>) -> Option<(Seq<char>, Seq<char>, int)> {
    let t = trim_text(l);
    let p = split_pat(t, seq![';', ';']);
    if t.len() == 0 || t[0] == '(' || p.len() < 3 {
        None
    } else {
        match rank_value(trim_text(p[2])) {
            Some(v) => Some((t, trim_text(p[1]), v)),
            None => None,
        }
    }
}

/// The first rank line among `ls[i..]`.
pub open spec fn first_rank_line(ls: Seq<Seq<char>>, i: int) -> Option<(Seq<char>, Seq<char>, int)>
    decreases ls.len() - i,
{
    if i < 0 || i >= ls.len() {
        None
    } else if rank_line_of(ls[i]) is Some {
        rank_line_of(ls[i])
    } else {
        first_rank_line(ls, i + 1)
    }
}

/// The highest rank among `ls[i..]`.
pub open spec fn max_rank(ls: Seq<Seq<char>>, i: int) -> Option<int>
    decreases ls.len() - i,
{
    if i < 0 || i >= ls.len() {
        None
    } else {
        let rest = max_rank(ls, i + 1);
        match rank_line_of(ls[i]) {
            Some(x) => match rest {
                Some(m) => Some(if x.2 >= m { x.2 } else { m }),
                None => Some(x.2),
            },
            None => rest,
        }
    }
}

/// The view of a rank line.
pub open spec fn rank_line_view(r: RankLine) -> (Seq<char>, Seq<char>, int) {
    (r.line@, r.class@, r.rank as int)
}

fn rank_line_exec(l: &[char]) -> (r: Option<RankLine>)
    ensures
        match r {
            Some(x) => rank_line_of(l@) == Some(rank_line_view(x)),
            None => rank_line_of(l@) is None,
        },
{
    proof {
        reveal_strlit(";;");
        assert(";;"@ =~= seq![';', ';']);
    }
    let t = trim_chars(l);
    if t.len() == 0 || t[0] == '(' {
        return None;
    }
    let p = split_pat_exec(&t, ";;");
    proof {
        assert(p@.map_values(|x: Vec<char>| x@).len() == p@.len());
    }
    if p.len() < 3 {
        return None;
    }
    proof {
        assert(p@.map_values(|x: Vec<char>| x@)[1] == p@[1]@);
        assert(p@.map_values(|x: Vec<char>| x@)[2] == p@[2]@);
    }
    let f2 = trim_chars(&p[2]);
    match parse_rank(&f2) {
        Some(v) => {
            let class = string_from(&trim_chars(&p[1]));
            Some(RankLine { line: string_from(&t), class, rank: v })
        },
        None => None,
    }
}

/// The first rank line of a `[Rank]` body.
pub fn parse_first_rank_line(body: &str) -> (r: Option<RankLine>)
    ensures
        match r {
            Some(x) => first_rank_line(crate::text::split_on(body@, '\n'), 0) == Some(rank_line_view(x)),
            None => first_rank_line(crate::text::split_on(body@, '\n'), 0) is None,
        },
{
    let v = chars_of(body);
    let lines = crate::text::split_chars(&v, '\n');
    let ghost ls = crate::text::split_on(body@, '\n');
    assert(lines@.map_values(|x: Vec<char>| x@) == ls);
    let mut i: usize = 0;
    while i < lines.len()
        invariant
            i <= lines@.len(),
            lines@.len() == ls.len(),
            forall|k: int| 0 <= k < ls.len() ==> #[trigger] ls[k] == lines@[k]@,
            first_rank_line(ls, i as int) == first_rank_line(ls, 0),
            ls == crate::text::split_on(body@, '\n'),
        decreases lines.len() - i,
    {
        proof { assert(ls[i as int] == lines@[i as int]@); }
        match rank_line_exec(&lines[i]) {
            Some(x) => {
                return Some(x);
            },
            None => {},
        }
        i = i + 1;
    }
    None
}

/// The highest rank of a `[Rank]` body (its rubric variants).
pub fn parse_horas_rank(body: &str) -> (r: Option<i64>)
    ensures
        match r {
            Some(x) => max_rank(crate::text::split_on(body@, '\n'), 0) == Some(x as int),
            None => max_rank(crate::text::split_on(body@, '\n'), 0) is None,
        },
{
    let v = chars_of(body);
    let lines = crate::text::split_chars(&v, '\n');
    let ghost ls = crate::text::split_on(body@, '\n');
    assert(lines@.map_values(|x: Vec<char>| x@) == ls);
    let mut best: Option<i64> = None;
    let mut i: usize = lines.len();
    while i > 0
        invariant
            i <= lines@.len(),
            lines@.len() == ls.len(),
            forall|k: int| 0 <= k < ls.len() ==> #[trigger] ls[k] == lines@[k]@,
            match best {
                Some(b) => max_rank(ls, i as int) == Some(b as int),
                None => max_rank(ls, i as int) is None,
            },
        decreases i,
    {
        i = i - 1;
        proof { assert(ls[i as int] == lines@[i as int]@); }
        match rank_line_exec(&lines[i]) {
            Some(x) => {
                best = match best {
                    Some(m) => Some(if x.rank >= m { x.rank } else { m }),
                    None => Some(x.rank),
                };
            },
            None => {},
        }
    }
    best
}

} // verus!
