//! Text-level scrubs of the office renderer: the breath-pause asterisk
//! of psalm verses, and the punctuation/diacritic folding used to
//! compare antiphons with psalm verses.

use vstd::prelude::*;
use crate::core_types::Season;
use crate::text::{contains_seq, contains_str, chars_of, index_from, index_from_exec, is_white, is_white_char, last_before, last_before_exec, lemma_last_before_bounds, push_char, push_chars, string_from, trimmed_len};

verus! {

// ─── depunct ─────────────────────────────────────────────────────────

/// What `depunct` makes of one character: punctuation dropped,
/// accented vowels folded to a lowercase base letter, `J`/`j` turned
/// into `I`/`i`, the ligatures `æ`/`œ` expanded.
pub open spec fn depunct_char(c: char) -> Seq<char> {
    if c == '.' || c == ',' || c == ':' || c == '?' || c == '!' || c == '"' || c == '\''
        || c == ';' || c == '*' || c == '(' || c == ')' {
        Seq::empty()
    } else if c == 'á' || c == 'Á' {
        seq!['a']
    } else if c == 'é' || c == 'É' {
        seq!['e']
    } else if c == 'í' || c == 'Í' {
        seq!['i']
    } else if c == 'ó' || c == 'ö' || c == 'õ' || c == 'Ó' || c == 'Ö' || c == 'Ô' {
        seq!['o']
    } else if c == 'ú' || c == 'ü' || c == 'û' || c == 'Ú' || c == 'Ü' || c == 'Û' {
        seq!['u']
    } else if c == 'J' {
        seq!['I']
    } else if c == 'j' {
        seq!['i']
    } else if c == 'æ' {
        seq!['a', 'e']
    } else if c == 'œ' {
        seq!['o', 'e']
    } else {
        seq![c]
    }
}

/// `depunct` of a whole text: each character replaced as
/// `depunct_char` says, in order.
pub open spec fn depunct_text(s: Seq<char>) -> Seq<char>
    decreases s.len(),
{
    if s.len() == 0 {
        Seq::empty()
    } else {
        depunct_text(s.drop_last()) + depunct_char(s.last())
    }
}

fn push_depunct_char(out: &mut String, c: char)
    ensures
        final(out)@ == old(out)@ + depunct_char(c),
{
    if c == '.' || c == ',' || c == ':' || c == '?' || c == '!' || c == '"' || c == '\''
        || c == ';' || c == '*' || c == '(' || c == ')' {
        assert(old(out)@ + depunct_char(c) =~= old(out)@);
    } else if c == 'á' || c == 'Á' {
        push_char(out, 'a');
    } else if c == 'é' || c == 'É' {
        push_char(out, 'e');
    } else if c == 'í' || c == 'Í' {
        push_char(out, 'i');
    } else if c == 'ó' || c == 'ö' || c == 'õ' || c == 'Ó' || c == 'Ö' || c == 'Ô' {
        push_char(out, 'o');
    } else if c == 'ú' || c == 'ü' || c == 'û' || c == 'Ú' || c == 'Ü' || c == 'Û' {
        push_char(out, 'u');
    } else if c == 'J' {
        push_char(out, 'I');
    } else if c == 'j' {
        push_char(out, 'i');
    } else if c == 'æ' {
        push_char(out, 'a');
        push_char(out, 'e');
        assert(old(out)@.push('a').push('e') =~= old(out)@ + depunct_char(c));
    } else if c == 'œ' {
        push_char(out, 'o');
        push_char(out, 'e');
        assert(old(out)@.push('o').push('e') =~= old(out)@ + depunct_char(c));
    } else {
        push_char(out, c);
    }
}

/// Strips punctuation and diacritics for antiphon-vs-verse comparison.
pub fn depunct(s: &str) -> (r: String)
    ensures
        r@ == depunct_text(s@),
{
    let v = chars_of(s);
    let mut out = String::new();
    let mut i: usize = 0;
    while i < v.len()
        invariant
            i <= v@.len(),
            v@ == s@,
            out@ == depunct_text(v@.subrange(0, i as int)),
        decreases v.len() - i,
    {
        proof {
            let next = v@.subrange(0, i + 1);
            assert(next.drop_last() =~= v@.subrange(0, i as int));
            assert(next.last() == v@[i as int]);
        }
        push_depunct_char(&mut out, v[i]);
        i = i + 1;
    }
    assert(v@.subrange(0, v@.len() as int) =~= s@);
    out
}

// ─── Alleluia ────────────────────────────────────────────────────────

/// Whether an office of `season` under the votive `votive` takes the
/// Paschal alleluia: in Eastertide, except for the Office of the Dead
/// (`C9`) and the Little Office of Our Lady (`C12`).
pub fn alleluia_required(season: Season, votive: &str) -> (r: bool)
    ensures
        r == (season == Season::Easter && !contains_seq(votive@, "C9"@) && !contains_seq(votive@, "C12"@)),
{
    let easter = match season {
        Season::Easter => true,
        _ => false,
    };
    let v = chars_of(votive);
    easter && !contains_str(&v, "C9") && !contains_str(&v, "C12")
}

// ─── set_asterisk ────────────────────────────────────────────────────

/// The sentence punctuation the asterisk may follow.
pub open spec fn is_sentence_punct(c: char) -> bool {
    c == '.' || c == ':' || c == ';' || c == '?' || c == '!'
}

/// Index of the last sentence punctuation in `s[..k]`, or -1.
pub open spec fn last_punct_before(s: Seq<char>, k: int) -> int
    decreases k,
{
    if k <= 0 { -1 } else if is_sentence_punct(s[k - 1]) { k - 1 } else { last_punct_before(s, k - 1) }
}

/// The split threshold: 24 for a line over 64 characters, 6 for one
/// under 24, 12 otherwise.
pub open spec fn split_threshold(n: int) -> int {
    if n > 64 { 24 } else if n < 24 { 6 } else { 12 }
}

/// `t` with one leading space (kept when it is already there).
pub open spec fn lead_space(t: Seq<char>) -> Seq<char> {
    if t.len() > 0 && t[0] == ' ' { t } else { seq![' '] + t }
}

/// First pass: split after the last sentence punctuation that leaves
/// more than `lp2` characters after it, provided more than `lp2`
/// characters come before it.
pub open spec fn punct_split(line: Seq<char>, lp2: int) -> Option<Seq<char>> {
    let p = last_punct_before(line, line.len() - 1 - lp2);
    if p >= 0 && p > lp2 {
        Some(line.subrange(0, p) + seq![line[p]] + seq![' ', '*'] + line.subrange(p + 1, line.len() as int))
    } else {
        None
    }
}

/// Where a space split at `ce` ends after pulling short trailing words
/// (under 4 characters) of the head into the tail, while the head stays
/// over `lp2 + 3` characters.
pub open spec fn coalesce_end(line: Seq<char>, ce: int, lp2: int) -> int
    decreases ce,
{
    if ce <= lp2 + 3 {
        ce
    } else {
        let ls = last_before(line, ' ', ce);
        if ls < 0 || ce - ls - 1 >= 4 {
            ce
        } else {
            proof { lemma_last_before_bounds(line, ' ', ce); }
            coalesce_end(line, ls, lp2)
        }
    }
}

/// Second pass, at prefix length `k` with breaker `b`: split at the
/// last breaker of `line[..k]` whose tail (after coalescing) is over
/// `lp2` characters. A comma split leaving a head under `lp2`
/// characters restarts the search with spaces; with no breaker left,
/// the asterisk goes after `line[..k]`.
pub open spec fn breaker_split(line: Seq<char>, k: int, b: char, lp2: int) -> Seq<char>
    decreases (if b == ',' { 1int } else { 0int }), k,
{
    let i = last_before(line, b, k);
    if i < 0 {
        line.subrange(0, k) + seq![' ', '*'] + lead_space(line.subrange(k, line.len() as int))
    } else if b == ',' && i < lp2 {
        breaker_split(line, line.len() as int, ' ', lp2)
    } else {
        let ce = if b == ' ' { coalesce_end(line, i, lp2) } else { i };
        let comb = line.subrange(ce + 1, line.len() as int);
        if comb.len() > lp2 {
            line.subrange(0, ce) + seq![b, '*'] + lead_space(comb)
        } else {
            proof {
                lemma_last_before_bounds(line, b, k);
                lemma_coalesce_end_bounds(line, i, lp2);
            }
            breaker_split(line, ce, b, lp2)
        }
    }
}

/// The second pass from the start: commas when the text after the
/// first comma is over `lp2` characters, spaces otherwise.
pub open spec fn comma_or_space(line: Seq<char>, lp2: int) -> Seq<char> {
    let c = index_from(line, ',', 0);
    let b = if c < line.len() && line.len() - c - 1 > lp2 { ',' } else { ' ' };
    breaker_split(line, line.len() as int, b, lp2)
}

/// The asterisked verse: trailing whitespace trimmed; unchanged when a
/// `*` already has more than 9 characters after it; else split by the
/// punctuation pass, or failing that by the comma/space pass.
pub open spec fn asterisked(line0: Seq<char>) -> Seq<char> {
    let line = line0.subrange(0, trimmed_len(line0, line0.len() as int));
    let star = index_from(line, '*', 0);
    if star < line.len() && line.len() - star - 1 > 9 {
        line
    } else {
        let lp2 = split_threshold(line.len() as int);
        match punct_split(line, lp2) {
            Some(o) => o,
            None => comma_or_space(line, lp2),
        }
    }
}

pub proof fn lemma_last_punct_bounds(s: Seq<char>, k: int)
    requires
        0 <= k,
    ensures
        -1 <= last_punct_before(s, k) < k,
    decreases k,
{
    if k > 0 && !is_sentence_punct(s[k - 1]) {
        lemma_last_punct_bounds(s, k - 1);
    }
}

pub proof fn lemma_coalesce_end_bounds(line: Seq<char>, ce: int, lp2: int)
    requires
        0 <= ce,
    ensures
        0 <= coalesce_end(line, ce, lp2) <= ce,
    decreases ce,
{
    if ce > lp2 + 3 {
        let ls = last_before(line, ' ', ce);
        lemma_last_before_bounds(line, ' ', ce);
        if ls >= 0 && ce - ls - 1 < 4 {
            lemma_coalesce_end_bounds(line, ls, lp2);
        }
    }
}

fn last_punct_exec(v: &[char], k: usize) -> (r: Option<usize>)
    requires
        k <= v@.len(),
    ensures
        match r {
            Some(i) => i as int == last_punct_before(v@, k as int) && i < k,
            None => last_punct_before(v@, k as int) == -1,
        },
{
    let mut j = k;
    while j > 0
        invariant
            j <= k <= v@.len(),
            last_punct_before(v@, j as int) == last_punct_before(v@, k as int),
        decreases j,
    {
        let c = v[j - 1];
        if c == '.' || c == ':' || c == ';' || c == '?' || c == '!' {
            return Some(j - 1);
        }
        j = j - 1;
    }
    None
}

fn push_lead_space(out: &mut String, v: &[char], lo: usize)
    requires
        lo <= v@.len(),
    ensures
        final(out)@ == old(out)@ + lead_space(v@.subrange(lo as int, v@.len() as int)),
{
    let ghost t = v@.subrange(lo as int, v@.len() as int);
    if !(lo < v.len() && v[lo] == ' ') {
        push_char(out, ' ');
    }
    push_chars(out, v, lo, v.len());
    assert(out@ =~= old(out)@ + lead_space(t));
}

fn coalesce_end_exec(v: &[char], ce0: usize, lp2: usize) -> (r: usize)
    requires
        ce0 <= v@.len(),
        lp2 <= 24,
    ensures
        r as int == coalesce_end(v@, ce0 as int, lp2 as int),
        r <= ce0,
{
    let mut ce = ce0;
    loop
        invariant
            ce <= ce0 <= v@.len(),
            lp2 <= 24,
            coalesce_end(v@, ce as int, lp2 as int) == coalesce_end(v@, ce0 as int, lp2 as int),
        decreases ce,
    {
        if ce <= lp2 + 3 {
            return ce;
        }
        match last_before_exec(v, ' ', ce) {
            None => {
                return ce;
            },
            Some(ls) => {
                if ce - ls - 1 >= 4 {
                    return ce;
                }
                ce = ls;
            },
        }
    }
}

fn breaker_split_from(v: &[char], b0: char, lp2: usize) -> (r: String)
    requires
        lp2 <= 24,
        b0 == ',' || b0 == ' ',
    ensures
        r@ == breaker_split(v@, v@.len() as int, b0, lp2 as int),
{
    let mut b = b0;
    let mut k = v.len();
    loop
        invariant
            k <= v@.len(),
            lp2 <= 24,
            b == ',' || b == ' ',
            b0 == ' ' ==> b == ' ',
            breaker_split(v@, k as int, b, lp2 as int) == breaker_split(v@, v@.len() as int, b0, lp2 as int),
        decreases (if b == ',' { 1int } else { 0int }), k,
    {
        match last_before_exec(v, b, k) {
            None => {
                let mut out = String::new();
                push_chars(&mut out, v, 0, k);
                push_char(&mut out, ' ');
                push_char(&mut out, '*');
                push_lead_space(&mut out, v, k);
                assert(out@ =~= v@.subrange(0, k as int) + seq![' ', '*']
                    + lead_space(v@.subrange(k as int, v@.len() as int)));
                return out;
            },
            Some(i) => {
                proof { lemma_last_before_bounds(v@, b, k as int); }
                if b == ',' && i < lp2 {
                    b = ' ';
                    k = v.len();
                } else {
                    let ce = if b == ' ' { coalesce_end_exec(v, i, lp2) } else { i };
                    if v.len() - ce - 1 > lp2 {
                        let mut out = String::new();
                        push_chars(&mut out, v, 0, ce);
                        push_char(&mut out, b);
                        push_char(&mut out, '*');
                        push_lead_space(&mut out, v, ce + 1);
                        assert(out@ =~= v@.subrange(0, ce as int) + seq![b, '*']
                            + lead_space(v@.subrange(ce + 1, v@.len() as int)));
                        return out;
                    }
                    k = ce;
                }
            },
        }
    }
}

fn trimmed_len_exec(v: &[char]) -> (r: usize)
    ensures
        r as int == trimmed_len(v@, v@.len() as int),
        r <= v@.len(),
{
    let mut k = v.len();
    while k > 0 && is_white_char(v[k - 1])
        invariant
            k <= v@.len(),
            trimmed_len(v@, k as int) == trimmed_len(v@, v@.len() as int),
        decreases k,
    {
        k = k - 1;
    }
    k
}

/// Inserts the breath-pause asterisk into a psalm verse.
///
/// Trailing whitespace is trimmed first. A line whose first `*` has
/// more than 9 characters after it passes through. Otherwise, with
/// the threshold `lp2` of [`split_threshold`], the line is split after
/// the last sentence punctuation (`.`, `:`, `;`, `?`, `!`) leaving a
/// tail over `lp2` characters, provided the head is over `lp2`
/// characters too; failing that, at a comma or a space, pulling short
/// words into the tail.
pub fn set_asterisk(line: &str) -> (r: String)
    ensures
        r@ == asterisked(line@),
{
    let all = chars_of(line);
    let n = trimmed_len_exec(&all);
    let v = crate::text::chars_of(crate::text::string_of(&all, 0, n).as_str());
    let ghost lv = line@.subrange(0, trimmed_len(line@, line@.len() as int));
    assert(v@ == lv);
    let star = index_from_exec(&v, '*', 0);
    if star < v.len() && v.len() - star - 1 > 9 {
        return string_from(&v);
    }
    let len = v.len();
    let lp2: usize = if len > 64 { 24 } else if len < 24 { 6 } else { 12 };
    match punctuation_split(&v, lp2) {
        Some(out) => out,
        None => comma_or_space_split(&v, lp2),
    }
}

/// The punctuation pass of [`set_asterisk`].
fn punctuation_split(v: &[char], lp2: usize) -> (r: Option<String>)
    requires
        lp2 <= 24,
    ensures
        match r {
            Some(o) => punct_split(v@, lp2 as int) == Some(o@),
            None => punct_split(v@, lp2 as int) is None,
        },
{
    let len = v.len();
    if len < lp2 + 1 {
        assert(last_punct_before(v@, v@.len() - 1 - lp2) == -1);
        return None;
    }
    match last_punct_exec(v, len - 1 - lp2) {
        Some(p) => {
            if p > lp2 {
                let mut out = String::new();
                push_chars(&mut out, v, 0, p);
                push_char(&mut out, v[p]);
                push_char(&mut out, ' ');
                push_char(&mut out, '*');
                push_chars(&mut out, v, p + 1, len);
                assert(out@ =~= v@.subrange(0, p as int) + seq![v@[p as int]] + seq![' ', '*']
                    + v@.subrange(p + 1, v@.len() as int));
                Some(out)
            } else {
                None
            }
        },
        None => None,
    }
}

/// The comma/space pass of [`set_asterisk`].
fn comma_or_space_split(v: &[char], lp2: usize) -> (r: String)
    requires
        lp2 <= 24,
    ensures
        r@ == comma_or_space(v@, lp2 as int),
{
    let len = v.len();
    let c = index_from_exec(v, ',', 0);
    let b = if c < len && len - c - 1 > lp2 { ',' } else { ' ' };
    breaker_split_from(v, b, lp2)
}


// ─── Laws ────────────────────────────────────────────────────────────

/// The characters `depunct` never leaves: the stripped punctuation, the
/// folded accented vowels, `J`/`j` and the ligatures.
pub open spec fn folded_away(c: char) -> bool {
    c == '.' || c == ',' || c == ':' || c == '?' || c == '!' || c == '"' || c == '\'' || c == ';'
        || c == '*' || c == '(' || c == ')' || c == 'á' || c == 'Á' || c == 'é' || c == 'É'
        || c == 'í' || c == 'Í' || c == 'ó' || c == 'ö' || c == 'õ' || c == 'Ó' || c == 'Ö'
        || c == 'Ô' || c == 'ú' || c == 'ü' || c == 'û' || c == 'Ú' || c == 'Ü' || c == 'Û'
        || c == 'J' || c == 'j' || c == 'æ' || c == 'œ'
}

/// `depunct` leaves no punctuation, accented vowel, `J`/`j` or ligature
/// in its result.
pub proof fn lemma_depunct_leaves_plain_text(s: Seq<char>)
    ensures
        forall|k: int| 0 <= k < depunct_text(s).len() ==> !folded_away(#[trigger] depunct_text(s)[k]),
    decreases s.len(),
{
    if s.len() > 0 {
        lemma_depunct_leaves_plain_text(s.drop_last());
        let a = depunct_text(s.drop_last());
        let b = depunct_char(s.last());
        assert forall|k: int| 0 <= k < depunct_text(s).len() implies !folded_away(#[trigger] depunct_text(s)[k]) by {
            if k >= a.len() {
                assert(depunct_text(s)[k] == b[k - a.len()]);
            } else {
                assert(depunct_text(s)[k] == a[k]);
            }
        }
    }
}

/// Number of `*` in `s`.
pub open spec fn star_count(s: Seq<char>) -> int
    decreases s.len(),
{
    if s.len() == 0 { 0 } else { star_count(s.drop_last()) + if s.last() == '*' { 1int } else { 0int } }
}

proof fn lemma_star_count_add(a: Seq<char>, b: Seq<char>)
    ensures
        star_count(a + b) == star_count(a) + star_count(b),
    decreases b.len(),
{
    if b.len() > 0 {
        lemma_star_count_add(a, b.drop_last());
        assert((a + b).drop_last() =~= a + b.drop_last());
        assert((a + b).last() == b.last());
    } else {
        assert(a + b =~= a);
    }
}

proof fn lemma_star_count_nonneg(s: Seq<char>)
    ensures
        star_count(s) >= 0,
    decreases s.len(),
{
    if s.len() > 0 {
        lemma_star_count_nonneg(s.drop_last());
    }
}

proof fn lemma_star_count_short(c1: char, c2: char)
    ensures
        star_count(seq![c1]) == (if c1 == '*' { 1int } else { 0int }),
        star_count(seq![c1, c2]) == (if c1 == '*' { 1int } else { 0int }) + (if c2 == '*' { 1int } else { 0int }),
{
    reveal_with_fuel(star_count, 3);
    assert(seq![c1].drop_last() =~= Seq::<char>::empty());
    assert(seq![c1, c2].drop_last() =~= seq![c1]);
}

/// A `*` anywhere makes the count positive.
proof fn lemma_star_at(s: Seq<char>, k: int)
    requires
        0 <= k < s.len(),
        s[k] == '*',
    ensures
        star_count(s) >= 1,
    decreases s.len(),
{
    if k == s.len() - 1 {
        lemma_star_count_nonneg(s.drop_last());
    } else {
        lemma_star_at(s.drop_last(), k);
    }
}

/// A text without `*` has none in any part of it.
proof fn lemma_star_free_parts(s: Seq<char>, i: int, j: int)
    requires
        star_count(s) == 0,
        0 <= i <= j <= s.len(),
    ensures
        star_count(s.subrange(i, j)) == 0,
        forall|k: int| 0 <= k < s.len() ==> s[k] != '*',
{
    lemma_star_count_add(s.subrange(0, i), s.subrange(i, j));
    lemma_star_count_add(s.subrange(0, i) + s.subrange(i, j), s.subrange(j, s.len() as int));
    assert(s.subrange(0, i) + s.subrange(i, j) + s.subrange(j, s.len() as int) =~= s);
    lemma_star_count_nonneg(s.subrange(0, i));
    lemma_star_count_nonneg(s.subrange(i, j));
    lemma_star_count_nonneg(s.subrange(j, s.len() as int));
    assert forall|k: int| 0 <= k < s.len() implies s[k] != '*' by {
        if s[k] == '*' {
            lemma_star_at(s, k);
        }
    }
}

proof fn lemma_lead_space_star_free(t: Seq<char>)
    requires
        star_count(t) == 0,
    ensures
        star_count(lead_space(t)) == 0,
{
    if !(t.len() > 0 && t[0] == ' ') {
        lemma_star_count_add(seq![' '], t);
        lemma_star_count_short(' ', ' ');
    }
}

proof fn lemma_breaker_split_one_star(line: Seq<char>, k: int, b: char, lp2: int)
    requires
        star_count(line) == 0,
        0 <= k <= line.len(),
        b == ',' || b == ' ',
    ensures
        star_count(breaker_split(line, k, b, lp2)) == 1,
    decreases (if b == ',' { 1int } else { 0int }), k,
{
    let i = last_before(line, b, k);
    lemma_last_before_bounds(line, b, k);
    let two = seq![' ', '*'];
    lemma_star_count_short(' ', '*');
    if i < 0 {
        lemma_star_free_parts(line, 0, k);
        lemma_star_free_parts(line, k, line.len() as int);
        lemma_lead_space_star_free(line.subrange(k, line.len() as int));
        lemma_star_count_add(line.subrange(0, k), two);
        lemma_star_count_add(line.subrange(0, k) + two, lead_space(line.subrange(k, line.len() as int)));
    } else if b == ',' && i < lp2 {
        lemma_breaker_split_one_star(line, line.len() as int, ' ', lp2);
    } else {
        let ce = if b == ' ' { coalesce_end(line, i, lp2) } else { i };
        lemma_coalesce_end_bounds(line, i, lp2);
        let comb = line.subrange(ce + 1, line.len() as int);
        if comb.len() > lp2 {
            let mid = seq![b, '*'];
            lemma_star_count_short(b, '*');
            lemma_star_free_parts(line, 0, ce);
            lemma_star_free_parts(line, ce + 1, line.len() as int);
            lemma_lead_space_star_free(comb);
            lemma_star_count_add(line.subrange(0, ce), mid);
            lemma_star_count_add(line.subrange(0, ce) + mid, lead_space(comb));
        } else {
            lemma_breaker_split_one_star(line, ce, b, lp2);
        }
    }
}

/// The last sentence punctuation found is a sentence punctuation.
proof fn lemma_last_punct_is_punct(s: Seq<char>, k: int)
    requires
        0 <= k <= s.len(),
    ensures
        last_punct_before(s, k) >= 0 ==> is_sentence_punct(s[last_punct_before(s, k)]),
    decreases k,
{
    if k > 0 && !is_sentence_punct(s[k - 1]) {
        lemma_last_punct_is_punct(s, k - 1);
    }
}

/// A verse without an asterisk comes out of `set_asterisk` with exactly
/// one.
pub proof fn lemma_set_asterisk_inserts_one(line0: Seq<char>)
    requires
        star_count(line0) == 0,
    ensures
        star_count(asterisked(line0)) == 1,
{
    let n0 = trimmed_len(line0, line0.len() as int);
    crate::text::lemma_trimmed_len_bounds(line0, line0.len() as int);
    let line = line0.subrange(0, n0);
    lemma_star_free_parts(line0, 0, n0);
    lemma_star_free_parts(line, 0, line.len() as int);
    crate::text::lemma_index_from_first(line, '*', 0);
    crate::text::lemma_index_from_bounds(line, '*', 0);
    let lp2 = split_threshold(line.len() as int);
    let p = last_punct_before(line, line.len() - 1 - lp2);
    if line.len() - 1 - lp2 >= 0 {
        lemma_last_punct_bounds(line, line.len() - 1 - lp2);
        lemma_last_punct_is_punct(line, line.len() - 1 - lp2);
    }
    match punct_split(line, lp2) {
        Some(o) => {
            let mid = seq![line[p]] + seq![' ', '*'];
            lemma_star_count_short(' ', '*');
            lemma_star_count_short(line[p], ' ');
            lemma_star_count_add(seq![line[p]], seq![' ', '*']);
            lemma_star_free_parts(line, 0, p);
            lemma_star_free_parts(line, p + 1, line.len() as int);
            lemma_star_count_add(line.subrange(0, p), mid);
            lemma_star_count_add(line.subrange(0, p) + mid, line.subrange(p + 1, line.len() as int));
            assert(o =~= line.subrange(0, p) + mid + line.subrange(p + 1, line.len() as int));
        },
        None => {
            let c = index_from(line, ',', 0);
            let b = if c < line.len() && line.len() - c - 1 > lp2 { ',' } else { ' ' };
            lemma_breaker_split_one_star(line, line.len() as int, b, lp2);
        },
    }
}

/// Whether a character belongs to a word: neither `*` nor whitespace.
pub open spec fn word_char(c: char) -> bool {
    c != '*' && !is_white(c)
}

/// The word characters of a text, in order.
pub open spec fn word_chars(s: Seq<char>) -> Seq<char>
    decreases s.len(),
{
    if s.len() == 0 {
        Seq::empty()
    } else {
        word_chars(s.drop_last()) + if word_char(s.last()) { seq![s.last()] } else { Seq::empty() }
    }
}

proof fn lemma_word_chars_add(a: Seq<char>, b: Seq<char>)
    ensures
        word_chars(a + b) == word_chars(a) + word_chars(b),
    decreases b.len(),
{
    if b.len() == 0 {
        assert(a + b =~= a);
        assert(word_chars(a) + word_chars(b) =~= word_chars(a));
    } else {
        lemma_word_chars_add(a, b.drop_last());
        assert((a + b).drop_last() =~= a + b.drop_last());
        assert((a + b).last() == b.last());
        assert(word_chars(a + b) =~= word_chars(a) + word_chars(b));
    }
}

proof fn lemma_word_chars_one(c: char)
    ensures
        word_chars(seq![c]) == if word_char(c) { seq![c] } else { Seq::<char>::empty() },
{
    reveal_with_fuel(word_chars, 2);
    assert(seq![c].drop_last() =~= Seq::<char>::empty());
    assert(seq![c].last() == c);
    assert(word_chars(seq![c]) =~= if word_char(c) { seq![c] } else { Seq::<char>::empty() });
}

/// `line` around position `p`: the same words with `line[p]` kept and
/// `extra` (no word characters) put after it.
proof fn lemma_words_split_at(line: Seq<char>, p: int, extra: Seq<char>, tail: Seq<char>)
    requires
        0 <= p < line.len(),
        word_chars(extra) == Seq::<char>::empty(),
        word_chars(tail) == word_chars(line.subrange(p + 1, line.len() as int)),
    ensures
        word_chars(line.subrange(0, p) + seq![line[p]] + extra + tail) == word_chars(line),
{
    lemma_word_chars_add(line.subrange(0, p), seq![line[p]]);
    lemma_word_chars_add(line.subrange(0, p) + seq![line[p]], extra);
    lemma_word_chars_add(line.subrange(0, p) + seq![line[p]] + extra, tail);
    lemma_word_chars_add(line.subrange(0, p), seq![line[p]]);
    lemma_word_chars_add(line.subrange(0, p) + seq![line[p]], line.subrange(p + 1, line.len() as int));
    assert(line.subrange(0, p) + seq![line[p]] + line.subrange(p + 1, line.len() as int) =~= line);
    assert(word_chars(line.subrange(0, p) + seq![line[p]] + extra) =~= word_chars(line.subrange(0, p) + seq![line[p]]));
}

proof fn lemma_lead_space_words(t: Seq<char>)
    ensures
        word_chars(lead_space(t)) == word_chars(t),
{
    if !(t.len() > 0 && t[0] == ' ') {
        lemma_word_chars_add(seq![' '], t);
        lemma_word_chars_one(' ');
        assert(Seq::<char>::empty() + word_chars(t) =~= word_chars(t));
    }
}

proof fn lemma_marks_wordless(a: char, b: char)
    requires
        !word_char(a),
        !word_char(b),
    ensures
        word_chars(seq![a, b]) == Seq::<char>::empty(),
{
    lemma_word_chars_add(seq![a], seq![b]);
    lemma_word_chars_one(a);
    lemma_word_chars_one(b);
    assert(seq![a] + seq![b] =~= seq![a, b]);
}

/// `coalesce_end` lands on its start or on a space.
proof fn lemma_coalesce_end_space(line: Seq<char>, ce: int, lp2: int)
    requires
        0 <= ce < line.len(),
    ensures
        coalesce_end(line, ce, lp2) == ce || line[coalesce_end(line, ce, lp2)] == ' ',
    decreases ce,
{
    if ce > lp2 + 3 {
        let ls = last_before(line, ' ', ce);
        lemma_last_before_bounds(line, ' ', ce);
        if ls >= 0 && ce - ls - 1 < 4 {
            lemma_coalesce_end_space(line, ls, lp2);
        }
    }
}

proof fn lemma_breaker_split_words(line: Seq<char>, k: int, b: char, lp2: int)
    requires
        0 <= k <= line.len(),
        b == ',' || b == ' ',
    ensures
        word_chars(breaker_split(line, k, b, lp2)) == word_chars(line),
    decreases (if b == ',' { 1int } else { 0int }), k,
{
    let i = last_before(line, b, k);
    lemma_last_before_bounds(line, b, k);
    if i < 0 {
        let t = line.subrange(k, line.len() as int);
        lemma_lead_space_words(t);
        lemma_marks_wordless(' ', '*');
        lemma_word_chars_add(line.subrange(0, k), seq![' ', '*']);
        lemma_word_chars_add(line.subrange(0, k) + seq![' ', '*'], lead_space(t));
        lemma_word_chars_add(line.subrange(0, k), t);
        assert(line.subrange(0, k) + t =~= line);
        assert(word_chars(line.subrange(0, k) + seq![' ', '*']) =~= word_chars(line.subrange(0, k)));
    } else if b == ',' && i < lp2 {
        lemma_breaker_split_words(line, line.len() as int, ' ', lp2);
    } else {
        let ce = if b == ' ' { coalesce_end(line, i, lp2) } else { i };
        lemma_coalesce_end_bounds(line, i, lp2);
        if b == ' ' {
            lemma_coalesce_end_space(line, i, lp2);
        }
        assert(line[ce] == b);
        let comb = line.subrange(ce + 1, line.len() as int);
        if comb.len() > lp2 {
            lemma_lead_space_words(comb);
            lemma_word_chars_one('*');
            assert(line.subrange(0, ce) + seq![b, '*'] + lead_space(comb)
                =~= line.subrange(0, ce) + seq![line[ce]] + seq!['*'] + lead_space(comb));
            lemma_words_split_at(line, ce, seq!['*'], lead_space(comb));
        } else {
            lemma_breaker_split_words(line, ce, b, lp2);
        }
    }
}

/// `set_asterisk` keeps every word: the characters other than `*` and
/// whitespace come out as they went in, none lost, added or moved.
pub proof fn lemma_set_asterisk_keeps_words(line0: Seq<char>)
    ensures
        word_chars(asterisked(line0)) == word_chars(line0),
{
    let n0 = trimmed_len(line0, line0.len() as int);
    crate::text::lemma_trimmed_len_bounds(line0, line0.len() as int);
    let line = line0.subrange(0, n0);
    lemma_trailing_white_wordless(line0, line0.len() as int);
    assert(line0.subrange(0, line0.len() as int) =~= line0);
    let lp2 = split_threshold(line.len() as int);
    let p = last_punct_before(line, line.len() - 1 - lp2);
    if line.len() - 1 - lp2 >= 0 {
        lemma_last_punct_bounds(line, line.len() - 1 - lp2);
    }
    let star = index_from(line, '*', 0);
    if star < line.len() && line.len() - star - 1 > 9 {
    } else {
        match punct_split(line, lp2) {
            Some(o) => {
                lemma_marks_wordless(' ', '*');
                lemma_words_split_at(line, p, seq![' ', '*'], line.subrange(p + 1, line.len() as int));
                assert(o =~= line.subrange(0, p) + seq![line[p]] + seq![' ', '*'] + line.subrange(p + 1, line.len() as int));
            },
            None => {
                let c = index_from(line, ',', 0);
                let b = if c < line.len() && line.len() - c - 1 > lp2 { ',' } else { ' ' };
                lemma_breaker_split_words(line, line.len() as int, b, lp2);
            },
        }
    }
}

/// Trailing whitespace holds no word characters.
proof fn lemma_trailing_white_wordless(s: Seq<char>, k: int)
    requires
        0 <= k <= s.len(),
    ensures
        word_chars(s.subrange(0, k)) == word_chars(s.subrange(0, trimmed_len(s, k))),
    decreases k,
{
    if k > 0 && is_white(s[k - 1]) {
        lemma_trailing_white_wordless(s, k - 1);
        assert(s.subrange(0, k).drop_last() =~= s.subrange(0, k - 1));
    }
}

} // verus!
