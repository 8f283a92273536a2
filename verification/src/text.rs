//! Character-level text helpers shared by the calendar and office
//! modules: decimal rendering of integers, conversions between `&str`,
//! `String` and `Vec<char>`, and small sequence predicates used in the
//! contracts (prefix tests, character searches).

use vstd::prelude::*;

verus! {

// ─── Decimal rendering ───────────────────────────────────────────────

/// The ASCII digit for `d` (0..=9).
pub open spec fn digit_char(d: int) -> char {
    if d == 0 { '0' }
    else if d == 1 { '1' }
    else if d == 2 { '2' }
    else if d == 3 { '3' }
    else if d == 4 { '4' }
    else if d == 5 { '5' }
    else if d == 6 { '6' }
    else if d == 7 { '7' }
    else if d == 8 { '8' }
    else { '9' }
}

/// Decimal digits of a natural number, most significant first, no
/// leading zeros (zero itself is `"0"`).
pub open spec fn nat_str(n: nat) -> Seq<char>
    decreases n,
{
    if n < 10 {
        seq![digit_char(n as int)]
    } else {
        nat_str(n / 10).push(digit_char((n % 10) as int))
    }
}

/// Decimal rendering of an integer as `{}` prints it: a leading `-`
/// for negatives.
pub open spec fn int_str(n: int) -> Seq<char> {
    if n < 0 {
        seq!['-'] + nat_str((-n) as nat)
    } else {
        nat_str(n as nat)
    }
}

/// `k` zero characters (none when `k <= 0`).
pub open spec fn zeros(k: int) -> Seq<char> {
    Seq::new(if k > 0 { k as nat } else { 0 }, |i: int| '0')
}

/// Zero-padded rendering as `{:0w}` prints it: the sign comes first and
/// counts towards the width; digits are never truncated.
pub open spec fn pad_int(n: int, w: int) -> Seq<char> {
    if n < 0 {
        seq!['-'] + zeros(w - 1 - nat_str((-n) as nat).len()) + nat_str((-n) as nat)
    } else {
        zeros(w - nat_str(n as nat).len()) + nat_str(n as nat)
    }
}

pub proof fn lemma_nat_str_len_pos(n: nat)
    ensures
        nat_str(n).len() >= 1,
    decreases n,
{
    if n >= 10 {
        lemma_nat_str_len_pos(n / 10);
    }
}

/// Appends one character to a `String`.
#[verifier::external_body]
pub(crate) fn push_char(s: &mut String, c: char)
    ensures
        final(s)@ == old(s)@.push(c),
{
    s.push(c);
}

/// Appends the text of `t` to `s`.
pub(crate) fn push_str(s: &mut String, t: &str)
    ensures
        final(s)@ == old(s)@ + t@,
{
    s.append(t);
}

fn digit_of(d: u64) -> (c: char)
    requires
        d < 10,
    ensures
        c == digit_char(d as int),
{
    if d == 0 { '0' }
    else if d == 1 { '1' }
    else if d == 2 { '2' }
    else if d == 3 { '3' }
    else if d == 4 { '4' }
    else if d == 5 { '5' }
    else if d == 6 { '6' }
    else if d == 7 { '7' }
    else if d == 8 { '8' }
    else { '9' }
}

/// Appends the decimal digits of `n`.
pub fn push_nat(out: &mut String, n: u64)
    ensures
        final(out)@ == old(out)@ + nat_str(n as nat),
    decreases n,
{
    if n < 10 {
        push_char(out, digit_of(n));
        assert(nat_str(n as nat) == seq![digit_char(n as int)]);
    } else {
        push_nat(out, n / 10);
        push_char(out, digit_of(n % 10));
        assert(old(out)@ + nat_str((n / 10) as nat) + seq![digit_char((n % 10) as int)]
            =~= old(out)@ + nat_str(n as nat));
    }
}

/// Appends `k` zero characters.
pub fn push_zeros(out: &mut String, k: i64)
    ensures
        final(out)@ == old(out)@ + zeros(k as int),
{
    let mut i: i64 = 0;
    while i < k
        invariant
            0 <= i,
            i <= k || i == 0,
            out@ == old(out)@ + zeros(i as int),
        decreases k - i,
    {
        push_char(out, '0');
        assert(zeros(i as int).push('0') =~= zeros(i + 1));
        i = i + 1;
    }
    if k <= 0 {
        assert(zeros(k as int) =~= zeros(0));
    }
}

/// Number of decimal digits of `n`.
pub fn nat_len(n: u64) -> (r: u64)
    ensures
        r == nat_str(n as nat).len(),
        1 <= r <= n as int + 1,
    decreases n,
{
    if n < 10 {
        1
    } else {
        let r = nat_len(n / 10);
        r + 1
    }
}

/// Appends `n` as `{}` prints it.
pub fn push_int(out: &mut String, n: i64)
    ensures
        final(out)@ == old(out)@ + int_str(n as int),
{
    if n < 0 {
        push_char(out, '-');
        let m: u64 = if n == i64::MIN { 9223372036854775808u64 } else { (-n) as u64 };
        push_nat(out, m);
        assert(old(out)@.push('-') + nat_str(m as nat) =~= old(out)@ + (seq!['-'] + nat_str(m as nat)));
    } else {
        push_nat(out, n as u64);
    }
}

/// Appends `n` as `{:0w}` prints it.
pub fn push_pad_int(out: &mut String, n: i64, w: i64)
    requires
        -1000 <= w <= 1000,
    ensures
        final(out)@ == old(out)@ + pad_int(n as int, w as int),
{
    if n < 0 {
        let m: u64 = if n == i64::MIN { 9223372036854775808u64 } else { (-n) as u64 };
        push_char(out, '-');
        let l = nat_len(m);
        let k: i64 = if l >= 2000 { 0 } else { w - 1 - (l as i64) };
        push_zeros(out, k);
        assert(zeros(k as int) =~= zeros(w - 1 - l));
        push_nat(out, m);
        assert(old(out)@.push('-') + zeros(w - 1 - l) + nat_str(m as nat)
            =~= old(out)@ + pad_int(n as int, w as int));
    } else {
        let l = nat_len(n as u64);
        let k: i64 = if l >= 2000 { 0 } else { w - (l as i64) };
        push_zeros(out, k);
        assert(zeros(k as int) =~= zeros(w - l));
        push_nat(out, n as u64);
        assert(old(out)@ + zeros(w - l) + nat_str(n as nat)
            =~= old(out)@ + pad_int(n as int, w as int));
    }
}

// ─── Conversions ─────────────────────────────────────────────────────

/// The characters of `s`, in order.
pub fn chars_of(s: &str) -> (v: Vec<char>)
    ensures
        v@ == s@,
{
    let mut v: Vec<char> = Vec::new();
    for c in it: s.chars()
        invariant
            v@ == it.seq().take(it.index() as int),
    {
        v.push(c);
    }
    v
}

/// Appends the characters `v[lo..hi]` to `out`.
pub fn push_chars(out: &mut String, v: &[char], lo: usize, hi: usize)
    requires
        lo <= hi <= v@.len(),
    ensures
        final(out)@ == old(out)@ + v@.subrange(lo as int, hi as int),
{
    let mut i = lo;
    while i < hi
        invariant
            lo <= i <= hi <= v@.len(),
            out@ == old(out)@ + v@.subrange(lo as int, i as int),
        decreases hi - i,
    {
        push_char(out, v[i]);
        assert(v@.subrange(lo as int, i as int).push(v@[i as int])
            =~= v@.subrange(lo as int, i + 1));
        i = i + 1;
    }
}

/// A `String` holding exactly the characters `v[lo..hi]`.
pub fn string_of(v: &[char], lo: usize, hi: usize) -> (s: String)
    requires
        lo <= hi <= v@.len(),
    ensures
        s@ == v@.subrange(lo as int, hi as int),
{
    let mut s = String::new();
    push_chars(&mut s, v, lo, hi);
    assert(Seq::<char>::empty() + v@.subrange(lo as int, hi as int) =~= v@.subrange(lo as int, hi as int));
    s
}

/// A `String` holding exactly the characters of `v`.
pub fn string_from(v: &[char]) -> (s: String)
    ensures
        s@ == v@,
{
    let s = string_of(v, 0, v.len());
    assert(v@.subrange(0, v@.len() as int) =~= v@);
    s
}

/// A copy of `s` as an owned `String`.
pub fn owned(s: &str) -> (r: String)
    ensures
        r@ == s@,
{
    let v = chars_of(s);
    string_from(&v)
}

// ─── Sequence predicates ─────────────────────────────────────────────

/// `p` is a prefix of `s`.
pub open spec fn has_prefix(s: Seq<char>, p: Seq<char>) -> bool {
    p.len() <= s.len() && s.subrange(0, p.len() as int) == p
}

/// Whether `s` ends with `p`.
pub open spec fn has_suffix(s: Seq<char>, p: Seq<char>) -> bool {
    p.len() <= s.len() && s.subrange(s.len() - p.len(), s.len() as int) == p
}

/// `p` occurs in `s` starting at position `i`.
pub open spec fn occurs_at(s: Seq<char>, p: Seq<char>, i: int) -> bool {
    0 <= i && i + p.len() <= s.len() && s.subrange(i, i + p.len()) == p
}

/// `p` occurs somewhere in `s`.
pub open spec fn contains_seq(s: Seq<char>, p: Seq<char>) -> bool {
    exists|i: int| occurs_at(s, p, i)
}

/// Whether `s[i..]` starts with `p`.
pub fn matches_at(s: &[char], i: usize, p: &[char]) -> (r: bool)
    ensures
        r == occurs_at(s@, p@, i as int),
{
    if i > s.len() || p.len() > s.len() - i {
        return false;
    }
    let mut k: usize = 0;
    while k < p.len()
        invariant
            i + p.len() <= s.len(),
            k <= p@.len(),
            forall|j: int| 0 <= j < k ==> s@[i + j] == p@[j],
        decreases p.len() - k,
    {
        if s[i + k] != p[k] {
            assert(s@.subrange(i as int, i + p@.len())[k as int] != p@[k as int]);
            return false;
        }
        k = k + 1;
    }
    assert(s@.subrange(i as int, i + p@.len()) =~= p@);
    true
}

/// Whether `s` starts with `p`.
pub fn starts_with(s: &[char], p: &[char]) -> (r: bool)
    ensures
        r == has_prefix(s@, p@),
{
    matches_at(s, 0, p)
}

/// Whether `s` starts with the text `p`.
pub fn starts_with_str(s: &[char], p: &str) -> (r: bool)
    ensures
        r == has_prefix(s@, p@),
{
    let pv = chars_of(p);
    matches_at(s, 0, &pv)
}

/// Whether `s` is exactly `t`.
pub fn seq_eq(s: &[char], t: &[char]) -> (r: bool)
    ensures
        r == (s@ == t@),
{
    if s.len() != t.len() {
        return false;
    }
    let r = matches_at(s, 0, t);
    if r {
        assert(s@.subrange(0, t@.len() as int) =~= s@);
    } else {
        assert(s@.subrange(0, t@.len() as int) =~= s@);
    }
    r
}

/// Whether `s` is exactly the text `t`.
pub fn eq_str(s: &[char], t: &str) -> (r: bool)
    ensures
        r == (s@ == t@),
{
    let tv = chars_of(t);
    seq_eq(s, &tv)
}

/// Whether `s` ends with the text of `p`.
pub fn ends_with_str(s: &[char], p: &str) -> (r: bool)
    ensures
        r == has_suffix(s@, p@),
{
    let pv = chars_of(p);
    if pv.len() > s.len() {
        return false;
    }
    let r = matches_at(s, s.len() - pv.len(), &pv);
    assert(r == (s@.subrange(s@.len() - pv@.len(), s@.len() as int) == pv@));
    r
}

/// Whether the texts `a` and `b` are equal.
pub fn same_text(a: &str, b: &str) -> (r: bool)
    ensures
        r == (a@ == b@),
{
    let av = chars_of(a);
    eq_str(&av, b)
}

/// Whether the text `p` occurs in `s`.
pub fn contains_str(s: &[char], p: &str) -> (r: bool)
    ensures
        r == contains_seq(s@, p@),
{
    let pv = chars_of(p);
    if pv.len() == 0 {
        assert(s@.subrange(0, 0) =~= p@);
        assert(occurs_at(s@, p@, 0));
        return true;
    }
    let mut i: usize = 0;
    while i < s.len()
        invariant
            pv@ == p@,
            p@.len() > 0,
            i <= s@.len(),
            forall|j: int| 0 <= j < i ==> !occurs_at(s@, p@, j),
        decreases s.len() - i,
    {
        if matches_at(s, i, &pv) {
            return true;
        }
        i = i + 1;
    }
    assert forall|j: int| !occurs_at(s@, p@, j) by {
        if 0 <= j && j <= s@.len() {
        }
    }
    false
}

/// Exec search for the first `c` in `s`.
pub fn find_char(s: &[char], c: char) -> (r: Option<usize>)
    ensures
        match r {
            Some(i) => i < s@.len() && s@[i as int] == c && forall|j: int| 0 <= j < i ==> s@[j] != c,
            None => forall|j: int| 0 <= j < s@.len() ==> s@[j] != c,
        },
{
    let mut i: usize = 0;
    while i < s.len()
        invariant
            i <= s@.len(),
            forall|j: int| 0 <= j < i ==> s@[j] != c,
        decreases s.len() - i,
    {
        if s[i] == c {
            return Some(i);
        }
        i = i + 1;
    }
    None
}

/// Index of the first `c` at or after `from`, or `s.len()` when none.
pub open spec fn index_from(s: Seq<char>, c: char, from: int) -> int
    decreases s.len() - from,
{
    if from >= s.len() {
        s.len() as int
    } else if s[from] == c {
        from
    } else {
        index_from(s, c, from + 1)
    }
}

/// The search never leaves `from..=s.len()`.
pub proof fn lemma_index_from_bounds(s: Seq<char>, c: char, from: int)
    requires
        0 <= from <= s.len(),
    ensures
        from <= index_from(s, c, from) <= s.len(),
    decreases s.len() - from,
{
    if from < s.len() && s[from] != c {
        lemma_index_from_bounds(s, c, from + 1);
    }
}

/// `index_from` stops at the first `c`: none lies in `from..result`.
pub proof fn lemma_index_from_first(s: Seq<char>, c: char, from: int)
    requires
        0 <= from <= s.len(),
    ensures
        forall|k: int| from <= k < index_from(s, c, from) ==> s[k] != c,
        index_from(s, c, from) < s.len() ==> s[index_from(s, c, from)] == c,
    decreases s.len() - from,
{
    if from < s.len() && s[from] != c {
        lemma_index_from_first(s, c, from + 1);
    }
}

/// Position of the first `c` in `v` at or after `from` (`v.len()` when
/// there is none).
pub fn index_from_exec(v: &[char], c: char, from: usize) -> (r: usize)
    requires
        from <= v@.len(),
    ensures
        r == index_from(v@, c, from as int),
        from <= r <= v@.len(),
        r < v@.len() ==> v@[r as int] == c,
{
    let mut i = from;
    while i < v.len() && v[i] != c
        invariant
            from <= i <= v@.len(),
            index_from(v@, c, i as int) == index_from(v@, c, from as int),
        decreases v.len() - i,
    {
        i = i + 1;
    }
    i
}


// ─── Trimming and lines ──────────────────────────────────────────────

/// The first position in `from..k` that is not whitespace (`k` when
/// there is none).
pub open spec fn skip_white(s: Seq<char>, from: int, k: int) -> int
    decreases k - from,
{
    if from < k && is_white(s[from]) { skip_white(s, from + 1, k) } else { from }
}

/// `s` with leading and trailing whitespace removed (`str::trim`).
pub open spec fn trim_text(s: Seq<char>) -> Seq<char> {
    let e = trimmed_len(s, s.len() as int);
    s.subrange(skip_white(s, 0, e), e)
}

/// `s` with trailing whitespace removed (`str::trim_end`).
pub open spec fn trim_end_text(s: Seq<char>) -> Seq<char> {
    s.subrange(0, trimmed_len(s, s.len() as int))
}

pub proof fn lemma_trimmed_len_bounds(s: Seq<char>, k: int)
    requires
        0 <= k,
    ensures
        0 <= trimmed_len(s, k) <= k,
    decreases k,
{
    if k > 0 && is_white(s[k - 1]) {
        lemma_trimmed_len_bounds(s, k - 1);
    }
}

pub proof fn lemma_skip_white_bounds(s: Seq<char>, from: int, k: int)
    requires
        from <= k,
    ensures
        from <= skip_white(s, from, k) <= k,
    decreases k - from,
{
    if from < k && is_white(s[from]) {
        lemma_skip_white_bounds(s, from + 1, k);
    }
}

/// `v[lo..hi]` as a new vector.
pub fn subvec(v: &[char], lo: usize, hi: usize) -> (r: Vec<char>)
    requires
        lo <= hi <= v@.len(),
    ensures
        r@ == v@.subrange(lo as int, hi as int),
{
    let mut r: Vec<char> = Vec::new();
    let mut i = lo;
    while i < hi
        invariant
            lo <= i <= hi <= v@.len(),
            r@ == v@.subrange(lo as int, i as int),
        decreases hi - i,
    {
        r.push(v[i]);
        i = i + 1;
        assert(r@ =~= v@.subrange(lo as int, i as int));
    }
    r
}

/// `trim_text(v)`, as a new vector.
pub fn trim_chars(v: &[char]) -> (r: Vec<char>)
    ensures
        r@ == trim_text(v@),
{
    let mut e = v.len();
    while e > 0 && is_white_char(v[e - 1])
        invariant
            e <= v@.len(),
            trimmed_len(v@, e as int) == trimmed_len(v@, v@.len() as int),
        decreases e,
    {
        e = e - 1;
    }
    let mut b: usize = 0;
    while b < e && is_white_char(v[b])
        invariant
            b <= e <= v@.len(),
            e == trimmed_len(v@, v@.len() as int),
            skip_white(v@, b as int, e as int) == skip_white(v@, 0, e as int),
        decreases e - b,
    {
        b = b + 1;
    }
    subvec(v, b, e)
}

/// `trim_end_text(v)`, as a new vector.
pub fn trim_end_chars(v: &[char]) -> (r: Vec<char>)
    ensures
        r@ == trim_end_text(v@),
{
    let mut e = v.len();
    while e > 0 && is_white_char(v[e - 1])
        invariant
            e <= v@.len(),
            trimmed_len(v@, e as int) == trimmed_len(v@, v@.len() as int),
        decreases e,
    {
        e = e - 1;
    }
    subvec(v, 0, e)
}

/// The pieces of `s` between the separators `c` (`str::split(c)`):
/// one more piece than there are separators, empty pieces included.
pub open spec fn split_on(s: Seq<char>, c: char) -> Seq<Seq<char>>
    decreases s.len(),
{
    let i = index_from(s, c, 0);
    if i >= s.len() {
        seq![s]
    } else {
        proof { lemma_index_from_bounds(s, c, 0); }
        seq![s.subrange(0, i)] + split_on(s.subrange(i + 1, s.len() as int), c)
    }
}

/// Searching a suffix is searching the whole from the suffix's start.
pub proof fn lemma_index_from_suffix(s: Seq<char>, c: char, start: int, k: int)
    requires
        0 <= start <= s.len(),
        0 <= k <= s.len() - start,
    ensures
        index_from(s.subrange(start, s.len() as int), c, k) == index_from(s, c, start + k) - start,
    decreases s.len() - start - k,
{
    if start + k < s.len() && s[start + k] != c {
        lemma_index_from_suffix(s, c, start, k + 1);
    }
}

/// Splitting the suffix `s[start..]` peels off the piece up to the next
/// separator.
pub proof fn lemma_split_on_step(s: Seq<char>, c: char, start: int)
    requires
        0 <= start <= s.len(),
    ensures
        ({
            let end = index_from(s, c, start);
            &&& start <= end <= s.len()
            &&& end < s.len() ==> split_on(s.subrange(start, s.len() as int), c)
                == seq![s.subrange(start, end)] + split_on(s.subrange(end + 1, s.len() as int), c)
            &&& end >= s.len() ==> split_on(s.subrange(start, s.len() as int), c)
                == seq![s.subrange(start, s.len() as int)]
        }),
{
    let t = s.subrange(start, s.len() as int);
    lemma_index_from_suffix(s, c, start, 0);
    lemma_index_from_bounds(s, c, start);
    let end = index_from(s, c, start);
    if end < s.len() {
        assert(t.subrange(0, end - start) =~= s.subrange(start, end));
        assert(t.subrange(end - start + 1, t.len() as int) =~= s.subrange(end + 1, s.len() as int));
    }
}


/// The pieces of `v` between the separators `c`, as vectors.
pub fn split_chars(v: &[char], c: char) -> (r: Vec<Vec<char>>)
    ensures
        r@.map_values(|x: Vec<char>| x@) == split_on(v@, c),
{
    let mut out: Vec<Vec<char>> = Vec::new();
    let mut start: usize = 0;
    assert(v@.subrange(0, v@.len() as int) =~= v@);
    loop
        invariant
            start <= v@.len(),
            out@.map_values(|x: Vec<char>| x@) + split_on(v@.subrange(start as int, v@.len() as int), c)
                == split_on(v@, c),
        decreases v@.len() - start,
    {
        let end = index_from_exec(v, c, start);
        proof { lemma_split_on_step(v@, c, start as int); }
        let piece = subvec(v, start, end);
        let ghost before = out@.map_values(|x: Vec<char>| x@);
        out.push(piece);
        assert(out@.map_values(|x: Vec<char>| x@) =~= before.push(v@.subrange(start as int, end as int)));
        if end == v.len() {
            assert(out@.map_values(|x: Vec<char>| x@) =~= before + split_on(v@.subrange(start as int, v@.len() as int), c));
            return out;
        }
        assert(before + split_on(v@.subrange(start as int, v@.len() as int), c)
            =~= out@.map_values(|x: Vec<char>| x@) + split_on(v@.subrange(end + 1, v@.len() as int), c));
        start = end + 1;
    }
}


// ─── ASCII classes, case folding, replacement ────────────────────────

pub open spec fn is_ascii_digit(c: char) -> bool {
    '0' <= c && c <= '9'
}

pub open spec fn is_ascii_lower(c: char) -> bool {
    'a' <= c && c <= 'z'
}

pub open spec fn is_ascii_upper(c: char) -> bool {
    'A' <= c && c <= 'Z'
}

pub open spec fn is_ascii_alpha(c: char) -> bool {
    is_ascii_lower(c) || is_ascii_upper(c)
}

pub open spec fn is_ascii_alnum(c: char) -> bool {
    is_ascii_alpha(c) || is_ascii_digit(c)
}

/// `c` with an ASCII capital turned into its small letter.
pub open spec fn lower_char(c: char) -> char {
    if is_ascii_upper(c) { ((c as u32) + 32) as char } else { c }
}

/// `s` with ASCII capitals lowered (`str::to_ascii_lowercase`).
pub open spec fn ascii_lower(s: Seq<char>) -> Seq<char> {
    s.map_values(|c: char| lower_char(c))
}

pub fn lower_char_exec(c: char) -> (r: char)
    ensures
        r == lower_char(c),
{
    if 'A' <= c && c <= 'Z' {
        let b = c as u8;
        let l = b + 32;
        let r = l as char;
        assert(r == lower_char(c)) by {
            assert((c as u32) + 32 == l as u32);
        }
        r
    } else {
        c
    }
}

/// `ascii_lower(v)`, as a new vector.
pub fn ascii_lower_chars(v: &[char]) -> (r: Vec<char>)
    ensures
        r@ == ascii_lower(v@),
{
    let mut r: Vec<char> = Vec::new();
    let mut i: usize = 0;
    while i < v.len()
        invariant
            i <= v@.len(),
            r@ == ascii_lower(v@.subrange(0, i as int)),
        decreases v.len() - i,
    {
        r.push(lower_char_exec(v[i]));
        i = i + 1;
        assert(r@ =~= ascii_lower(v@.subrange(0, i as int)));
    }
    assert(v@.subrange(0, v@.len() as int) =~= v@);
    r
}

/// `s[i..]` with every non-overlapping occurrence of `p` (scanning left
/// to right) replaced by `r`, as `str::replace` does for a non-empty
/// pattern.
pub open spec fn replace_from(s: Seq<char>, p: Seq<char>, r: Seq<char>, i: int) -> Seq<char>
    decreases s.len() - i,
{
    if i < 0 || i >= s.len() || p.len() == 0 {
        if 0 <= i <= s.len() { s.subrange(i, s.len() as int) } else { Seq::empty() }
    } else if occurs_at(s, p, i) {
        r + replace_from(s, p, r, i + p.len())
    } else {
        seq![s[i]] + replace_from(s, p, r, i + 1)
    }
}

/// `s` with every occurrence of `p` replaced by `r`.
pub open spec fn replace_text(s: Seq<char>, p: Seq<char>, r: Seq<char>) -> Seq<char> {
    replace_from(s, p, r, 0)
}

/// `replace_text(v, p, r)`, as a `String`.
pub fn replace_chars(v: &[char], p: &str, r: &str) -> (out: String)
    requires
        p@.len() > 0,
    ensures
        out@ == replace_text(v@, p@, r@),
{
    let pv = chars_of(p);
    let mut out = String::new();
    let mut i: usize = 0;
    while i < v.len()
        invariant
            i <= v@.len(),
            pv@ == p@,
            p@.len() > 0,
            out@ + replace_from(v@, p@, r@, i as int) == replace_from(v@, p@, r@, 0),
        decreases v.len() - i,
    {
        let ghost prev = out@;
        if matches_at(v, i, &pv) {
            push_str(&mut out, r);
            assert(prev + replace_from(v@, p@, r@, i as int)
                =~= out@ + replace_from(v@, p@, r@, i + p@.len()));
            i = i + pv.len();
        } else {
            push_char(&mut out, v[i]);
            assert(prev + replace_from(v@, p@, r@, i as int)
                =~= out@ + replace_from(v@, p@, r@, i + 1));
            i = i + 1;
        }
    }
    assert(out@ + replace_from(v@, p@, r@, i as int) =~= out@);
    out
}


// ─── Whitespace, trimming and searching from the right ───────────────

/// The characters Rust's `char::is_whitespace` accepts (Unicode
/// `White_Space`).
pub open spec fn is_white(c: char) -> bool {
    ('\u{9}' <= c && c <= '\u{d}') || c == ' ' || c == '\u{85}' || c == '\u{a0}'
        || c == '\u{1680}' || ('\u{2000}' <= c && c <= '\u{200a}') || c == '\u{2028}'
        || c == '\u{2029}' || c == '\u{202f}' || c == '\u{205f}' || c == '\u{3000}'
}

pub fn is_white_char(c: char) -> (r: bool)
    ensures
        r == is_white(c),
{
    ('\u{9}' <= c && c <= '\u{d}') || c == ' ' || c == '\u{85}' || c == '\u{a0}'
        || c == '\u{1680}' || ('\u{2000}' <= c && c <= '\u{200a}') || c == '\u{2028}'
        || c == '\u{2029}' || c == '\u{202f}' || c == '\u{205f}' || c == '\u{3000}'
}

/// Length of `s[..k]` once trailing whitespace is trimmed.
pub open spec fn trimmed_len(s: Seq<char>, k: int) -> int
    decreases k,
{
    if k > 0 && is_white(s[k - 1]) { trimmed_len(s, k - 1) } else { k }
}

/// Index of the last `c` in `s[..k]`, or -1.
pub open spec fn last_before(s: Seq<char>, c: char, k: int) -> int
    decreases k,
{
    if k <= 0 { -1 } else if s[k - 1] == c { k - 1 } else { last_before(s, c, k - 1) }
}

pub proof fn lemma_last_before_bounds(s: Seq<char>, c: char, k: int)
    requires
        0 <= k,
    ensures
        -1 <= last_before(s, c, k) < k,
        k <= s.len() && last_before(s, c, k) >= 0 ==> s[last_before(s, c, k)] == c,
    decreases k,
{
    if k > 0 && s[k - 1] != c {
        lemma_last_before_bounds(s, c, k - 1);
    }
}

/// Exec `last_before`.
pub fn last_before_exec(v: &[char], c: char, k: usize) -> (r: Option<usize>)
    requires
        k <= v@.len(),
    ensures
        match r {
            Some(i) => i as int == last_before(v@, c, k as int) && i < k,
            None => last_before(v@, c, k as int) == -1,
        },
{
    let mut j = k;
    while j > 0
        invariant
            j <= k <= v@.len(),
            last_before(v@, c, j as int) == last_before(v@, c, k as int),
        decreases j,
    {
        if v[j - 1] == c {
            return Some(j - 1);
        }
        j = j - 1;
    }
    None
}

} // verus!
