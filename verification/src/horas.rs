//! The Breviary corpus and the text helpers of the hour renderer.
//!
//! A [`HorasCorpus`] maps file keys (`Tempora/Pasc1-0`, `Sancti/05-02`,
//! `Commune/C4-1`, `Ordinarium/Vespera`, `Psalterium/Common/Prayers`, …)
//! to Breviary files; a [`PsalmCorpus`] maps psalm stems (`Psalm1`,
//! `Psalm17a`, …) to psalm texts. The helpers read `[Rule]` bodies,
//! choose section names for the template's slots, substitute the
//! saint's name, apply the Office spelling, and expand `$macro` lines
//! against the Prayers file.

use vstd::prelude::*;
use vstd::hash_map::StringHashMap;
use crate::data_types::{HorasFile, OrdoLine, PsalmFile};
use crate::core_types::Rubric;
use crate::text::{
    is_ascii_alnum, replace_chars, replace_text,
    is_ascii_lower, is_white_char, skip_white,
    contains_seq,
    ascii_lower, ascii_lower_chars, occurs_at, trim_end_text,
    is_ascii_alpha, is_ascii_digit,
    chars_of, eq_str, has_prefix, index_from, index_from_exec, is_white, last_before,
    last_before_exec, lemma_index_from_bounds, lemma_last_before_bounds, push_char, push_chars,
    push_str, same_text, split_chars, split_on, starts_with_str, string_from, string_of, subvec,
    trim_chars, trim_text, owned,
};

verus! {

// ─── Corpus ──────────────────────────────────────────────────────────

/// The Breviary corpus: file key → file.
pub struct HorasCorpus {
    pub files: StringHashMap<HorasFile>,
}

/// The psalter: psalm stem → psalm file.
pub struct PsalmCorpus {
    pub psalms: StringHashMap<PsalmFile>,
}

impl HorasCorpus {
    pub fn new() -> (r: Self)
        ensures
            r.files@ == Map::<Seq<char>, HorasFile>::empty(),
    {
        HorasCorpus { files: StringHashMap::new() }
    }

    /// Adds (or replaces) the file under `key`.
    pub fn insert(&mut self, key: String, file: HorasFile)
        ensures
            final(self).files@ == old(self).files@.insert(key@, file),
    {
        self.files.insert(key, file);
    }
}

impl PsalmCorpus {
    pub fn new() -> (r: Self)
        ensures
            r.psalms@ == Map::<Seq<char>, PsalmFile>::empty(),
    {
        PsalmCorpus { psalms: StringHashMap::new() }
    }

    /// Adds (or replaces) the psalm under `stem`.
    pub fn insert(&mut self, stem: String, psalm: PsalmFile)
        ensures
            final(self).psalms@ == old(self).psalms@.insert(stem@, psalm),
    {
        self.psalms.insert(stem, psalm);
    }
}

/// The Epiphany-cycle file a resumed post-Pentecost key reads:
/// `Tempora/PentEpi5-5` → `Tempora/Epi5-5`.
pub open spec fn pent_epi_alias(key: Seq<char>) -> Seq<char> {
    "Tempora/Epi"@ + key.subrange("Tempora/PentEpi"@.len() as int, key.len() as int)
}

/// The key a lookup of `key` resolves to: `key` itself when the corpus
/// has it, else for a `Tempora/PentEpi…` key its Epiphany-cycle file.
pub open spec fn corpus_key(files: Map<Seq<char>, HorasFile>, key: Seq<char>) -> Option<Seq<char>> {
    if files.contains_key(key) {
        Some(key)
    } else if has_prefix(key, "Tempora/PentEpi"@) && files.contains_key(pent_epi_alias(key)) {
        Some(pent_epi_alias(key))
    } else {
        None
    }
}

/// Looks up a Breviary file by key. The resumed post-Pentecost
/// Epiphany-cycle keys (`Tempora/PentEpi5-5`, …), which have no file of
/// their own, read the Epiphany-cycle file (`Tempora/Epi5-5`).
pub fn lookup<'a>(corpus: &'a HorasCorpus, key: &str) -> (r: Option<&'a HorasFile>)
    ensures
        match r {
            Some(f) => corpus_key(corpus.files@, key@) is Some
                && *f == corpus.files@[corpus_key(corpus.files@, key@)->0],
            None => corpus_key(corpus.files@, key@) is None,
        },
{
    match corpus.files.get(key) {
        Some(f) => {
            return Some(f);
        },
        None => {},
    }
    let v = chars_of(key);
    let prefix = "Tempora/PentEpi";
    let pv = chars_of(prefix);
    if starts_with_str(&v, prefix) {
        let mut k = String::new();
        push_str(&mut k, "Tempora/Epi");
        push_chars(&mut k, &v, pv.len(), v.len());
        assert(k@ =~= pent_epi_alias(key@));
        return corpus.files.get(k.as_str());
    }
    None
}

/// The prefix of a rubric-tagged variant of section `name`:
/// `name` followed by ` (`.
pub open spec fn tagged_prefix(name: Seq<char>) -> Seq<char> {
    name + seq![' ', '(']
}

/// A section body of a file. The section named exactly `name` comes
/// first; failing that, a rubric-tagged variant
/// (`Hymnus Vespera (sed rubrica monastica)` for `Hymnus Vespera`), the
/// first such name in the file's section order.
pub fn section<'a>(file: &'a HorasFile, name: &str) -> (r: Option<&'a str>)
    ensures
        match r {
            Some(b) => if file.sections@.contains_key(name@) {
                b@ == file.sections@[name@]@
            } else {
                exists|k: Seq<char>| has_prefix(k, tagged_prefix(name@)) && #[trigger] file.sections@.contains_key(k)
                    && b@ == file.sections@[k]@
            },
            None => !file.sections@.contains_key(name@)
                && (file.names_listed() ==> forall|k: Seq<char>| #[trigger] file.sections@.contains_key(k)
                    ==> !has_prefix(k, tagged_prefix(name@))),
        },
{
    match file.sections.get(name) {
        Some(b) => {
            return Some(b.as_str());
        },
        None => {},
    }
    let mut pv = chars_of(name);
    pv.push(' ');
    pv.push('(');
    assert(pv@ =~= tagged_prefix(name@));
    let mut i: usize = 0;
    while i < file.section_names.len()
        invariant
            i <= file.section_names@.len(),
            pv@ == tagged_prefix(name@),
            !file.sections@.contains_key(name@),
            forall|j: int| 0 <= j < i ==> !has_prefix(#[trigger] file.section_names@[j]@, tagged_prefix(name@))
                || !file.sections@.contains_key(file.section_names@[j]@),
        decreases file.section_names.len() - i,
    {
        let n = file.section_names[i].as_str();
        let nv = chars_of(n);
        if crate::text::matches_at(&nv, 0, &pv) {
            assert(nv@.subrange(0, pv@.len() as int) =~= pv@);
            match file.sections.get(n) {
                Some(b) => {
                    return Some(b.as_str());
                },
                None => {},
            }
        } else {
            assert(!has_prefix(nv@, pv@));
        }
        i = i + 1;
    }
    proof {
        if file.names_listed() {
            assert forall|k: Seq<char>| #[trigger] file.sections@.contains_key(k)
                implies !has_prefix(k, tagged_prefix(name@)) by {
                let j = choose|j: int| 0 <= j < file.section_names@.len() && file.section_names@[j]@ == k;
                assert(!has_prefix(file.section_names@[j]@, tagged_prefix(name@))
                    || !file.sections@.contains_key(file.section_names@[j]@));
            }
        }
    }
    None
}

/// The text of a psalm: the Bea revision when it is asked for and the
/// psalm has one, the Vulgate otherwise.
pub open spec fn psalm_text(p: PsalmFile, bea: bool) -> Seq<char> {
    if bea && p.latin_bea@.len() > 0 { p.latin_bea@ } else { p.latin@ }
}

/// A psalm body by stem (`Psalm1` … `Psalm150`, split forms such as
/// `Psalm17a`).
pub fn psalm<'a>(psalms: &'a PsalmCorpus, stem: &str, bea: bool) -> (r: Option<&'a str>)
    ensures
        match r {
            Some(b) => psalms.psalms@.contains_key(stem@) && b@ == psalm_text(psalms.psalms@[stem@], bea),
            None => !psalms.psalms@.contains_key(stem@),
        },
{
    match psalms.psalms.get(stem) {
        Some(entry) => {
            if bea && !entry.latin_bea.as_str().is_empty() {
                Some(entry.latin_bea.as_str())
            } else {
                Some(entry.latin.as_str())
            }
        },
        None => None,
    }
}

// ─── Hours ───────────────────────────────────────────────────────────

pub const HOUR_MATUTINUM: &'static str = "Matutinum";
pub const HOUR_LAUDES: &'static str = "Laudes";
pub const HOUR_PRIMA: &'static str = "Prima";
pub const HOUR_TERTIA: &'static str = "Tertia";
pub const HOUR_SEXTA: &'static str = "Sexta";
pub const HOUR_NONA: &'static str = "Nona";
pub const HOUR_VESPERA: &'static str = "Vespera";
pub const HOUR_COMPLETORIUM: &'static str = "Completorium";

/// Tertia, Sexta and Nona.
pub open spec fn is_minor_hour(h: Seq<char>) -> bool {
    h == "Tertia"@ || h == "Sexta"@ || h == "Nona"@
}

/// The Ordinarium template of an hour name: `Minor` for Tertia, Sexta
/// and Nona, the name itself otherwise.
pub fn ordinarium_file_for_hour<'a>(hour: &'a str) -> (r: &'a str)
    ensures
        r@ == (if is_minor_hour(hour@) { "Minor"@ } else { hour@ }),
{
    if same_text(hour, "Tertia") || same_text(hour, "Sexta") || same_text(hour, "Nona") {
        "Minor"
    } else {
        hour
    }
}

/// Inputs of the hour walker: the date, the rubric, the Ordinarium hour
/// stem, the rubric-notes toggle, and the resolved day key (`None` for
/// the bare Ordinarium).
#[derive(Debug, Clone)]
pub struct OfficeArgs<'a> {
    pub year: i32,
    pub month: u32,
    pub day: u32,
    pub rubric: Rubric,
    pub hour: &'a str,
    pub rubrics: bool,
    pub day_key: Option<&'a str>,
}


// ─── Tempora keys ────────────────────────────────────────────────────

/// Whether every character of `s[lo..hi]` satisfies being an ASCII digit.
pub open spec fn all_digits_in(s: Seq<char>, lo: int, hi: int) -> bool {
    forall|i: int| lo <= i < hi ==> is_ascii_digit(#[trigger] s[i])
}

/// Whether every character of `s[lo..hi]` is an ASCII letter.
pub open spec fn all_alpha_in(s: Seq<char>, lo: int, hi: int) -> bool {
    forall|i: int| lo <= i < hi ==> is_ascii_alpha(#[trigger] s[i])
}

/// Length of `s[..k]` once trailing ASCII letters are removed.
pub open spec fn trim_alpha_len(s: Seq<char>, k: int) -> int
    decreases k,
{
    if k > 0 && is_ascii_alpha(s[k - 1]) { trim_alpha_len(s, k - 1) } else { k }
}

/// The week-Sunday a Tempora ferial or Sunday variant falls back to:
/// `Tempora/Epi3-4` → `Tempora/Epi3-0`, `Tempora/Epi4-0tt` →
/// `Tempora/Epi4-0`, `Tempora/Pasc2-5Feria` → `Tempora/Pasc2-0`. The
/// part after the last `-` must be digits followed by letters only;
/// `None` for a bare Sunday (`-0`) and for non-Tempora keys.
pub open spec fn sunday_fallback(key: Seq<char>) -> Option<Seq<char>> {
    let p = "Tempora/"@;
    if !has_prefix(key, p) {
        None
    } else {
        let stem = key.subrange(p.len() as int, key.len() as int);
        let dash = last_before(stem, '-', stem.len() as int);
        if dash < 0 {
            None
        } else {
            let after = stem.subrange(dash + 1, stem.len() as int);
            let k = trim_alpha_len(after, after.len() as int);
            if k == 0 || !all_digits_in(after, 0, k) || after == "0"@ {
                None
            } else {
                Some(p + stem.subrange(0, dash) + "-0"@)
            }
        }
    }
}

fn all_digits_exec(v: &[char], lo: usize, hi: usize) -> (r: bool)
    requires
        lo <= hi <= v@.len(),
    ensures
        r == all_digits_in(v@, lo as int, hi as int),
{
    let mut i = lo;
    while i < hi
        invariant
            lo <= i <= hi <= v@.len(),
            all_digits_in(v@, lo as int, i as int),
        decreases hi - i,
    {
        if !('0' <= v[i] && v[i] <= '9') {
            return false;
        }
        i = i + 1;
    }
    true
}

fn all_alpha_exec(v: &[char], lo: usize, hi: usize) -> (r: bool)
    requires
        lo <= hi <= v@.len(),
    ensures
        r == all_alpha_in(v@, lo as int, hi as int),
{
    let mut i = lo;
    while i < hi
        invariant
            lo <= i <= hi <= v@.len(),
            all_alpha_in(v@, lo as int, i as int),
        decreases hi - i,
    {
        let c = v[i];
        if !(('a' <= c && c <= 'z') || ('A' <= c && c <= 'Z')) {
            return false;
        }
        i = i + 1;
    }
    true
}

/// Maps a Tempora ferial or Sunday-variant key to its week's Sunday.
pub fn tempora_sunday_fallback(day_key: &str) -> (r: Option<String>)
    ensures
        match r {
            Some(s) => sunday_fallback(day_key@) == Some(s@),
            None => sunday_fallback(day_key@) is None,
        },
{
    let v = chars_of(day_key);
    let p = "Tempora/";
    let pv = chars_of(p);
    if !starts_with_str(&v, p) {
        return None;
    }
    let stem = subvec(&v, pv.len(), v.len());
    let dash = match last_before_exec(&stem, '-', stem.len()) {
        Some(d) => d,
        None => {
            return None;
        },
    };
    let after = subvec(&stem, dash + 1, stem.len());
    let mut k = after.len();
    while k > 0 && (('a' <= after[k - 1] && after[k - 1] <= 'z') || ('A' <= after[k - 1] && after[k - 1] <= 'Z'))
        invariant
            k <= after@.len(),
            trim_alpha_len(after@, k as int) == trim_alpha_len(after@, after@.len() as int),
        decreases k,
    {
        k = k - 1;
    }
    if k == 0 || !all_digits_exec(&after, 0, k) || eq_str(&after, "0") {
        return None;
    }
    let mut out = String::new();
    push_str(&mut out, p);
    push_chars(&mut out, &stem, 0, dash);
    push_str(&mut out, "-0");
    assert(out@ =~= "Tempora/"@ + stem@.subrange(0, dash as int) + "-0"@);
    Some(out)
}

/// The week-Sunday key `Tempora/{week}-0` of a key `Tempora/{week}-…`.
pub open spec fn week_sunday_key(key: Seq<char>) -> Option<Seq<char>> {
    let p = "Tempora/"@;
    if !has_prefix(key, p) {
        None
    } else {
        let rest = key.subrange(p.len() as int, key.len() as int);
        let dash = index_from(rest, '-', 0);
        if dash >= rest.len() { None } else { Some(p + rest.subrange(0, dash) + "-0"@) }
    }
}

/// For a `Tempora/{week}-{day}[suffix]` key, the Sunday of its week;
/// `None` for other keys.
pub fn week_sunday_key_for_tempora(day_key: &str) -> (r: Option<String>)
    ensures
        match r {
            Some(s) => week_sunday_key(day_key@) == Some(s@),
            None => week_sunday_key(day_key@) is None,
        },
{
    let v = chars_of(day_key);
    let p = "Tempora/";
    let pv = chars_of(p);
    if !starts_with_str(&v, p) {
        return None;
    }
    let rest = subvec(&v, pv.len(), v.len());
    let dash = index_from_exec(&rest, '-', 0);
    if dash == rest.len() {
        return None;
    }
    let mut out = String::new();
    push_str(&mut out, p);
    push_chars(&mut out, &rest, 0, dash);
    push_str(&mut out, "-0");
    assert(out@ =~= "Tempora/"@ + rest@.subrange(0, dash as int) + "-0"@);
    Some(out)
}

/// The Sundays whose second Vespers yield to a concurrent Duplex under
/// the Tridentine and Divino Afflatu rubrics: Septuagesima-tide
/// (`Quadp`), Lent up to the fifth Sunday (`Quad0`..`Quad5`), Low
/// Sunday (`Pasc1`) and Advent (`Adv` + digits); the day part must be
/// `0` followed by letters only.
pub open spec fn concedes_second_vespers(key: Seq<char>) -> bool {
    let p = "Tempora/"@;
    if !has_prefix(key, p) {
        false
    } else {
        let rest = key.subrange(p.len() as int, key.len() as int);
        let dash = index_from(rest, '-', 0);
        if dash >= rest.len() {
            false
        } else {
            let week = rest.subrange(0, dash);
            let d = rest.subrange(dash + 1, rest.len() as int);
            if !(d.len() > 0 && d[0] == '0') || !all_alpha_in(d, 1, d.len() as int) {
                false
            } else if week == "Quadp"@ || week == "Pasc1"@ {
                true
            } else if has_prefix(week, "Quad"@) {
                week.len() == 5 && '0' <= week[4] && week[4] <= '5'
            } else if has_prefix(week, "Adv"@) {
                all_digits_in(week, 3, week.len() as int)
            } else {
                false
            }
        }
    }
}

/// Whether a Tempora Sunday's second Vespers yield to a concurrent
/// Duplex feast under the pre-1955 rubrics.
pub fn is_pre_da_sunday_with_2v_concession(day_key: &str) -> (r: bool)
    ensures
        r == concedes_second_vespers(day_key@),
{
    let v = chars_of(day_key);
    let p = "Tempora/";
    let pv = chars_of(p);
    if !starts_with_str(&v, p) {
        return false;
    }
    let rest = subvec(&v, pv.len(), v.len());
    let dash = index_from_exec(&rest, '-', 0);
    if dash == rest.len() {
        return false;
    }
    let week = subvec(&rest, 0, dash);
    let d = subvec(&rest, dash + 1, rest.len());
    if !(d.len() > 0 && d[0] == '0') {
        return false;
    }
    if !all_alpha_exec(&d, 1, d.len()) {
        return false;
    }
    if eq_str(&week, "Quadp") || eq_str(&week, "Pasc1") {
        return true;
    }
    if starts_with_str(&week, "Quad") {
        proof { reveal_strlit("Quad"); }
        return week.len() == 5 && '0' <= week[4] && week[4] <= '5';
    }
    if starts_with_str(&week, "Adv") {
        proof { reveal_strlit("Adv"); }
        return all_digits_exec(&week, 3, week.len());
    }
    false
}

// ─── Rule bodies ─────────────────────────────────────────────────────

/// One line's effect on the lectio count: a line starting (after
/// trimming) with `9 lectiones` or `3 lectiones` sets it; lines guarded
/// by a leading `(` and other lines leave it.
pub open spec fn lectio_step(acc: int, line: Seq<char>) -> int {
    let l = trim_text(line);
    if l.len() > 0 && l[0] == '(' {
        acc
    } else if has_prefix(l, "9 lectiones"@) {
        9
    } else if has_prefix(l, "3 lectiones"@) {
        3
    } else {
        acc
    }
}

/// The lectio count after reading `lines` in order from `acc`.
pub open spec fn lectio_fold(acc: int, lines: Seq<Seq<char>>) -> int
    decreases lines.len(),
{
    if lines.len() == 0 { acc } else { lectio_fold(lectio_step(acc, lines[0]), lines.drop_first()) }
}

/// Whether Matins has 9 lessons (three nocturns) or 3 (one nocturn),
/// from a `[Rule]` body: 9 unless a line says otherwise, the last
/// unguarded directive winning.
pub fn rule_lectio_count(rule: &str) -> (r: u8)
    ensures
        r == lectio_fold(9, split_on(rule@, '\n')),
{
    let v = chars_of(rule);
    let lines = split_chars(&v, '\n');
    let ghost ls = split_on(rule@, '\n');
    let mut acc: u8 = 9;
    let mut i: usize = 0;
    assert(lines@.map_values(|x: Vec<char>| x@) == ls);
    assert(ls.subrange(0, ls.len() as int) =~= ls);
    while i < lines.len()
        invariant
            i <= lines@.len(),
            lines@.len() == ls.len(),
            forall|j: int| 0 <= j < ls.len() ==> #[trigger] ls[j] == lines@[j]@,
            acc == 9 || acc == 3,
            lectio_fold(acc as int, ls.subrange(i as int, ls.len() as int)) == lectio_fold(9, ls),
        decreases lines.len() - i,
    {
        let t = trim_chars(&lines[i]);
        proof {
            assert(ls[i as int] == lines@[i as int]@);
            assert(ls.subrange(i as int, ls.len() as int).drop_first() =~= ls.subrange(i + 1, ls.len() as int));
            assert(ls.subrange(i as int, ls.len() as int)[0] == ls[i as int]);
        }
        if t.len() > 0 && t[0] == '(' {
        } else if starts_with_str(&t, "9 lectiones") {
            acc = 9;
        } else if starts_with_str(&t, "3 lectiones") {
            acc = 3;
        }
        i = i + 1;
    }
    assert(ls.subrange(i as int, ls.len() as int) =~= Seq::<Seq<char>>::empty());
    acc
}


// ─── Lectio bodies, antiphons, Oratio chunks ─────────────────────────

/// The last position `j <= i` where `p` occurs in `s`, or -1.
pub open spec fn last_occ(s: Seq<char>, p: Seq<char>, i: int) -> int
    decreases i + 1,
{
    if i < 0 { -1 } else if occurs_at(s, p, i) { i } else { last_occ(s, p, i - 1) }
}

/// A Lectio body without its trailing `&teDeum` marker: when the last
/// `&teDeum` is followed by nothing but whitespace, the text before it
/// with trailing whitespace trimmed, and `true`; else the body and
/// `false`.
pub open spec fn te_deum_split(b: Seq<char>) -> (Seq<char>, bool) {
    let n = "&teDeum"@;
    let pos = last_occ(b, n, b.len() - n.len());
    if pos >= 0 && trim_text(b.subrange(pos + n.len(), b.len() as int)).len() == 0 {
        (trim_end_text(b.subrange(0, pos)), true)
    } else {
        (b, false)
    }
}

proof fn lemma_last_occ_bounds(s: Seq<char>, p: Seq<char>, i: int)
    ensures
        -1 <= last_occ(s, p, i) <= if i < -1 { -1 } else { i },
        last_occ(s, p, i) >= 0 ==> occurs_at(s, p, last_occ(s, p, i)),
    decreases i + 1,
{
    if i >= 0 && !occurs_at(s, p, i) {
        lemma_last_occ_bounds(s, p, i - 1);
    }
}

/// Strips a trailing `&teDeum` marker from a Lectio body, reporting
/// whether it was there.
pub fn strip_te_deum_directive(body: &str) -> (r: (String, bool))
    ensures
        r.0@ == te_deum_split(body@).0,
        r.1 == te_deum_split(body@).1,
{
    let v = chars_of(body);
    let needle = "&teDeum";
    let nv = chars_of(needle);
    proof { reveal_strlit("&teDeum"); }
    let ghost n = needle@;
    assert(n == "&teDeum"@);
    assert(n.len() == 7);
    if v.len() >= nv.len() {
        let mut j: usize = v.len() - nv.len() + 1;
        while j > 0
            invariant
                j + 6 <= v.len(),
                v@ == body@,
                nv@ == n,
                n == "&teDeum"@,
                n.len() == 7,
                nv.len() == 7,
                last_occ(v@, n, j - 1) == last_occ(v@, n, v@.len() - n.len()),
            decreases j,
        {
            if crate::text::matches_at(&v, j - 1, &nv) {
                let pos = j - 1;
                let tail = subvec(&v, pos + 7, v.len());
                let tt = trim_chars(&tail);
                if tt.len() == 0 {
                    let head = subvec(&v, 0, pos);
                    let cleaned = crate::text::trim_end_chars(&head);
                    return (string_from(&cleaned), true);
                }
                return (string_from(&v), false);
            }
            j = j - 1;
        }
    } else {
        assert(last_occ(v@, n, v@.len() - n.len()) == -1);
    }
    (string_from(&v), false)
}

/// The non-blank lines of a body, each trimmed.
pub open spec fn antiphon_lines(lines: Seq<Seq<char>>) -> Seq<Seq<char>>
    decreases lines.len(),
{
    if lines.len() == 0 {
        Seq::empty()
    } else {
        let t = trim_text(lines[0]);
        (if t.len() > 0 { seq![t] } else { Seq::empty() }) + antiphon_lines(lines.drop_first())
    }
}

/// Splits a multi-line `[Ant Matutinum]` body into its antiphons:
/// trimmed lines, blank ones dropped (`;;<psalm>` suffixes kept).
pub fn parse_antiphon_lines(body: &str) -> (r: Vec<String>)
    ensures
        r@.map_values(|x: String| x@) == antiphon_lines(split_on(body@, '\n')),
{
    let v = chars_of(body);
    let lines = split_chars(&v, '\n');
    let ghost ls = split_on(body@, '\n');
    let mut out: Vec<String> = Vec::new();
    let mut i: usize = 0;
    assert(lines@.map_values(|x: Vec<char>| x@) == ls);
    assert(ls.subrange(0, ls.len() as int) =~= ls);
    while i < lines.len()
        invariant
            i <= lines@.len(),
            lines@.len() == ls.len(),
            forall|j: int| 0 <= j < ls.len() ==> #[trigger] ls[j] == lines@[j]@,
            out@.map_values(|x: String| x@) + antiphon_lines(ls.subrange(i as int, ls.len() as int))
                == antiphon_lines(ls),
        decreases lines.len() - i,
    {
        let t = trim_chars(&lines[i]);
        let ghost prev = out@.map_values(|x: String| x@);
        proof {
            assert(ls[i as int] == lines@[i as int]@);
            assert(ls.subrange(i as int, ls.len() as int).drop_first() =~= ls.subrange(i + 1, ls.len() as int));
            assert(ls.subrange(i as int, ls.len() as int)[0] == ls[i as int]);
        }
        if t.len() > 0 {
            out.push(string_from(&t));
            assert(out@.map_values(|x: String| x@) =~= prev.push(t@));
            assert(prev + antiphon_lines(ls.subrange(i as int, ls.len() as int))
                =~= out@.map_values(|x: String| x@) + antiphon_lines(ls.subrange(i + 1, ls.len() as int)));
        } else {
            assert(prev + antiphon_lines(ls.subrange(i as int, ls.len() as int))
                =~= out@.map_values(|x: String| x@) + antiphon_lines(ls.subrange(i + 1, ls.len() as int)));
        }
        i = i + 1;
    }
    assert(antiphon_lines(ls.subrange(i as int, ls.len() as int)) =~= Seq::<Seq<char>>::empty());
    assert(out@.map_values(|x: String| x@) + Seq::<Seq<char>>::empty() =~= out@.map_values(|x: String| x@));
    out
}

/// The lines of a body up to the first line that is just `_` (after
/// trimming), joined by newlines; empty leading lines add no newline.
pub open spec fn chunk_fold(acc: Seq<char>, lines: Seq<Seq<char>>) -> Seq<char>
    decreases lines.len(),
{
    if lines.len() == 0 || trim_text(lines[0]) == "_"@ {
        acc
    } else {
        chunk_fold(if acc.len() == 0 { lines[0] } else { acc + seq!['\n'] + lines[0] }, lines.drop_first())
    }
}

/// The first chunk of an Oratio body: everything before the first
/// standalone `_` separator line.
pub fn take_first_oratio_chunk(body: &str) -> (r: String)
    ensures
        r@ == chunk_fold(Seq::empty(), split_on(body@, '\n')),
{
    let v = chars_of(body);
    let lines = split_chars(&v, '\n');
    let ghost ls = split_on(body@, '\n');
    let mut out = String::new();
    let mut i: usize = 0;
    assert(lines@.map_values(|x: Vec<char>| x@) == ls);
    assert(ls.subrange(0, ls.len() as int) =~= ls);
    while i < lines.len()
        invariant
            i <= lines@.len(),
            lines@.len() == ls.len(),
            forall|j: int| 0 <= j < ls.len() ==> #[trigger] ls[j] == lines@[j]@,
            ls == split_on(body@, '\n'),
            chunk_fold(out@, ls.subrange(i as int, ls.len() as int)) == chunk_fold(Seq::empty(), ls),
        decreases lines.len() - i,
    {
        let t = trim_chars(&lines[i]);
        proof {
            assert(ls[i as int] == lines@[i as int]@);
            assert(ls.subrange(i as int, ls.len() as int).drop_first() =~= ls.subrange(i + 1, ls.len() as int));
            assert(ls.subrange(i as int, ls.len() as int)[0] == ls[i as int]);
        }
        if eq_str(&t, "_") {
            return out;
        }
        let ghost prev = out@;
        if !out.as_str().is_empty() {
            push_char(&mut out, '\n');
        }
        push_chars(&mut out, &lines[i], 0, lines[i].len());
        assert(lines@[i as int]@.subrange(0, lines@[i as int]@.len() as int) =~= lines@[i as int]@);
        assert(out@ =~= if prev.len() == 0 { ls[i as int] } else { prev + seq!['\n'] + ls[i as int] });
        i = i + 1;
    }
    out
}

/// Whether `s` starts with one of the corpus directories.
pub open spec fn is_corpus_path(s: Seq<char>) -> bool {
    has_prefix(s, "Sancti/"@) || has_prefix(s, "Tempora/"@) || has_prefix(s, "Commune/"@)
        || has_prefix(s, "Psalterium/"@) || has_prefix(s, "SanctiM/"@) || has_prefix(s, "SanctiOP/"@)
        || has_prefix(s, "Ordinarium/"@)
}

/// Whether `s` looks like a corpus file path.
pub fn looks_like_corpus_path(s: &str) -> (r: bool)
    ensures
        r == is_corpus_path(s@),
{
    let v = chars_of(s);
    starts_with_str(&v, "Sancti/") || starts_with_str(&v, "Tempora/") || starts_with_str(&v, "Commune/")
        || starts_with_str(&v, "Psalterium/") || starts_with_str(&v, "SanctiM/")
        || starts_with_str(&v, "SanctiOP/") || starts_with_str(&v, "Ordinarium/")
}

// ─── Whole-file inheritance ──────────────────────────────────────────

/// The first non-blank line of `ls[i..]`, trimmed.
pub open spec fn first_nonblank(ls: Seq<Seq<char>>, i: int) -> Option<Seq<char>>
    decreases ls.len() - i,
{
    if i < 0 || i >= ls.len() {
        None
    } else if trim_text(ls[i]).len() == 0 {
        first_nonblank(ls, i + 1)
    } else {
        Some(trim_text(ls[i]))
    }
}

/// Where the path starting at `t[i]` ends: at the first whitespace or
/// `:`, else at the end.
pub open spec fn path_end(t: Seq<char>, i: int) -> int
    decreases t.len() - i,
{
    if i >= t.len() {
        t.len() as int
    } else if is_white(t[i]) || t[i] == ':' {
        i
    } else {
        path_end(t, i + 1)
    }
}

/// The file a file inherits from: when the first non-blank line of its
/// `__preamble__` is `@Path` (the path ending at whitespace or `:`)
/// and `Path` is a corpus path, that path.
pub open spec fn preamble_parent(file: HorasFile) -> Option<Seq<char>> {
    if !file.sections@.contains_key("__preamble__"@) {
        None
    } else {
        match first_nonblank(split_on(file.sections@["__preamble__"@]@, '\n'), 0) {
            Some(t) => if t.len() > 0 && t[0] == '@' && is_corpus_path(t.subrange(1, path_end(t, 1))) {
                Some(t.subrange(1, path_end(t, 1)))
            } else {
                None
            },
            None => None,
        }
    }
}

proof fn lemma_path_end_bounds(t: Seq<char>, i: int)
    requires
        0 <= i <= t.len(),
    ensures
        i <= path_end(t, i) <= t.len(),
    decreases t.len() - i,
{
    if i < t.len() && !(is_white(t[i]) || t[i] == ':') {
        lemma_path_end_bounds(t, i + 1);
    }
}

/// Resolves a file's whole-file `@Path` inheritance, reading its
/// `__preamble__` as written.
pub fn first_at_path_inheritance(file: &HorasFile) -> (r: Option<String>)
    ensures
        match r {
            Some(p) => preamble_parent(*file) == Some(p@),
            None => preamble_parent(*file) is None,
        },
{
    proof { reveal_strlit("__preamble__"); }
    let pre = match file.sections.get("__preamble__") {
        Some(b) => b,
        None => {
            return None;
        },
    };
    let v = chars_of(pre.as_str());
    let lines = split_chars(&v, '\n');
    let ghost ls = split_on(pre@, '\n');
    assert(lines@.map_values(|x: Vec<char>| x@) == ls);
    let mut i: usize = 0;
    while i < lines.len()
        invariant
            i <= lines@.len(),
            lines@.len() == ls.len(),
            forall|j: int| 0 <= j < ls.len() ==> #[trigger] ls[j] == lines@[j]@,
            first_nonblank(ls, i as int) == first_nonblank(ls, 0),
            file.sections@.contains_key("__preamble__"@),
            ls == split_on(file.sections@["__preamble__"@]@, '\n'),
        decreases lines.len() - i,
    {
        let t = trim_chars(&lines[i]);
        proof { assert(ls[i as int] == lines@[i as int]@); }
        if t.len() > 0 {
            assert(first_nonblank(ls, 0) == Some(t@));
            if t[0] != '@' {
                return None;
            }
            let mut e: usize = 1;
            while e < t.len() && !(is_white_char(t[e]) || t[e] == ':')
                invariant
                    1 <= e <= t@.len(),
                    path_end(t@, e as int) == path_end(t@, 1),
                decreases t.len() - e,
            {
                e = e + 1;
            }
            let path = string_of(&t, 1, e);
            if looks_like_corpus_path(path.as_str()) {
                return Some(path);
            }
            return None;
        }
        i = i + 1;
    }
    None
}

/// A file's own, non-blank body of section `name`.
pub open spec fn own_section(file: HorasFile, name: Seq<char>) -> Option<Seq<char>> {
    if file.sections@.contains_key(name) && trim_text(file.sections@[name]@).len() > 0 {
        Some(file.sections@[name]@)
    } else {
        None
    }
}

/// Section `name` of `file`, or, when it has no non-blank one, of the
/// file it inherits from (`preamble_parent`), following at most `hops`
/// more inheritance steps.
pub open spec fn inherited_section(files: Map<Seq<char>, HorasFile>, file: HorasFile, name: Seq<char>, hops: nat) -> Option<Seq<char>>
    decreases hops,
{
    match own_section(file, name) {
        Some(b) => Some(b),
        None => if hops == 0 {
            None
        } else {
            match preamble_parent(file) {
                Some(p) => match corpus_key(files, p) {
                    Some(k) => inherited_section(files, files[k], name, (hops - 1) as nat),
                    None => None,
                },
                None => None,
            }
        },
    }
}

/// The file's own non-blank body of section `name`, a copy.
fn own_section_exec(file: &HorasFile, name: &str) -> (r: Option<String>)
    ensures
        match r {
            Some(b) => own_section(*file, name@) == Some(b@),
            None => own_section(*file, name@) is None,
        },
{
    match file.sections.get(name) {
        Some(b) => {
            let v = chars_of(b.as_str());
            let t = trim_chars(&v);
            if t.len() > 0 {
                Some(owned(b.as_str()))
            } else {
                None
            }
        },
        None => None,
    }
}

/// Section `name` of a file, following its whole-file `@Path`
/// inheritance (read as written) through at most four parents when the
/// file has no non-blank body of its own.
pub fn section_via_inheritance(corpus: &HorasCorpus, file: &HorasFile, name: &str) -> (r: Option<String>)
    ensures
        match r {
            Some(b) => inherited_section(corpus.files@, *file, name@, 4) == Some(b@),
            None => inherited_section(corpus.files@, *file, name@, 4) is None,
        },
{
    match own_section_exec(file, name) {
        Some(b) => {
            return Some(b);
        },
        None => {},
    }
    let parent = match first_at_path_inheritance(file) {
        Some(p) => p,
        None => {
            return None;
        },
    };
    let mut current: &HorasFile = match lookup(corpus, parent.as_str()) {
        Some(f) => f,
        None => {
            return None;
        },
    };
    let mut hops: usize = 4;
    assert(inherited_section(corpus.files@, *file, name@, 4)
        == inherited_section(corpus.files@, *current, name@, 3));
    loop
        invariant
            hops <= 4,
            1 <= hops,
            inherited_section(corpus.files@, *current, name@, (hops - 1) as nat)
                == inherited_section(corpus.files@, *file, name@, 4),
        decreases hops,
    {
        match own_section_exec(current, name) {
            Some(b) => {
                return Some(b);
            },
            None => {},
        }
        if hops == 1 {
            return None;
        }
        let next = match first_at_path_inheritance(current) {
            Some(p) => p,
            None => {
                return None;
            },
        };
        current = match lookup(corpus, next.as_str()) {
            Some(f) => f,
            None => {
                return None;
            },
        };
        hops = hops - 1;
    }
}

/// An annotation that names a context (Mass form, hour form) rather
/// than a rubric version: non-empty after trimming, and not starting
/// (case-insensitively) with `nisi `, `rubrica ` or
/// `communi summorum pontificum`.
pub open spec fn is_context_annotation(a: Seq<char>) -> bool {
    let lc = ascii_lower(trim_text(a));
    lc.len() > 0 && !has_prefix(lc, "nisi "@) && !has_prefix(lc, "rubrica "@)
        && !has_prefix(lc, "communi summorum pontificum"@)
}

/// Whether a section annotation is a context tag, whose body may stand
/// in when no bare or matching body exists.
pub fn annotation_is_office_context_only(annotation: &str) -> (r: bool)
    ensures
        r == is_context_annotation(annotation@),
{
    let v = chars_of(annotation);
    let t = trim_chars(&v);
    let lc = ascii_lower_chars(&t);
    if lc.len() == 0 {
        return false;
    }
    !(starts_with_str(&lc, "nisi ") || starts_with_str(&lc, "rubrica ")
        || starts_with_str(&lc, "communi summorum pontificum"))
}


// ─── The saint's name ────────────────────────────────────────────────

/// Characters after which an `N.` placeholder may start.
pub open spec fn n_dot_before(c: char) -> bool {
    c == ' ' || c == '\t' || c == '\n' || c == '(' || c == '.' || c == ',' || c == ';'
}

/// Characters that may follow an `N.` placeholder.
pub open spec fn n_dot_after(c: char) -> bool {
    c == ' ' || c == '\t' || c == '\n' || c == ',' || c == ';' || c == ':' || c == '.'
}

/// An `N.` placeholder starts at `i`: at the start or after a
/// delimiter, and followed by a delimiter or the end.
pub open spec fn n_dot_at(s: Seq<char>, i: int) -> bool {
    &&& 0 <= i
    &&& i + 2 <= s.len()
    &&& s[i] == 'N'
    &&& s[i + 1] == '.'
    &&& (i == 0 || n_dot_before(s[i - 1]))
    &&& (i + 2 >= s.len() || n_dot_after(s[i + 2]))
}

/// The first placeholder at or after `from` (`s.len()` when none).
pub open spec fn next_n_dot(s: Seq<char>, from: int) -> int
    decreases s.len() - from,
{
    if from >= s.len() { s.len() as int } else if n_dot_at(s, from) { from } else { next_n_dot(s, from + 1) }
}

/// First pass: the leftmost `N. … N.` span becomes `name`.
pub open spec fn collapse_pair(s: Seq<char>, name: Seq<char>) -> Seq<char> {
    let a = next_n_dot(s, 0);
    if a >= s.len() {
        s
    } else {
        let b = next_n_dot(s, a + 2);
        if b >= s.len() { s } else { s.subrange(0, a) + name + s.subrange(b + 2, s.len() as int) }
    }
}

/// Second pass over `s[i..]`: every remaining placeholder becomes
/// `name`.
pub open spec fn replace_n_dots(s: Seq<char>, name: Seq<char>, i: int) -> Seq<char>
    decreases s.len() - i,
{
    if i < 0 || i >= s.len() {
        Seq::empty()
    } else if n_dot_at(s, i) {
        name + replace_n_dots(s, name, i + 2)
    } else {
        seq![s[i]] + replace_n_dots(s, name, i + 1)
    }
}

/// The body with the saint's name put in for the `N.` placeholders:
/// unchanged without a name, with an empty name, or when `N.` does not
/// occur; else the first paired span collapsed, then every remaining
/// placeholder replaced.
pub open spec fn with_saint_name(body: Seq<char>, name: Option<Seq<char>>) -> Seq<char> {
    match name {
        None => body,
        Some(n) => if n.len() == 0 || !contains_seq(body, "N."@) {
            body
        } else {
            replace_n_dots(collapse_pair(body, n), n, 0)
        },
    }
}

fn n_dot_at_exec(v: &[char], i: usize) -> (r: bool)
    ensures
        r == n_dot_at(v@, i as int),
{
    if i >= v.len() || v.len() - i < 2 {
        return false;
    }
    if !(v[i] == 'N' && v[i + 1] == '.') {
        return false;
    }
    let before_ok = i == 0 || {
        let c = v[i - 1];
        c == ' ' || c == '\t' || c == '\n' || c == '(' || c == '.' || c == ',' || c == ';'
    };
    let after_ok = i + 2 >= v.len() || {
        let c = v[i + 2];
        c == ' ' || c == '\t' || c == '\n' || c == ',' || c == ';' || c == ':' || c == '.'
    };
    before_ok && after_ok
}

/// Index of the next `N.` placeholder at or after `from`, or the length
/// of `v` when there is none.
fn find_n_dot_at_word_boundary(v: &[char], from: usize) -> (r: usize)
    requires
        from <= v@.len(),
    ensures
        r as int == next_n_dot(v@, from as int),
        from <= r <= v@.len(),
        r < v@.len() ==> n_dot_at(v@, r as int),
{
    let mut i = from;
    while i < v.len() && !n_dot_at_exec(v, i)
        invariant
            from <= i <= v@.len(),
            next_n_dot(v@, i as int) == next_n_dot(v@, from as int),
        decreases v.len() - i,
    {
        i = i + 1;
    }
    i
}

/// First pass of the placeholder substitution.
pub fn collapse_paired_n_dot(body: &str, name: &str) -> (r: String)
    ensures
        r@ == collapse_pair(body@, name@),
{
    let v = chars_of(body);
    let a = find_n_dot_at_word_boundary(&v, 0);
    if a == v.len() {
        return string_from(&v);
    }
    let b = find_n_dot_at_word_boundary(&v, a + 2);
    if b == v.len() {
        return string_from(&v);
    }
    let mut out = String::new();
    push_chars(&mut out, &v, 0, a);
    push_str(&mut out, name);
    push_chars(&mut out, &v, b + 2, v.len());
    assert(out@ =~= v@.subrange(0, a as int) + name@ + v@.subrange(b + 2, v@.len() as int));
    out
}

/// Second pass: every remaining placeholder becomes `name`.
pub fn replace_remaining_n_dot(body: &str, name: &str) -> (r: String)
    ensures
        r@ == replace_n_dots(body@, name@, 0),
{
    let v = chars_of(body);
    let mut out = String::new();
    let mut i: usize = 0;
    while i < v.len()
        invariant
            i <= v@.len(),
            v@ == body@,
            out@ + replace_n_dots(v@, name@, i as int) == replace_n_dots(v@, name@, 0),
        decreases v.len() - i,
    {
        let ghost prev = out@;
        if n_dot_at_exec(&v, i) {
            push_str(&mut out, name);
            assert(prev + replace_n_dots(v@, name@, i as int)
                =~= out@ + replace_n_dots(v@, name@, i + 2));
            i = i + 2;
        } else {
            push_char(&mut out, v[i]);
            assert(prev + replace_n_dots(v@, name@, i as int)
                =~= out@ + replace_n_dots(v@, name@, i + 1));
            i = i + 1;
        }
    }
    assert(out@ + replace_n_dots(v@, name@, i as int) =~= out@);
    out
}

/// Puts the saint's genitive name (from the day's `[Name]`) in for the
/// `N.` placeholders of a Commune body. A paired `N. … N.` span becomes
/// one name, as the joined name of several saints already reads
/// `Sotéris et Caji`.
pub fn substitute_saint_name(body: &str, name: Option<&str>) -> (r: String)
    ensures
        r@ == with_saint_name(body@, match name { Some(n) => Some(n@), None => None }),
{
    let name = match name {
        Some(n) => n,
        None => {
            return body.to_owned();
        },
    };
    let v = chars_of(body);
    if name.is_empty() || !crate::text::contains_str(&v, "N.") {
        return body.to_owned();
    }
    let first = collapse_paired_n_dot(body, name);
    replace_remaining_n_dot(first.as_str(), name)
}


// ─── Chain targets of a [Rule] body ──────────────────────────────────

/// Separators between the tokens of a rule body.
pub open spec fn is_rule_sep(c: char) -> bool {
    is_white(c) || c == ';' || c == ','
}

/// The first separator at or after `from` (`s.len()` when none).
pub open spec fn next_rule_sep(s: Seq<char>, from: int) -> int
    decreases s.len() - from,
{
    if from >= s.len() { s.len() as int } else if is_rule_sep(s[from]) { from } else { next_rule_sep(s, from + 1) }
}

/// The tokens between separators, empty ones included.
pub open spec fn rule_tokens(s: Seq<char>) -> Seq<Seq<char>>
    decreases s.len(),
{
    let i = next_rule_sep(s, 0);
    if i >= s.len() {
        seq![s]
    } else {
        proof { lemma_next_rule_sep_bounds(s, 0); }
        seq![s.subrange(0, i)] + rule_tokens(s.subrange(i + 1, s.len() as int))
    }
}

pub proof fn lemma_next_rule_sep_bounds(s: Seq<char>, from: int)
    requires
        0 <= from <= s.len(),
    ensures
        from <= next_rule_sep(s, from) <= s.len(),
    decreases s.len() - from,
{
    if from < s.len() && !is_rule_sep(s[from]) {
        lemma_next_rule_sep_bounds(s, from + 1);
    }
}

proof fn lemma_next_rule_sep_suffix(s: Seq<char>, start: int, k: int)
    requires
        0 <= start <= s.len(),
        0 <= k <= s.len() - start,
    ensures
        next_rule_sep(s.subrange(start, s.len() as int), k) == next_rule_sep(s, start + k) - start,
    decreases s.len() - start - k,
{
    if start + k < s.len() && !is_rule_sep(s[start + k]) {
        lemma_next_rule_sep_suffix(s, start, k + 1);
    }
}

/// The first occurrence of `p` at or after `from` (`s.len()` when none).
pub open spec fn find_pat(s: Seq<char>, p: Seq<char>, from: int) -> int
    decreases s.len() - from,
{
    if from >= s.len() { s.len() as int } else if occurs_at(s, p, from) { from } else { find_pat(s, p, from + 1) }
}

/// The pieces of `s` between non-overlapping occurrences of `p`
/// (`str::split` with a text pattern).
pub open spec fn split_pat(s: Seq<char>, p: Seq<char>) -> Seq<Seq<char>>
    decreases s.len(),
{
    let i = find_pat(s, p, 0);
    if i >= s.len() || p.len() == 0 {
        seq![s]
    } else {
        proof { lemma_find_pat_bounds(s, p, 0); }
        seq![s.subrange(0, i)] + split_pat(s.subrange(i + p.len(), s.len() as int), p)
    }
}

pub proof fn lemma_find_pat_bounds(s: Seq<char>, p: Seq<char>, from: int)
    requires
        0 <= from <= s.len(),
    ensures
        from <= find_pat(s, p, from) <= s.len(),
        find_pat(s, p, from) < s.len() ==> occurs_at(s, p, find_pat(s, p, from)),
    decreases s.len() - from,
{
    if from < s.len() && !occurs_at(s, p, from) {
        lemma_find_pat_bounds(s, p, from + 1);
    }
}

proof fn lemma_find_pat_suffix(s: Seq<char>, p: Seq<char>, start: int, k: int)
    requires
        0 <= start <= s.len(),
        0 <= k <= s.len() - start,
    ensures
        find_pat(s.subrange(start, s.len() as int), p, k) == find_pat(s, p, start + k) - start,
    decreases s.len() - start - k,
{
    let t = s.subrange(start, s.len() as int);
    if start + k < s.len() {
        if occurs_at(s, p, start + k) {
            assert(t.subrange(k, k + p.len()) =~= s.subrange(start + k, start + k + p.len()));
        } else {
            if k + p.len() <= t.len() {
                assert(t.subrange(k, k + p.len()) =~= s.subrange(start + k, start + k + p.len()));
            }
            lemma_find_pat_suffix(s, p, start, k + 1);
        }
    }
}

/// The pieces between separators of `v` (`rule_tokens`), as vectors.
fn rule_tokens_exec(v: &[char]) -> (r: Vec<Vec<char>>)
    ensures
        r@.map_values(|x: Vec<char>| x@) == rule_tokens(v@),
{
    let mut out: Vec<Vec<char>> = Vec::new();
    let mut start: usize = 0;
    assert(v@.subrange(0, v@.len() as int) =~= v@);
    loop
        invariant
            start <= v@.len(),
            out@.map_values(|x: Vec<char>| x@) + rule_tokens(v@.subrange(start as int, v@.len() as int))
                == rule_tokens(v@),
        decreases v@.len() - start,
    {
        let mut end = start;
        while end < v.len() && !(is_white_char(v[end]) || v[end] == ';' || v[end] == ',')
            invariant
                start <= end <= v@.len(),
                next_rule_sep(v@, end as int) == next_rule_sep(v@, start as int),
            decreases v.len() - end,
        {
            end = end + 1;
        }
        let ghost t = v@.subrange(start as int, v@.len() as int);
        proof {
            lemma_next_rule_sep_suffix(v@, start as int, 0);
            if end < v.len() {
                assert(t.subrange(0, end - start) =~= v@.subrange(start as int, end as int));
                assert(t.subrange(end - start + 1, t.len() as int) =~= v@.subrange(end + 1, v@.len() as int));
            }
        }
        let piece = subvec(v, start, end);
        let ghost before = out@.map_values(|x: Vec<char>| x@);
        out.push(piece);
        assert(out@.map_values(|x: Vec<char>| x@) =~= before.push(v@.subrange(start as int, end as int)));
        if end == v.len() {
            assert(t =~= v@.subrange(start as int, end as int));
            assert(out@.map_values(|x: Vec<char>| x@) =~= before + rule_tokens(t));
            return out;
        }
        assert(before + rule_tokens(t)
            =~= out@.map_values(|x: Vec<char>| x@) + rule_tokens(v@.subrange(end + 1, v@.len() as int)));
        start = end + 1;
    }
}

/// The pieces of `v` between occurrences of `p` (`split_pat`), as
/// vectors.
pub(crate) fn split_pat_exec(v: &[char], p: &str) -> (r: Vec<Vec<char>>)
    requires
        p@.len() > 0,
    ensures
        r@.map_values(|x: Vec<char>| x@) == split_pat(v@, p@),
{
    let pv = chars_of(p);
    let mut out: Vec<Vec<char>> = Vec::new();
    let mut start: usize = 0;
    assert(v@.subrange(0, v@.len() as int) =~= v@);
    loop
        invariant
            start <= v@.len(),
            pv@ == p@,
            p@.len() > 0,
            out@.map_values(|x: Vec<char>| x@) + split_pat(v@.subrange(start as int, v@.len() as int), p@)
                == split_pat(v@, p@),
        decreases v@.len() - start,
    {
        let mut end = start;
        while end < v.len() && !crate::text::matches_at(v, end, &pv)
            invariant
                start <= end <= v@.len(),
                pv@ == p@,
                find_pat(v@, p@, end as int) == find_pat(v@, p@, start as int),
            decreases v.len() - end,
        {
            end = end + 1;
        }
        let ghost t = v@.subrange(start as int, v@.len() as int);
        proof {
            lemma_find_pat_suffix(v@, p@, start as int, 0);
            lemma_find_pat_bounds(v@, p@, start as int);
            if end < v.len() {
                assert(t.subrange(0, end - start) =~= v@.subrange(start as int, end as int));
                assert(t.subrange(end - start + p@.len(), t.len() as int)
                    =~= v@.subrange(end + p@.len(), v@.len() as int));
            }
        }
        let piece = subvec(v, start, end);
        let ghost before = out@.map_values(|x: Vec<char>| x@);
        out.push(piece);
        assert(out@.map_values(|x: Vec<char>| x@) =~= before.push(v@.subrange(start as int, end as int)));
        if end == v.len() {
            assert(t =~= v@.subrange(start as int, end as int));
            assert(out@.map_values(|x: Vec<char>| x@) =~= before + split_pat(t, p@));
            return out;
        }
        assert(before + split_pat(t, p@)
            =~= out@.map_values(|x: Vec<char>| x@) + split_pat(v@.subrange(end + pv.len(), v@.len() as int), p@));
        start = end + pv.len();
    }
}

/// The end of the run of ASCII digits starting at `i`.
pub open spec fn digit_run_end(s: Seq<char>, i: int) -> int
    decreases s.len() - i,
{
    if 0 <= i < s.len() && is_ascii_digit(s[i]) { digit_run_end(s, i + 1) } else { i }
}

/// A Commune reference token: `C`, digits, an optional small letter,
/// then optionally `-`, digits and an optional small letter (`C4`,
/// `C7a`, `C6-1`, `C7a-1b`), and nothing else.
pub open spec fn is_commune_token(t: Seq<char>) -> bool {
    if !(t.len() > 0 && t[0] == 'C') {
        false
    } else {
        let j1 = digit_run_end(t, 1);
        if j1 == 1 {
            false
        } else {
            let j2 = if j1 < t.len() && is_ascii_lower(t[j1]) { j1 + 1 } else { j1 };
            if j2 < t.len() && t[j2] == '-' {
                let j3 = digit_run_end(t, j2 + 1);
                if j3 == j2 + 1 {
                    false
                } else {
                    let j4 = if j3 < t.len() && is_ascii_lower(t[j3]) { j3 + 1 } else { j3 };
                    j4 == t.len()
                }
            } else {
                j2 == t.len()
            }
        }
    }
}

proof fn lemma_digit_run_end_bounds(s: Seq<char>, i: int)
    requires
        0 <= i <= s.len(),
    ensures
        i <= digit_run_end(s, i) <= s.len(),
    decreases s.len() - i,
{
    if i < s.len() && is_ascii_digit(s[i]) {
        lemma_digit_run_end_bounds(s, i + 1);
    }
}

fn digit_run_end_exec(t: &[char], i: usize) -> (r: usize)
    requires
        i <= t@.len(),
    ensures
        r as int == digit_run_end(t@, i as int),
        i <= r <= t@.len(),
{
    let mut j = i;
    while j < t.len() && '0' <= t[j] && t[j] <= '9'
        invariant
            i <= j <= t@.len(),
            digit_run_end(t@, j as int) == digit_run_end(t@, i as int),
        decreases t.len() - j,
    {
        j = j + 1;
    }
    j
}

fn is_commune_token_exec(t: &[char]) -> (r: bool)
    ensures
        r == is_commune_token(t@),
{
    if !(t.len() > 0 && t[0] == 'C') {
        return false;
    }
    let j1 = digit_run_end_exec(t, 1);
    if j1 == 1 {
        return false;
    }
    let j2 = if j1 < t.len() && 'a' <= t[j1] && t[j1] <= 'z' { j1 + 1 } else { j1 };
    if j2 < t.len() && t[j2] == '-' {
        let j3 = digit_run_end_exec(t, j2 + 1);
        if j3 == j2 + 1 {
            return false;
        }
        let j4 = if j3 < t.len() && 'a' <= t[j3] && t[j3] <= 'z' { j3 + 1 } else { j3 };
        j4 == t.len()
    } else {
        j2 == t.len()
    }
}

/// The first position in `s[from..]` holding whitespace (`s.len()` when
/// none).
pub open spec fn next_white(s: Seq<char>, from: int) -> int
    decreases s.len() - from,
{
    if from >= s.len() { s.len() as int } else if is_white(s[from]) { from } else { next_white(s, from + 1) }
}

/// Length of `s[..k]` once trailing `;` and `,` are removed.
pub open spec fn trim_semicomma_len(s: Seq<char>, k: int) -> int
    decreases k,
{
    if k > 0 && (s[k - 1] == ';' || s[k - 1] == ',') { trim_semicomma_len(s, k - 1) } else { k }
}

/// The first whitespace-delimited token of `s`, without trailing `;`
/// and `,`, when it names a corpus path (directory matched without
/// regard to ASCII case): the path with the directory in its canonical
/// case.
pub open spec fn path_token(s: Seq<char>) -> Option<Seq<char>> {
    let b = skip_white(s, 0, s.len() as int);
    if b >= s.len() {
        None
    } else {
        let raw = s.subrange(b, next_white(s, b));
        let tok = raw.subrange(0, trim_semicomma_len(raw, raw.len() as int));
        let lower = ascii_lower(tok);
        if has_prefix(lower, "sanctim/"@) {
            Some("SanctiM/"@ + tok.subrange(8, tok.len() as int))
        } else if has_prefix(lower, "sanctiop/"@) {
            Some("SanctiOP/"@ + tok.subrange(9, tok.len() as int))
        } else if has_prefix(lower, "sancti/"@) {
            Some("Sancti/"@ + tok.subrange(7, tok.len() as int))
        } else if has_prefix(lower, "tempora/"@) {
            Some("Tempora/"@ + tok.subrange(8, tok.len() as int))
        } else if has_prefix(lower, "commune/"@) {
            Some("Commune/"@ + tok.subrange(8, tok.len() as int))
        } else {
            None
        }
    }
}

fn push_canonical(prefix: &str, tok: &[char], skip: usize) -> (r: String)
    requires
        skip <= tok@.len(),
    ensures
        r@ == prefix@ + tok@.subrange(skip as int, tok@.len() as int),
{
    let mut out = String::new();
    push_str(&mut out, prefix);
    push_chars(&mut out, tok, skip, tok.len());
    out
}

/// The corpus path a rule directive names: its first token, when that
/// is a `Sancti/`, `SanctiM/`, `SanctiOP/`, `Tempora/` or `Commune/`
/// path (any ASCII case), with the directory's canonical case.
pub fn first_path_token(s: &str) -> (r: Option<String>)
    ensures
        match r {
            Some(t) => path_token(s@) == Some(t@),
            None => path_token(s@) is None,
        },
{
    let v = chars_of(s);
    let mut b: usize = 0;
    while b < v.len() && is_white_char(v[b])
        invariant
            b <= v@.len(),
            skip_white(v@, b as int, v@.len() as int) == skip_white(v@, 0, v@.len() as int),
        decreases v.len() - b,
    {
        b = b + 1;
    }
    if b == v.len() {
        return None;
    }
    let mut e = b;
    while e < v.len() && !is_white_char(v[e])
        invariant
            b <= e <= v@.len(),
            next_white(v@, e as int) == next_white(v@, b as int),
        decreases v.len() - e,
    {
        e = e + 1;
    }
    let raw = subvec(&v, b, e);
    let mut k = raw.len();
    while k > 0 && (raw[k - 1] == ';' || raw[k - 1] == ',')
        invariant
            k <= raw@.len(),
            trim_semicomma_len(raw@, k as int) == trim_semicomma_len(raw@, raw@.len() as int),
        decreases k,
    {
        k = k - 1;
    }
    let tok = subvec(&raw, 0, k);
    let lower = ascii_lower_chars(&tok);
    proof {
        reveal_strlit("sanctim/");
        reveal_strlit("sanctiop/");
        reveal_strlit("sancti/");
        reveal_strlit("tempora/");
        reveal_strlit("commune/");
    }
    if starts_with_str(&lower, "sanctim/") {
        Some(push_canonical("SanctiM/", &tok, 8))
    } else if starts_with_str(&lower, "sanctiop/") {
        Some(push_canonical("SanctiOP/", &tok, 9))
    } else if starts_with_str(&lower, "sancti/") {
        Some(push_canonical("Sancti/", &tok, 7))
    } else if starts_with_str(&lower, "tempora/") {
        Some(push_canonical("Tempora/", &tok, 8))
    } else if starts_with_str(&lower, "commune/") {
        Some(push_canonical("Commune/", &tok, 8))
    } else {
        None
    }
}

/// The target a rule segment names: `ex PATH`, `vide PATH` or `@PATH`.
pub open spec fn seg_target(seg: Seq<char>) -> Option<Seq<char>> {
    let st = trim_text(seg);
    if has_prefix(st, "ex "@) {
        path_token(st.subrange(3, st.len() as int))
    } else if has_prefix(st, "vide "@) {
        path_token(st.subrange(5, st.len() as int))
    } else if has_prefix(st, "@"@) {
        path_token(st.subrange(1, st.len() as int))
    } else {
        None
    }
}

/// The targets named by a sequence of segments, in order.
pub open spec fn seg_targets(segs: Seq<Seq<char>>) -> Seq<Seq<char>>
    decreases segs.len(),
{
    if segs.len() == 0 {
        Seq::empty()
    } else {
        (match seg_target(segs[0]) { Some(t) => seq![t], None => Seq::empty() })
            + seg_targets(segs.drop_first())
    }
}

/// The segments of a rule line: its `;;`-separated fields, then the
/// whole line.
pub open spec fn line_segments(l: Seq<char>) -> Seq<Seq<char>> {
    split_pat(l, ";;"@).push(l)
}

/// The path targets of the rule's lines, in order; lines guarded by a
/// leading `(` name none.
pub open spec fn line_targets(lines: Seq<Seq<char>>) -> Seq<Seq<char>>
    decreases lines.len(),
{
    if lines.len() == 0 {
        Seq::empty()
    } else {
        let l = trim_text(lines[0]);
        (if l.len() > 0 && l[0] == '(' { Seq::empty() } else { seg_targets(line_segments(l)) })
            + line_targets(lines.drop_first())
    }
}

/// The Commune targets of the rule's tokens, in order.
pub open spec fn commune_targets(toks: Seq<Seq<char>>) -> Seq<Seq<char>>
    decreases toks.len(),
{
    if toks.len() == 0 {
        Seq::empty()
    } else {
        (if is_commune_token(toks[0]) { seq!["Commune/"@ + toks[0]] } else { Seq::empty() })
            + commune_targets(toks.drop_first())
    }
}

/// `out` extended by `items` in order, each item added only the first
/// time it appears.
pub open spec fn dedup_push(out: Seq<Seq<char>>, items: Seq<Seq<char>>) -> Seq<Seq<char>>
    decreases items.len(),
{
    if items.len() == 0 {
        out
    } else {
        dedup_push(if out.contains(items[0]) { out } else { out.push(items[0]) }, items.drop_first())
    }
}

/// The chain targets of a `[Rule]` body: first the Commune tokens
/// (`vide C7a`, bare `C4;`), then the `ex PATH` / `vide PATH` / `@PATH`
/// directives of the unguarded lines and of their `;;` fields, each
/// target once, in order of first appearance.
pub open spec fn vide_targets(rule: Seq<char>) -> Seq<Seq<char>> {
    dedup_push(Seq::empty(), commune_targets(rule_tokens(rule)) + line_targets(split_on(rule, '\n')))
}


/// No target occurs twice.
pub open spec fn all_distinct(s: Seq<Seq<char>>) -> bool {
    forall|i: int, j: int| 0 <= i < j < s.len() ==> s[i] != s[j]
}

proof fn lemma_dedup_push(out: Seq<Seq<char>>, items: Seq<Seq<char>>)
    requires
        all_distinct(out),
    ensures
        all_distinct(dedup_push(out, items)),
        forall|x: Seq<char>| dedup_push(out, items).contains(x) <==> (out.contains(x) || items.contains(x)),
    decreases items.len(),
{
    if items.len() > 0 {
        let next = if out.contains(items[0]) { out } else { out.push(items[0]) };
        if !out.contains(items[0]) {
            assert forall|i: int, j: int| 0 <= i < j < next.len() implies next[i] != next[j] by {
                if j == out.len() {
                    assert(next[j] == items[0]);
                    assert(next[i] == out[i]);
                }
            }
        }
        lemma_dedup_push(next, items.drop_first());
        assert forall|x: Seq<char>| dedup_push(out, items).contains(x) <==> (out.contains(x) || items.contains(x)) by {
            if items.contains(x) && !items.drop_first().contains(x) {
                let k = choose|k: int| 0 <= k < items.len() && items[k] == x;
                if k > 0 {
                    assert(items.drop_first()[k - 1] == x);
                }
                assert(items[0] == x);
                if !out.contains(x) {
                    assert(next[out.len() as int] == x);
                }
            }
            if items.drop_first().contains(x) {
                let k = choose|k: int| 0 <= k < items.drop_first().len() && items.drop_first()[k] == x;
                assert(items[k + 1] == x);
            }
            if next.contains(x) && !out.contains(x) {
                let k = choose|k: int| 0 <= k < next.len() && next[k] == x;
                assert(k == out.len());
                assert(items[0] == x);
            }
            if out.contains(x) {
                let k = choose|k: int| 0 <= k < out.len() && out[k] == x;
                assert(next[k] == x);
            }
        }
    }
}

/// The chain targets of a rule are distinct, and they are exactly the
/// Commune tokens' and the path directives' targets.
pub proof fn lemma_vide_targets_distinct_and_complete(rule: Seq<char>)
    ensures
        all_distinct(vide_targets(rule)),
        forall|x: Seq<char>| vide_targets(rule).contains(x) <==>
            (commune_targets(rule_tokens(rule)) + line_targets(split_on(rule, '\n'))).contains(x),
{
    lemma_dedup_push(Seq::empty(), commune_targets(rule_tokens(rule)) + line_targets(split_on(rule, '\n')));
}

fn push_unique(out: &mut Vec<String>, s: String)
    ensures
        final(out)@.map_values(|x: String| x@) == (if old(out)@.map_values(|x: String| x@).contains(s@) {
            old(out)@.map_values(|x: String| x@)
        } else {
            old(out)@.map_values(|x: String| x@).push(s@)
        }),
{
    let ghost o = old(out)@.map_values(|x: String| x@);
    let mut i: usize = 0;
    while i < out.len()
        invariant
            i <= out@.len(),
            out@ == old(out)@,
            o == old(out)@.map_values(|x: String| x@),
            forall|j: int| 0 <= j < i ==> o[j] != s@,
        decreases out.len() - i,
    {
        if out[i] == s {
            assert(o[i as int] == s@);
            return;
        }
        i = i + 1;
    }
    assert(!o.contains(s@));
    out.push(s);
    assert(out@.map_values(|x: String| x@) =~= o.push(s@));
}

fn segment_target(seg0: &[char]) -> (r: Option<String>)
    ensures
        match r {
            Some(t) => seg_target(seg0@) == Some(t@),
            None => seg_target(seg0@) is None,
        },
{
    let seg = trim_chars(seg0);
    proof {
        reveal_strlit("ex ");
        reveal_strlit("vide ");
        reveal_strlit("@");
    }
    if starts_with_str(&seg, "ex ") {
        let rest = string_of(&seg, 3, seg.len());
        first_path_token(rest.as_str())
    } else if starts_with_str(&seg, "vide ") {
        let rest = string_of(&seg, 5, seg.len());
        first_path_token(rest.as_str())
    } else if starts_with_str(&seg, "@") {
        let rest = string_of(&seg, 1, seg.len());
        first_path_token(rest.as_str())
    } else {
        None
    }
}

/// Extracts the chain targets of a `[Rule]` body: Commune references
/// (`vide C7a;`, bare `C4;`, `C6-1`) become `Commune/…`; `ex PATH`,
/// `vide PATH` and `@PATH` directives name their path. Each target is
/// kept once, in order of first appearance.
pub fn parse_vide_targets(rule: &str) -> (r: Vec<String>)
    ensures
        r@.map_values(|x: String| x@) == vide_targets(rule@),
{
    let v = chars_of(rule);
    let toks = rule_tokens_exec(&v);
    let lines = split_chars(&v, '\n');
    let ghost tk = rule_tokens(rule@);
    let ghost ls = split_on(rule@, '\n');
    let ghost target = vide_targets(rule@);
    let mut out: Vec<String> = Vec::new();
    assert(out@.map_values(|x: String| x@) =~= Seq::<Seq<char>>::empty());
    assert(toks@.map_values(|x: Vec<char>| x@) == tk);
    assert(lines@.map_values(|x: Vec<char>| x@) == ls);
    assert(tk.subrange(0, tk.len() as int) =~= tk);
    let mut i: usize = 0;
    while i < toks.len()
        invariant
            i <= toks@.len(),
            toks@.len() == tk.len(),
            forall|j: int| 0 <= j < tk.len() ==> #[trigger] tk[j] == toks@[j]@,
            ls == split_on(rule@, '\n'),
            target == vide_targets(rule@),
            dedup_push(out@.map_values(|x: String| x@),
                commune_targets(tk.subrange(i as int, tk.len() as int)) + line_targets(ls)) == target,
        decreases toks.len() - i,
    {
        let ghost o = out@.map_values(|x: String| x@);
        let ghost rest = tk.subrange(i as int, tk.len() as int);
        proof {
            assert(rest[0] == tk[i as int]);
            assert(rest.drop_first() =~= tk.subrange(i + 1, tk.len() as int));
        }
        if is_commune_token_exec(&toks[i]) {
            let mut c = String::new();
            push_str(&mut c, "Commune/");
            push_chars(&mut c, &toks[i], 0, toks[i].len());
            assert(toks@[i as int]@.subrange(0, toks@[i as int]@.len() as int) =~= toks@[i as int]@);
            let ghost item = c@;
            push_unique(&mut out, c);
            proof {
                let items = commune_targets(rest) + line_targets(ls);
                let tail = commune_targets(tk.subrange(i + 1, tk.len() as int)) + line_targets(ls);
                assert(items =~= seq![item] + tail);
                assert(items[0] == item);
                assert(items.drop_first() =~= tail);
            }
        } else {
            proof {
                assert(commune_targets(rest) + line_targets(ls)
                    =~= commune_targets(tk.subrange(i + 1, tk.len() as int)) + line_targets(ls));
            }
        }
        i = i + 1;
    }
    assert(commune_targets(tk.subrange(i as int, tk.len() as int)) =~= Seq::<Seq<char>>::empty());
    assert(Seq::<Seq<char>>::empty() + line_targets(ls) =~= line_targets(ls));
    assert(ls.subrange(0, ls.len() as int) =~= ls);
    let mut li: usize = 0;
    while li < lines.len()
        invariant
            li <= lines@.len(),
            lines@.len() == ls.len(),
            forall|j: int| 0 <= j < ls.len() ==> #[trigger] ls[j] == lines@[j]@,
            target == vide_targets(rule@),
            dedup_push(out@.map_values(|x: String| x@), line_targets(ls.subrange(li as int, ls.len() as int))) == target,
        decreases lines.len() - li,
    {
        let ghost lrest = ls.subrange(li as int, ls.len() as int);
        proof {
            assert(lrest[0] == ls[li as int]);
            assert(lrest.drop_first() =~= ls.subrange(li + 1, ls.len() as int));
            assert(ls[li as int] == lines@[li as int]@);
        }
        let l = trim_chars(&lines[li]);
        let ghost after = line_targets(ls.subrange(li + 1, ls.len() as int));
        if l.len() > 0 && l[0] == '(' {
            assert(line_targets(lrest) =~= Seq::<Seq<char>>::empty() + after);
        } else {
            proof { reveal_strlit(";;"); }
            let fields = split_pat_exec(&l, ";;");
            let ghost segs = line_segments(l@);
            assert(fields@.map_values(|x: Vec<char>| x@) == split_pat(l@, ";;"@));
            assert(line_targets(lrest) == seg_targets(segs) + after);
            assert(segs.subrange(0, segs.len() as int) =~= segs);
            let mut k: usize = 0;
            while k < fields.len()
                invariant
                    k <= fields@.len(),
                    segs.len() == fields@.len() + 1,
                    segs == line_segments(l@),
                    forall|j: int| 0 <= j < fields@.len() ==> #[trigger] segs[j] == fields@[j]@,
                    segs[fields@.len() as int] == l@,
                    target == vide_targets(rule@),
                    dedup_push(out@.map_values(|x: String| x@),
                        seg_targets(segs.subrange(k as int, segs.len() as int)) + after) == target,
                decreases fields.len() - k,
            {
                let ghost srest = segs.subrange(k as int, segs.len() as int);
                proof {
                    assert(srest[0] == segs[k as int]);
                    assert(srest.drop_first() =~= segs.subrange(k + 1, segs.len() as int));
                }
                let found = segment_target(&fields[k]);
                let ghost tail = seg_targets(segs.subrange(k + 1, segs.len() as int)) + after;
                match found {
                    Some(t) => {
                        let ghost item = t@;
                        push_unique(&mut out, t);
                        proof {
                            let items = seg_targets(srest) + after;
                            assert(items =~= seq![item] + tail);
                            assert(items[0] == item);
                            assert(items.drop_first() =~= tail);
                        }
                    },
                    None => {
                        assert(seg_targets(srest) + after =~= tail);
                    },
                }
                k = k + 1;
            }
            let ghost srest = segs.subrange(k as int, segs.len() as int);
            proof {
                assert(srest[0] == l@);
                assert(srest.drop_first() =~= Seq::<Seq<char>>::empty());
                assert(seg_targets(srest.drop_first()) =~= Seq::<Seq<char>>::empty());
            }
            match segment_target(&l) {
                Some(t) => {
                    let ghost item = t@;
                    push_unique(&mut out, t);
                    proof {
                        let items = seg_targets(srest) + after;
                        assert(items =~= seq![item] + after);
                        assert(items[0] == item);
                        assert(items.drop_first() =~= after);
                    }
                },
                None => {
                    assert(seg_targets(srest) + after =~= after);
                },
            }
        }
        li = li + 1;
    }
    assert(line_targets(ls.subrange(li as int, ls.len() as int)) =~= Seq::<Seq<char>>::empty());
    out
}


// ─── Office spelling ─────────────────────────────────────────────────

pub open spec fn is_i_vowel(c: char) -> bool {
    c == 'i' || c == 'í'
}

/// `co`/`Co` + `t`/`T` + `i`/`í` + `d`/`D` + `i`/`í` at `i`, at a word
/// boundary (no ASCII letter or digit right before).
pub open spec fn quo_match(s: Seq<char>, i: int) -> bool {
    &&& 0 <= i
    &&& i + 6 <= s.len()
    &&& (i == 0 || !is_ascii_alnum(s[i - 1]))
    &&& (s[i] == 'c' || s[i] == 'C')
    &&& s[i + 1] == 'o'
    &&& (s[i + 2] == 't' || s[i + 2] == 'T')
    &&& is_i_vowel(s[i + 3])
    &&& (s[i + 4] == 'd' || s[i + 4] == 'D')
    &&& is_i_vowel(s[i + 5])
}

/// `s[i..]` with `cotidi-` spelled `quotidi-` (`\bco(t[ií]d[ií])` →
/// `quo$1`, `Co` → `Quo`).
pub open spec fn quo_from(s: Seq<char>, i: int) -> Seq<char>
    decreases s.len() - i,
{
    if i < 0 || i >= s.len() {
        Seq::empty()
    } else if quo_match(s, i) {
        (if s[i] == 'C' { "Quo"@ } else { "quo"@ }) + s.subrange(i + 2, i + 6) + quo_from(s, i + 6)
    } else {
        seq![s[i]] + quo_from(s, i + 1)
    }
}

fn quo_match_exec(v: &[char], i: usize) -> (r: bool)
    ensures
        r == quo_match(v@, i as int),
{
    if i >= v.len() || v.len() - i < 6 {
        return false;
    }
    let boundary = i == 0 || {
        let c = v[i - 1];
        !(('a' <= c && c <= 'z') || ('A' <= c && c <= 'Z') || ('0' <= c && c <= '9'))
    };
    boundary && (v[i] == 'c' || v[i] == 'C') && v[i + 1] == 'o' && (v[i + 2] == 't' || v[i + 2] == 'T')
        && (v[i + 3] == 'i' || v[i + 3] == 'í') && (v[i + 4] == 'd' || v[i + 4] == 'D')
        && (v[i + 5] == 'i' || v[i + 5] == 'í')
}

/// Spells `cotidi-` as `quotidi-` at word starts (`cotidiano` →
/// `quotidiano`, `Cotídie` → `Quotídie`).
pub fn replace_cotidian_with_quotidian(text: &str) -> (r: String)
    ensures
        r@ == quo_from(text@, 0),
{
    let v = chars_of(text);
    let mut out = String::new();
    let mut i: usize = 0;
    while i < v.len()
        invariant
            i <= v@.len(),
            v@ == text@,
            out@ + quo_from(v@, i as int) == quo_from(v@, 0),
        decreases v.len() - i,
    {
        let ghost prev = out@;
        if quo_match_exec(&v, i) {
            if v[i] == 'C' {
                push_str(&mut out, "Quo");
            } else {
                push_str(&mut out, "quo");
            }
            push_chars(&mut out, &v, i + 2, i + 6);
            assert(prev + quo_from(v@, i as int) =~= out@ + quo_from(v@, i + 6));
            i = i + 6;
        } else {
            push_char(&mut out, v[i]);
            assert(prev + quo_from(v@, i as int) =~= out@ + quo_from(v@, i + 1));
            i = i + 1;
        }
    }
    assert(out@ + quo_from(v@, i as int) =~= out@);
    out
}

/// `J`/`j` written `I`/`i`.
pub open spec fn j_to_i(s: Seq<char>) -> Seq<char> {
    s.map_values(|c: char| if c == 'J' { 'I' } else if c == 'j' { 'i' } else { c })
}

/// The Office spelling of a text under a rubric. Under the 1960
/// rubrics `J`/`j` become `I`/`i` (save the chant marker `H-Jesu`) and
/// `er eúmdem` becomes `er eúndem`; under the earlier rubrics
/// `Génetrix`/`Genetrí-` become `Génitrix`/`Genitrí-` and `cotidi-`
/// becomes `quotidi-`.
pub open spec fn office_spelling(text: Seq<char>, rubric: Rubric) -> Seq<char> {
    if rubric == Rubric::Rubrics1960 {
        replace_text(replace_text(j_to_i(text), "H-Iesu"@, "H-Jesu"@), "er eúmdem"@, "er eúndem"@)
    } else {
        quo_from(replace_text(replace_text(text, "Génetrix"@, "Génitrix"@), "Genetrí"@, "Genitrí"@), 0)
    }
}

/// Applies the Office spelling of the active rubric.
pub fn apply_office_spelling(text: &str, rubric: Rubric) -> (r: String)
    ensures
        r@ == office_spelling(text@, rubric),
{
    let v = chars_of(text);
    proof {
        reveal_strlit("H-Iesu");
        reveal_strlit("er eúmdem");
        reveal_strlit("Génetrix");
        reveal_strlit("Genetrí");
    }
    if rubric == Rubric::Rubrics1960 {
        let mut w: Vec<char> = Vec::new();
        let mut i: usize = 0;
        while i < v.len()
            invariant
                i <= v@.len(),
                w@ == j_to_i(v@.subrange(0, i as int)),
            decreases v.len() - i,
        {
            let c = v[i];
            w.push(if c == 'J' { 'I' } else if c == 'j' { 'i' } else { c });
            i = i + 1;
            assert(w@ =~= j_to_i(v@.subrange(0, i as int)));
        }
        assert(v@.subrange(0, v@.len() as int) =~= v@);
        let a = replace_chars(&w, "H-Iesu", "H-Jesu");
        let av = chars_of(a.as_str());
        replace_chars(&av, "er eúmdem", "er eúndem")
    } else {
        let a = replace_chars(&v, "Génetrix", "Génitrix");
        let av = chars_of(a.as_str());
        let b = replace_chars(&av, "Genetrí", "Genitrí");
        replace_cotidian_with_quotidian(b.as_str())
    }
}

// ─── Section names for the template's slots ──────────────────────────

/// The day's section names that supply an Ordinarium slot, in order of
/// preference.
pub open spec fn slot_names(label: Seq<char>, hour: Seq<char>) -> Seq<Seq<char>> {
    if label == "Oratio"@ {
        if hour == "Prima"@ || hour == "Completorium"@ {
            Seq::empty()
        } else if hour == "Vespera"@ {
            seq!["Oratio 3"@, "Oratio"@, "Oratio 2"@, "Oratio 1"@]
        } else if hour == "Matutinum"@ {
            seq!["Oratio Matutinum"@, "Oratio 2"@, "Oratio"@]
        } else {
            seq!["Oratio 2"@, "Oratio"@]
        }
    } else if label == "Capitulum Hymnus Versus"@ || label == "Capitulum Responsorium Hymnus Versus"@
        || label == "Capitulum Versus"@ || label == "Capitulum Responsorium Versus"@ {
        seq!["Capitulum "@ + hour, "Capitulum"@]
    } else if label == "Hymnus"@ {
        seq!["Hymnus "@ + hour, "Hymnus"@]
    } else if label == "Canticum: Magnificat"@ {
        seq!["Ant Magnificat "@ + hour, "Ant Magnificat"@]
    } else if label == "Canticum: Benedictus"@ {
        seq!["Ant Benedictus "@ + hour, "Ant Benedictus"@]
    } else if label == "Canticum: Nunc dimittis"@ {
        seq!["Ant Nunc dimittis"@]
    } else if label == "Lectio brevis"@ {
        seq!["Lectio brevis "@ + hour, "Lectio brevis"@, "Lectio Prima"@]
    } else if label == "Regula vel Lectio brevis"@ || label == "Regula vel Evangelium"@ {
        seq!["Lectio Prima"@, "Regula"@]
    } else if label == "Invitatorium"@ {
        seq!["Invit"@]
    } else {
        Seq::empty()
    }
}

fn joined(a: &str, b: &str) -> (r: String)
    ensures
        r@ == a@ + b@,
{
    let mut s = String::new();
    push_str(&mut s, a);
    push_str(&mut s, b);
    assert(s@ =~= a@ + b@);
    s
}

/// The day's section names that supply the Ordinarium slot `label` at
/// `hour`, in order of preference; none for Prima's and Compline's
/// fixed Oratio and for unknown slots.
pub fn slot_candidates(label: &str, hour: &str) -> (r: Vec<String>)
    ensures
        r@.map_values(|x: String| x@) == slot_names(label@, hour@),
{
    let mut out: Vec<String> = Vec::new();
    if same_text(label, "Oratio") {
        if same_text(hour, "Prima") || same_text(hour, "Completorium") {
        } else if same_text(hour, "Vespera") {
            out.push("Oratio 3".to_owned());
            out.push("Oratio".to_owned());
            out.push("Oratio 2".to_owned());
            out.push("Oratio 1".to_owned());
        } else if same_text(hour, "Matutinum") {
            out.push("Oratio Matutinum".to_owned());
            out.push("Oratio 2".to_owned());
            out.push("Oratio".to_owned());
        } else {
            out.push("Oratio 2".to_owned());
            out.push("Oratio".to_owned());
        }
    } else if same_text(label, "Capitulum Hymnus Versus") || same_text(label, "Capitulum Responsorium Hymnus Versus")
        || same_text(label, "Capitulum Versus") || same_text(label, "Capitulum Responsorium Versus") {
        out.push(joined("Capitulum ", hour));
        out.push("Capitulum".to_owned());
    } else if same_text(label, "Hymnus") {
        out.push(joined("Hymnus ", hour));
        out.push("Hymnus".to_owned());
    } else if same_text(label, "Canticum: Magnificat") {
        out.push(joined("Ant Magnificat ", hour));
        out.push("Ant Magnificat".to_owned());
    } else if same_text(label, "Canticum: Benedictus") {
        out.push(joined("Ant Benedictus ", hour));
        out.push("Ant Benedictus".to_owned());
    } else if same_text(label, "Canticum: Nunc dimittis") {
        out.push("Ant Nunc dimittis".to_owned());
    } else if same_text(label, "Lectio brevis") {
        out.push(joined("Lectio brevis ", hour));
        out.push("Lectio brevis".to_owned());
        out.push("Lectio Prima".to_owned());
    } else if same_text(label, "Regula vel Lectio brevis") || same_text(label, "Regula vel Evangelium") {
        out.push("Lectio Prima".to_owned());
        out.push("Regula".to_owned());
    } else if same_text(label, "Invitatorium") {
        out.push("Invit".to_owned());
    }
    assert(out@.map_values(|x: String| x@) =~= slot_names(label@, hour@));
    out
}


// ─── Prayers macros ──────────────────────────────────────────────────

/// The lines of the Prayers file's `[Dominus]` section.
pub open spec fn dominus_lines(p: HorasFile) -> Option<Seq<Seq<char>>> {
    if p.sections@.contains_key("Dominus"@) {
        Some(split_on(p.sections@["Dominus"@]@, '\n'))
    } else {
        None
    }
}

/// Lines 2 and 3 of `[Dominus]` (the `Domine, exaudi` couplet).
pub open spec fn lay_default_text(p: HorasFile) -> Option<Seq<char>> {
    match dominus_lines(p) {
        Some(ls) => if ls.len() >= 4 { Some(ls[2] + seq!['\n'] + ls[3]) } else { None },
        None => None,
    }
}

/// Line 4 of `[Dominus]` (the `secunda Domine, exaudi omittitur`
/// directive).
pub open spec fn preces_form_text(p: HorasFile) -> Option<Seq<char>> {
    match dominus_lines(p) {
        Some(ls) => if ls.len() >= 5 { Some(ls[4]) } else { None },
        None => None,
    }
}

fn dominus_pieces(prayers: &HorasFile) -> (r: Option<Vec<Vec<char>>>)
    ensures
        match r {
            Some(ls) => dominus_lines(*prayers) == Some(ls@.map_values(|x: Vec<char>| x@)),
            None => dominus_lines(*prayers) is None,
        },
{
    match prayers.sections.get("Dominus") {
        Some(body) => {
            let v = chars_of(body.as_str());
            Some(split_chars(&v, '\n'))
        },
        None => None,
    }
}

/// The `Dominus_vobiscum` text said by one who is not a priest and
/// without preces: lines 2 and 3 of `[Dominus]`, or `None` when the
/// section is missing or shorter.
pub fn dominus_vobiscum_lay_default(prayers: &HorasFile) -> (r: Option<String>)
    ensures
        match r {
            Some(t) => lay_default_text(*prayers) == Some(t@),
            None => lay_default_text(*prayers) is None,
        },
{
    match dominus_pieces(prayers) {
        Some(ls) => {
            if ls.len() < 4 {
                return None;
            }
            let mut out = String::new();
            push_chars(&mut out, &ls[2], 0, ls[2].len());
            push_char(&mut out, '\n');
            push_chars(&mut out, &ls[3], 0, ls[3].len());
            proof {
                let m = ls@.map_values(|x: Vec<char>| x@);
                assert(m[2] == ls@[2]@);
                assert(m[3] == ls@[3]@);
                assert(ls@[2]@.subrange(0, ls@[2]@.len() as int) =~= ls@[2]@);
                assert(ls@[3]@.subrange(0, ls@[3]@.len() as int) =~= ls@[3]@);
            }
            Some(out)
        },
        None => None,
    }
}

/// The `Dominus_vobiscum` text when the preces were said: line 4 of
/// `[Dominus]`, or `None` when the section is missing or shorter.
pub fn dominus_vobiscum_preces_form(prayers: &HorasFile) -> (r: Option<String>)
    ensures
        match r {
            Some(t) => preces_form_text(*prayers) == Some(t@),
            None => preces_form_text(*prayers) is None,
        },
{
    match dominus_pieces(prayers) {
        Some(ls) => {
            if ls.len() < 5 {
                return None;
            }
            proof {
                let m = ls@.map_values(|x: Vec<char>| x@);
                assert(m[4] == ls@[4]@);
            }
            Some(string_from(&ls[4]))
        },
        None => None,
    }
}

/// The `[Te Deum]` body of the Prayers file.
pub fn lookup_te_deum_body<'a>(prayers: Option<&'a HorasFile>) -> (r: Option<&'a str>)
    ensures
        match prayers {
            Some(p) => match r {
                Some(b) => p.sections@.contains_key("Te Deum"@) && b@ == p.sections@["Te Deum"@]@,
                None => !p.sections@.contains_key("Te Deum"@),
            },
            None => r is None,
        },
{
    match prayers {
        Some(p) => match p.sections.get("Te Deum") {
            Some(b) => Some(b.as_str()),
            None => None,
        },
        None => None,
    }
}

/// The part of `name` before its first `_` (all of it when none).
pub open spec fn first_underscore_piece(name: Seq<char>) -> Seq<char> {
    let i = index_from(name, '_', 0);
    if i < name.len() { name.subrange(0, i) } else { name }
}

/// The body an `&Macro_Name` reference stands for in the Prayers file:
/// the lay-default `Dominus_vobiscum` couplet for the `Dominus_vobiscum`
/// family; else the section named literally, or with `_` read as space,
/// or by the name's first `_`-separated piece.
pub open spec fn macro_text(p: HorasFile, name: Seq<char>) -> Option<Seq<char>> {
    let m = p.sections@;
    if name == "Dominus_vobiscum"@ || name == "Dominus_vobiscum1"@ || name == "Dominus_vobiscum2"@ {
        lay_default_text(p)
    } else if m.contains_key(name) {
        Some(m[name]@)
    } else if m.contains_key(replace_text(name, "_"@, " "@)) {
        Some(m[replace_text(name, "_"@, " "@)]@)
    } else if m.contains_key(first_underscore_piece(name)) {
        Some(m[first_underscore_piece(name)]@)
    } else {
        None
    }
}

fn section_text(p: &HorasFile, name: &str) -> (r: Option<String>)
    ensures
        match r {
            Some(t) => p.sections@.contains_key(name@) && t@ == p.sections@[name@]@,
            None => !p.sections@.contains_key(name@),
        },
{
    match p.sections.get(name) {
        Some(b) => Some(b.clone()),
        None => None,
    }
}

/// Resolves an `&Macro_Name` reference against the Prayers file.
pub fn lookup_horas_macro(prayers: Option<&HorasFile>, name: &str) -> (r: Option<String>)
    ensures
        match prayers {
            Some(p) => match r {
                Some(t) => macro_text(*p, name@) == Some(t@),
                None => macro_text(*p, name@) is None,
            },
            None => r is None,
        },
{
    let p = match prayers {
        Some(p) => p,
        None => {
            return None;
        },
    };
    if same_text(name, "Dominus_vobiscum") || same_text(name, "Dominus_vobiscum1") || same_text(name, "Dominus_vobiscum2") {
        return dominus_vobiscum_lay_default(p);
    }
    match section_text(p, name) {
        Some(t) => {
            return Some(t);
        },
        None => {},
    }
    let v = chars_of(name);
    proof { reveal_strlit("_"); }
    let spaced = replace_chars(&v, "_", " ");
    match section_text(p, spaced.as_str()) {
        Some(t) => {
            return Some(t);
        },
        None => {},
    }
    let i = index_from_exec(&v, '_', 0);
    let head = string_of(&v, 0, i);
    assert(i == v.len() ==> v@.subrange(0, i as int) =~= v@);
    section_text(p, head.as_str())
}

/// The target of a `@:Section` self-reference in the Prayers file:
/// when the trimmed body starts with `@:`, the section named up to the
/// next `:` (trimmed), if the file has it; else the body unchanged.
pub open spec fn self_redirect(body: Seq<char>, p: HorasFile) -> Seq<char> {
    let t = trim_text(body);
    if has_prefix(t, "@:"@) {
        let rest = t.subrange(2, t.len() as int);
        let i = index_from(rest, ':', 0);
        let name = trim_text(if i < rest.len() { rest.subrange(0, i) } else { rest });
        if p.sections@.contains_key(name) { p.sections@[name]@ } else { body }
    } else {
        body
    }
}

/// Follows a single `@:Section` self-reference inside the Prayers file.
pub fn resolve_self_redirect(body: &str, prayers: &HorasFile) -> (r: String)
    ensures
        r@ == self_redirect(body@, *prayers),
{
    let v = chars_of(body);
    let t = trim_chars(&v);
    proof { reveal_strlit("@:"); }
    if !starts_with_str(&t, "@:") {
        return body.to_owned();
    }
    let rest = subvec(&t, 2, t.len());
    let i = index_from_exec(&rest, ':', 0);
    let name0 = subvec(&rest, 0, i);
    assert(i == rest.len() ==> rest@.subrange(0, i as int) =~= rest@);
    let name = string_from(&trim_chars(&name0));
    match section_text(prayers, name.as_str()) {
        Some(target) => target,
        None => body.to_owned(),
    }
}

/// The rubric-gated macro names a `$` line must not be expanded for.
pub open spec fn is_gated_macro(lower: Seq<char>) -> bool {
    contains_seq(lower, "cisterciensis"@) || contains_seq(lower, "monastica"@)
        || contains_seq(lower, "monastic"@) || contains_seq(lower, "praedicatorum"@)
        || contains_seq(lower, "1955"@) || contains_seq(lower, "1960"@) || contains_seq(lower, "196"@)
}

/// What a `$name` line of a template expands to: for a trimmed line
/// `$rest` not naming a rubric-gated macro, the Prayers section named
/// `rest`, or else by its first word, with a `@:` self-reference
/// followed. `None` for other lines and names without a section.
pub open spec fn dollar_macro(body: Seq<char>, prayers: Option<HorasFile>) -> Option<Seq<char>> {
    let s = trim_text(body);
    if !(s.len() > 0 && s[0] == '$') {
        None
    } else {
        let rest = s.subrange(1, s.len() as int);
        if rest.len() == 0 || is_gated_macro(ascii_lower(rest)) {
            None
        } else {
            match prayers {
                None => None,
                Some(p) => {
                    let m = p.sections@;
                    if m.contains_key(rest) {
                        Some(self_redirect(m[rest]@, p))
                    } else {
                        let b = skip_white(rest, 0, rest.len() as int);
                        let word = rest.subrange(b, next_white(rest, b));
                        if b < rest.len() && m.contains_key(word) {
                            Some(self_redirect(m[word]@, p))
                        } else {
                            None
                        }
                    }
                },
            }
        }
    }
}

/// Expands a template line that is a bare `$name` prayer reference
/// (`$Kyrie`, `$Pater noster Et`, `$oratio_Visita`). Rubric-gated
/// names (`cisterciensis`, `monastica`, `praedicatorum`, `1955`,
/// `196…`) are left alone; they are matched after ASCII case folding,
/// which finds the same names as full Unicode folding since they are
/// ASCII and end in no `i`.
pub fn expand_dollar_macro(body: &str, prayers: Option<&HorasFile>) -> (r: Option<String>)
    ensures
        match r {
            Some(t) => dollar_macro(body@, match prayers { Some(p) => Some(*p), None => None }) == Some(t@),
            None => dollar_macro(body@, match prayers { Some(p) => Some(*p), None => None }) is None,
        },
{
    let v = chars_of(body);
    let s = trim_chars(&v);
    if !(s.len() > 0 && s[0] == '$') {
        return None;
    }
    let rest = subvec(&s, 1, s.len());
    if rest.len() == 0 {
        return None;
    }
    let lower = ascii_lower_chars(&rest);
    if crate::text::contains_str(&lower, "cisterciensis") || crate::text::contains_str(&lower, "monastica")
        || crate::text::contains_str(&lower, "monastic") || crate::text::contains_str(&lower, "praedicatorum")
        || crate::text::contains_str(&lower, "1955") || crate::text::contains_str(&lower, "1960")
        || crate::text::contains_str(&lower, "196") {
        return None;
    }
    let p = match prayers {
        Some(p) => p,
        None => {
            return None;
        },
    };
    let name = string_from(&rest);
    match section_text(p, name.as_str()) {
        Some(t) => {
            return Some(resolve_self_redirect(t.as_str(), p));
        },
        None => {},
    }
    let mut b: usize = 0;
    while b < rest.len() && is_white_char(rest[b])
        invariant
            b <= rest@.len(),
            skip_white(rest@, b as int, rest@.len() as int) == skip_white(rest@, 0, rest@.len() as int),
        decreases rest.len() - b,
    {
        b = b + 1;
    }
    if b == rest.len() {
        return None;
    }
    let mut e = b;
    while e < rest.len() && !is_white_char(rest[e])
        invariant
            b <= e <= rest@.len(),
            next_white(rest@, e as int) == next_white(rest@, b as int),
        decreases rest.len() - e,
    {
        e = e + 1;
    }
    let word = string_of(&rest, b, e);
    match section_text(p, word.as_str()) {
        Some(t) => Some(resolve_self_redirect(t.as_str(), p)),
        None => None,
    }
}

/// Lines joined with newlines.
pub open spec fn join_lines(ls: Seq<Seq<char>>) -> Seq<char>
    decreases ls.len(),
{
    if ls.len() == 0 {
        Seq::empty()
    } else if ls.len() == 1 {
        ls[0]
    } else {
        join_lines(ls.drop_last()) + seq!['\n'] + ls.last()
    }
}

/// A body with each line that is a `$name` reference expanded (see
/// `dollar_macro`), other lines kept; unchanged when it has no `$`.
pub open spec fn dollar_macros_in_body(body: Seq<char>, prayers: Option<HorasFile>) -> Seq<char> {
    if !contains_seq(body, "$"@) {
        body
    } else {
        join_lines(split_on(body, '\n').map_values(|l: Seq<char>| match dollar_macro(l, prayers) {
            Some(t) => t,
            None => l,
        }))
    }
}

/// Expands every `$name` line of a multi-line body (an Oratio ending in
/// `$Per Dominum`), other lines passing through.
pub fn expand_dollar_macros_in_body(body: &str, prayers: Option<&HorasFile>) -> (r: String)
    ensures
        r@ == dollar_macros_in_body(body@, match prayers { Some(p) => Some(*p), None => None }),
{
    let ghost pr = match prayers { Some(p) => Some(*p), None => None };
    let v = chars_of(body);
    proof { reveal_strlit("$"); }
    if !crate::text::contains_str(&v, "$") {
        return body.to_owned();
    }
    let lines = split_chars(&v, '\n');
    let ghost ls = split_on(body@, '\n');
    let ghost mapped = ls.map_values(|l: Seq<char>| match dollar_macro(l, pr) {
        Some(t) => t,
        None => l,
    });
    assert(lines@.map_values(|x: Vec<char>| x@) == ls);
    let mut out = String::new();
    let mut i: usize = 0;
    while i < lines.len()
        invariant
            i <= lines@.len(),
            lines@.len() == ls.len(),
            mapped.len() == ls.len(),
            forall|j: int| 0 <= j < ls.len() ==> #[trigger] ls[j] == lines@[j]@,
            forall|j: int| 0 <= j < ls.len() ==> #[trigger] mapped[j] == match dollar_macro(ls[j], pr) {
                Some(t) => t,
                None => ls[j],
            },
            pr == match prayers { Some(p) => Some(*p), None => None },
            out@ == join_lines(mapped.subrange(0, i as int)),
        decreases lines.len() - i,
    {
        let line = string_from(&lines[i]);
        proof { assert(ls[i as int] == lines@[i as int]@); }
        let piece = match expand_dollar_macro(line.as_str(), prayers) {
            Some(t) => t,
            None => line,
        };
        assert(piece@ == mapped[i as int]);
        let ghost prev = out@;
        if i > 0 {
            push_char(&mut out, '\n');
        }
        push_str(&mut out, piece.as_str());
        proof {
            let next = mapped.subrange(0, i + 1);
            assert(next.drop_last() =~= mapped.subrange(0, i as int));
            assert(next.last() == mapped[i as int]);
            if i == 0 {
                assert(out@ =~= join_lines(next));
            } else {
                assert(out@ =~= join_lines(next));
            }
        }
        i = i + 1;
    }
    assert(mapped.subrange(0, i as int) =~= mapped);
    out
}


// ─── Template directives ─────────────────────────────────────────────

/// The text of a template line that is a `(...)` conditional
/// directive: a `plain` line whose body, without leading whitespace,
/// starts with `(` and holds a `)`.
pub open spec fn template_directive(line: OrdoLine) -> Option<Seq<char>> {
    if line.kind@ != "plain"@ {
        None
    } else {
        match line.body {
            None => None,
            Some(b) => {
                let t = b@.subrange(skip_white(b@, 0, b@.len() as int), b@.len() as int);
                if t.len() > 0 && t[0] == '(' && t.contains(')') { Some(t) } else { None }
            },
        }
    }
}

/// The directive text of a conditional template line, for the
/// rubric-conditional pass over an Ordinarium template.
pub fn directive_body_for_template(line: &OrdoLine) -> (r: Option<String>)
    ensures
        match r {
            Some(t) => template_directive(*line) == Some(t@),
            None => template_directive(*line) is None,
        },
{
    if !same_text(line.kind.as_str(), "plain") {
        return None;
    }
    let body = match &line.body {
        Some(b) => b,
        None => {
            return None;
        },
    };
    let v = chars_of(body.as_str());
    let mut b: usize = 0;
    while b < v.len() && is_white_char(v[b])
        invariant
            b <= v@.len(),
            skip_white(v@, b as int, v@.len() as int) == skip_white(v@, 0, v@.len() as int),
        decreases v.len() - b,
    {
        b = b + 1;
    }
    let t = subvec(&v, b, v.len());
    if t.len() > 0 && t[0] == '(' {
        match crate::text::find_char(&t, ')') {
            Some(k) => {
                assert(t@.contains(')'));
                return Some(string_from(&t));
            },
            None => {
                assert(!t@.contains(')'));
            },
        }
    }
    None
}

} // verus!
