//! The office of a day key: its rank line, its commune chain, whether
//! the ferial preces are said, and which office has first Vespers.
//!
//! Section bodies are read as the files store them.

use vstd::prelude::*;
use crate::data_types::HorasFile;
use crate::horas::{
    corpus_key, first_at_path_inheritance, lookup, parse_vide_targets, preamble_parent,
    sunday_fallback, tempora_sunday_fallback, vide_targets, HorasCorpus,
};
use crate::office_hour::{chain_files, office_hour, render_office_hour, setting_of, views, RenderedLine};
use crate::horas::OfficeArgs;
use crate::ranks::{first_rank_line, parse_first_rank_line, rank_line_view, RankLine};
use crate::core_types::{layer_of_rubric, Rubric};
use crate::date::mm_dd;
use crate::kalendaria_layers::{layer_key, table_has, Cell, KalendariaTable};
use crate::ranks::{parse_rank, rank_value};
use crate::text::pad_int;
use crate::horas::{concedes_second_vespers, inherited_section, is_pre_da_sunday_with_2v_concession, section_via_inheritance};
use crate::text::{
    ascii_lower, ascii_lower_chars, chars_of, contains_seq, contains_str, has_prefix, occurs_at, same_text, split_chars,
    split_on, starts_with_str, trim_chars, trim_text,
};

verus! {

// ─── Rank lines through inheritance ──────────────────────────────────

/// How many whole-file inheritance steps a rank or rule lookup follows.
pub open spec fn inherit_fuel() -> nat {
    8
}

/// The first rank line of the `[Rank]` of the file `key` names, else
/// of the file it inherits from (not itself), at most `fuel` steps up.
pub open spec fn active_rank(files: Map<Seq<char>, HorasFile>, key: Seq<char>, fuel: nat) -> Option<(Seq<char>, Seq<char>, int)>
    decreases fuel,
{
    match corpus_key(files, key) {
        None => None,
        Some(k) => {
            let f = files[k];
            let own = if f.sections@.contains_key("Rank"@) {
                first_rank_line(split_on(f.sections@["Rank"@]@, '\n'), 0)
            } else {
                None
            };
            if own is Some {
                own
            } else if fuel == 0 {
                None
            } else {
                match preamble_parent(f) {
                    Some(p) => if p != key { active_rank(files, p, (fuel - 1) as nat) } else { None },
                    None => None,
                }
            }
        },
    }
}

/// The rank line of `key` (see [`active_rank`], with
/// [`inherit_fuel`] steps).
pub fn active_rank_line(corpus: &HorasCorpus, key: &str) -> (r: Option<RankLine>)
    ensures
        match r {
            Some(x) => active_rank(corpus.files@, key@, inherit_fuel()) == Some(rank_line_view(x)),
            None => active_rank(corpus.files@, key@, inherit_fuel()) is None,
        },
{
    active_rank_line_fuel(corpus, key, 8)
}

fn active_rank_line_fuel(corpus: &HorasCorpus, key: &str, fuel: u64) -> (r: Option<RankLine>)
    ensures
        match r {
            Some(x) => active_rank(corpus.files@, key@, fuel as nat) == Some(rank_line_view(x)),
            None => active_rank(corpus.files@, key@, fuel as nat) is None,
        },
    decreases fuel,
{
    proof { reveal_strlit("Rank"); }
    let f = match lookup(corpus, key) {
        Some(f) => f,
        None => {
            return None;
        },
    };
    match f.sections.get("Rank") {
        Some(b) => match parse_first_rank_line(b.as_str()) {
            Some(x) => {
                return Some(x);
            },
            None => {},
        },
        None => {},
    }
    if fuel == 0 {
        return None;
    }
    match first_at_path_inheritance(f) {
        Some(p) => {
            if same_text(p.as_str(), key) {
                None
            } else {
                active_rank_line_fuel(corpus, p.as_str(), fuel - 1)
            }
        },
        None => None,
    }
}

// ─── The commune chain ───────────────────────────────────────────────

/// The walk's state: keys already visited, files collected.
pub struct ChainState {
    pub visited: Seq<Seq<char>>,
    pub out: Seq<HorasFile>,
}

/// The keys a file leads on to: the file it inherits from, the
/// commune references of its rank line, then those of its `[Rule]`.
pub open spec fn file_targets(files: Map<Seq<char>, HorasFile>, key: Seq<char>, f: HorasFile) -> Seq<Seq<char>> {
    (match preamble_parent(f) { Some(p) => seq![p], None => Seq::empty() })
        + (match active_rank(files, key, inherit_fuel()) { Some(x) => vide_targets(x.0), None => Seq::empty() })
        + (if f.sections@.contains_key("Rule"@) { vide_targets(f.sections@["Rule"@]@) } else { Seq::empty() })
}

/// Visits `key` at `depth`: nothing when deeper than 5 or already
/// visited; else marks it, collects its file when the corpus has one,
/// and visits the file's targets one level deeper.
pub open spec fn visit(files: Map<Seq<char>, HorasFile>, key: Seq<char>, depth: int, st: ChainState) -> ChainState
    decreases 7 - depth, 0int, 0int,
{
    if depth < 0 || depth > 5 || st.visited.contains(key) {
        st
    } else {
        let st1 = ChainState { visited: st.visited.push(key), out: st.out };
        match corpus_key(files, key) {
            None => st1,
            Some(k) => {
                let f = files[k];
                let ts = file_targets(files, key, f);
                visit_all(files, ts, 0, depth + 1, ChainState { visited: st1.visited, out: st1.out.push(f) })
            },
        }
    }
}

/// Visits `ts[i..]` in order at `depth`.
pub open spec fn visit_all(files: Map<Seq<char>, HorasFile>, ts: Seq<Seq<char>>, i: int, depth: int, st: ChainState) -> ChainState
    decreases 7 - depth, 1int, ts.len() - i,
{
    if depth < 1 || depth > 6 || i < 0 || i >= ts.len() {
        st
    } else {
        visit_all(files, ts, i + 1, depth, visit(files, ts[i], depth, st))
    }
}

/// The commune chain of a day key: the walk from the key, then, for a
/// Tempora ferial or variant not reached by it, from its week's Sunday.
pub open spec fn chain_for(files: Map<Seq<char>, HorasFile>, day_key: Seq<char>) -> Seq<HorasFile> {
    let st = visit(files, day_key, 0, ChainState { visited: Seq::empty(), out: Seq::empty() });
    match sunday_fallback(day_key) {
        Some(p) => if !st.visited.contains(p) { visit(files, p, 0, st).out } else { st.out },
        None => st.out,
    }
}

/// The texts of strings.
pub open spec fn texts(v: Seq<String>) -> Seq<Seq<char>> {
    v.map_values(|s: String| s@)
}

fn contains_text(v: &Vec<String>, key: &str) -> (r: bool)
    ensures
        r == texts(v@).contains(key@),
{
    let mut i: usize = 0;
    while i < v.len()
        invariant
            i <= v@.len(),
            forall|j: int| 0 <= j < i ==> texts(v@)[j] != key@,
        decreases v.len() - i,
    {
        if same_text(v[i].as_str(), key) {
            assert(texts(v@)[i as int] == key@);
            return true;
        }
        i = i + 1;
    }
    false
}

fn targets_of(corpus: &HorasCorpus, key: &str, f: &HorasFile) -> (r: Vec<String>)
    ensures
        texts(r@) == file_targets(corpus.files@, key@, *f),
{
    proof { reveal_strlit("Rule"); }
    let mut r: Vec<String> = Vec::new();
    match first_at_path_inheritance(f) {
        Some(p) => r.push(p),
        None => {},
    }
    let ghost a = texts(r@);
    let mut rank_ts: Vec<String> = match active_rank_line(corpus, key) {
        Some(x) => parse_vide_targets(x.line.as_str()),
        None => Vec::new(),
    };
    let mut rule_ts: Vec<String> = match f.sections.get("Rule") {
        Some(b) => parse_vide_targets(b.as_str()),
        None => Vec::new(),
    };
    r.append(&mut rank_ts);
    r.append(&mut rule_ts);
    assert(texts(r@) =~= file_targets(corpus.files@, key@, *f));
    r
}

fn visit_exec<'a>(corpus: &'a HorasCorpus, key: &str, depth: usize, visited: &mut Vec<String>, out: &mut Vec<&'a HorasFile>)
    requires
        depth <= 6,
    ensures
        ({
            let st = visit(corpus.files@, key@, depth as int,
                ChainState { visited: texts(old(visited)@), out: chain_files(old(out)@) });
            &&& texts(final(visited)@) == st.visited
            &&& chain_files(final(out)@) == st.out
        }),
    decreases 7 - depth, 0int, 0int,
{
    if depth > 5 || contains_text(visited, key) {
        return;
    }
    visited.push(crate::text::owned(key));
    assert(texts(visited@) =~= texts(old(visited)@).push(key@));
    match lookup(corpus, key) {
        None => {},
        Some(f) => {
            out.push(f);
            assert(chain_files(out@) =~= chain_files(old(out)@).push(*f));
            let ts = targets_of(corpus, key, f);
            visit_all_exec(corpus, &ts, 0, depth + 1, visited, out);
        },
    }
}

fn visit_all_exec<'a>(corpus: &'a HorasCorpus, ts: &Vec<String>, i: usize, depth: usize, visited: &mut Vec<String>, out: &mut Vec<&'a HorasFile>)
    requires
        1 <= depth <= 6,
        i <= ts@.len(),
    ensures
        ({
            let st = visit_all(corpus.files@, texts(ts@), i as int, depth as int,
                ChainState { visited: texts(old(visited)@), out: chain_files(old(out)@) });
            &&& texts(final(visited)@) == st.visited
            &&& chain_files(final(out)@) == st.out
        }),
    decreases 7 - depth, 1int, ts@.len() - i,
{
    if i >= ts.len() {
        return;
    }
    assert(texts(ts@)[i as int] == ts@[i as int]@);
    visit_exec(corpus, ts[i].as_str(), depth, visited, out);
    visit_all_exec(corpus, ts, i + 1, depth, visited, out);
}

/// The commune chain of a day key (see [`chain_for`]).
pub fn commune_chain<'a>(corpus: &'a HorasCorpus, day_key: &str) -> (r: Vec<&'a HorasFile>)
    ensures
        chain_files(r@) == chain_for(corpus.files@, day_key@),
{
    let mut visited: Vec<String> = Vec::new();
    let mut out: Vec<&'a HorasFile> = Vec::new();
    assert(texts(visited@) =~= Seq::<Seq<char>>::empty());
    assert(chain_files(out@) =~= Seq::<HorasFile>::empty());
    visit_exec(corpus, day_key, 0, &mut visited, &mut out);
    match tempora_sunday_fallback(day_key) {
        Some(p) => {
            if !contains_text(&visited, p.as_str()) {
                visit_exec(corpus, p.as_str(), 0, &mut visited, &mut out);
            }
        },
        None => {},
    }
    out
}

// ─── Text tests ──────────────────────────────────────────────────────

/// Whether `t`, ASCII-lowercased, contains `p`.
pub open spec fn lc_has(t: Seq<char>, p: Seq<char>) -> bool {
    contains_seq(ascii_lower(t), p)
}

pub(crate) fn lc_has_exec(t: &str, p: &str) -> (r: bool)
    ensures
        r == lc_has(t@, p@),
{
    let v = chars_of(t);
    let l = ascii_lower_chars(&v);
    contains_str(&l, p)
}

/// An optional text, or the empty text.
pub open spec fn or_empty(o: Option<Seq<char>>) -> Seq<char> {
    match o {
        Some(t) => t,
        None => Seq::empty(),
    }
}

/// Section `name` of the file `key` names, as stored (no inheritance).
pub open spec fn raw_section(files: Map<Seq<char>, HorasFile>, key: Seq<char>, name: Seq<char>) -> Option<Seq<char>> {
    match corpus_key(files, key) {
        Some(k) => if files[k].sections@.contains_key(name) { Some(files[k].sections@[name]@) } else { None },
        None => None,
    }
}

fn raw_section_exec(corpus: &HorasCorpus, key: &str, name: &str) -> (r: Option<String>)
    ensures
        match r {
            Some(t) => raw_section(corpus.files@, key@, name@) == Some(t@),
            None => raw_section(corpus.files@, key@, name@) is None,
        },
{
    match lookup(corpus, key) {
        Some(f) => match f.sections.get(name) {
            Some(b) => Some(crate::text::owned(b.as_str())),
            None => None,
        },
        None => None,
    }
}

/// Section `name` of the file `key` names, following whole-file
/// inheritance (see [`inherited_section`]).
pub open spec fn inh_section(files: Map<Seq<char>, HorasFile>, key: Seq<char>, name: Seq<char>) -> Option<Seq<char>> {
    match corpus_key(files, key) {
        Some(k) => inherited_section(files, files[k], name, 4),
        None => None,
    }
}

fn inh_section_exec(corpus: &HorasCorpus, key: &str, name: &str) -> (r: Option<String>)
    ensures
        match r {
            Some(t) => inh_section(corpus.files@, key@, name@) == Some(t@),
            None => inh_section(corpus.files@, key@, name@) is None,
        },
{
    match lookup(corpus, key) {
        Some(f) => section_via_inheritance(corpus, f, name),
        None => None,
    }
}

/// Whether the `[Rule]` of `key`, or of a file it inherits from (not
/// itself, at most `fuel` steps up), contains `p` (ASCII-lowercased).
pub open spec fn rule_marks(files: Map<Seq<char>, HorasFile>, key: Seq<char>, p: Seq<char>, q: Seq<char>, fuel: nat) -> bool
    decreases fuel,
{
    match corpus_key(files, key) {
        None => false,
        Some(k) => {
            let f = files[k];
            let own = f.sections@.contains_key("Rule"@)
                && (lc_has(f.sections@["Rule"@]@, p) || lc_has(f.sections@["Rule"@]@, q));
            own || (fuel > 0 && match preamble_parent(f) {
                Some(pp) => pp != key && rule_marks(files, pp, p, q, (fuel - 1) as nat),
                None => false,
            })
        },
    }
}

fn rule_marks_exec(corpus: &HorasCorpus, key: &str, p: &str, q: &str, fuel: u64) -> (r: bool)
    ensures
        r == rule_marks(corpus.files@, key@, p@, q@, fuel as nat),
    decreases fuel,
{
    proof { reveal_strlit("Rule"); }
    let f = match lookup(corpus, key) {
        Some(f) => f,
        None => {
            return false;
        },
    };
    match f.sections.get("Rule") {
        Some(b) => {
            if lc_has_exec(b.as_str(), p) || lc_has_exec(b.as_str(), q) {
                return true;
            }
        },
        None => {},
    }
    if fuel == 0 {
        return false;
    }
    match first_at_path_inheritance(f) {
        Some(pp) => !same_text(pp.as_str(), key) && rule_marks_exec(corpus, pp.as_str(), p, q, fuel - 1),
        None => false,
    }
}

// ─── Ranks for concurrence ───────────────────────────────────────────

/// The rank of `key` in thousandths, 0 when it has none.
pub open spec fn rank_num(files: Map<Seq<char>, HorasFile>, key: Seq<char>) -> int {
    match active_rank(files, key, inherit_fuel()) {
        Some(x) => x.2,
        None => 0,
    }
}

/// The class field of `key`'s rank line, empty when it has none.
pub open spec fn rank_class(files: Map<Seq<char>, HorasFile>, key: Seq<char>) -> Seq<char> {
    match active_rank(files, key, inherit_fuel()) {
        Some(x) => x.1,
        None => Seq::empty(),
    }
}

fn rank_of(corpus: &HorasCorpus, key: &str) -> (r: (i64, String))
    ensures
        r.0 == rank_num(corpus.files@, key@),
        r.1@ == rank_class(corpus.files@, key@),
{
    match active_rank_line(corpus, key) {
        Some(x) => (x.rank, x.class),
        None => (0, String::new()),
    }
}

/// What follows `ex Sancti/` (or `ex sancti/`) on a trimmed line, up to
/// whitespace, `;` or `,`.
pub open spec fn ex_stem(t: Seq<char>) -> Seq<char> {
    let rest = t.subrange(10, t.len() as int);
    rest.subrange(0, stem_end(rest, 0))
}

/// The end of the stem starting at `rest[i]`.
pub open spec fn stem_end(rest: Seq<char>, i: int) -> int
    decreases rest.len() - i,
{
    if i < 0 || i >= rest.len() {
        rest.len() as int
    } else if crate::text::is_white(rest[i]) || rest[i] == ';' || rest[i] == ',' {
        i
    } else {
        stem_end(rest, i + 1)
    }
}

/// Whether a trimmed line is an `ex Sancti/` inheritance line.
pub open spec fn is_ex_sancti(t: Seq<char>) -> bool {
    has_prefix(t, "ex Sancti/"@) || has_prefix(t, "ex sancti/"@)
}

/// The `Sancti/` source of an `ex Sancti/…` `[Rule]`: the lines are read
/// from the first; a line that is not such a directive ends the search;
/// one with an empty stem is passed over.
pub open spec fn ex_source(ls: Seq<Seq<char>>, i: int) -> Option<Seq<char>>
    decreases ls.len() - i,
{
    if i < 0 || i >= ls.len() || !is_ex_sancti(trim_text(ls[i])) {
        None
    } else if ex_stem(trim_text(ls[i])).len() > 0 {
        Some("Sancti/"@ + ex_stem(trim_text(ls[i])))
    } else {
        ex_source(ls, i + 1)
    }
}

/// The `ex Sancti/` source of `key`'s own `[Rule]`.
pub open spec fn inherited_source(files: Map<Seq<char>, HorasFile>, key: Seq<char>) -> Option<Seq<char>> {
    match raw_section(files, key, "Rule"@) {
        Some(r) => ex_source(split_on(r, '\n'), 0),
        None => None,
    }
}

/// Whether some line of `ls[i..]`, trimmed, is an `ex Sancti/` line.
pub open spec fn any_ex_line(ls: Seq<Seq<char>>, i: int) -> bool
    decreases ls.len() - i,
{
    if i < 0 || i >= ls.len() { false } else { is_ex_sancti(trim_text(ls[i])) || any_ex_line(ls, i + 1) }
}

/// Whether `key`'s own `[Rule]` has an `ex Sancti/` line.
pub open spec fn inherits_ex_sancti(files: Map<Seq<char>, HorasFile>, key: Seq<char>) -> bool {
    match raw_section(files, key, "Rule"@) {
        Some(r) => any_ex_line(split_on(r, '\n'), 0),
        None => false,
    }
}

fn rule_lines(corpus: &HorasCorpus, key: &str) -> (r: Option<Vec<Vec<char>>>)
    ensures
        match r {
            Some(ls) => raw_section(corpus.files@, key@, "Rule"@) is Some
                && ls@.map_values(|x: Vec<char>| x@) == split_on(raw_section(corpus.files@, key@, "Rule"@)->0, '\n'),
            None => raw_section(corpus.files@, key@, "Rule"@) is None,
        },
{
    proof { reveal_strlit("Rule"); }
    match raw_section_exec(corpus, key, "Rule") {
        Some(r) => {
            let v = chars_of(r.as_str());
            Some(split_chars(&v, '\n'))
        },
        None => None,
    }
}

fn inherited_source_exec(corpus: &HorasCorpus, key: &str) -> (r: Option<String>)
    ensures
        match r {
            Some(t) => inherited_source(corpus.files@, key@) == Some(t@),
            None => inherited_source(corpus.files@, key@) is None,
        },
{
    proof { reveal_strlit("Rule"); reveal_strlit("Sancti/"); reveal_strlit("ex Sancti/"); reveal_strlit("ex sancti/"); }
    let lines = match rule_lines(corpus, key) {
        Some(ls) => ls,
        None => {
            return None;
        },
    };
    let ghost ls = lines@.map_values(|x: Vec<char>| x@);
    let mut i: usize = 0;
    while i < lines.len()
        invariant
            i <= lines@.len(),
            ls == lines@.map_values(|x: Vec<char>| x@),
            ex_source(ls, i as int) == inherited_source(corpus.files@, key@),
        decreases lines.len() - i,
    {
        assert(ls[i as int] == lines@[i as int]@);
        let t = trim_chars(&lines[i]);
        if !(starts_with_str(&t, "ex Sancti/") || starts_with_str(&t, "ex sancti/")) {
            return None;
        }
        proof { reveal_strlit("ex Sancti/"); reveal_strlit("ex sancti/"); }
        assert(t@.len() >= 10);
        let mut e: usize = 10;
        while e < t.len() && !(crate::text::is_white_char(t[e]) || t[e] == ';' || t[e] == ',')
            invariant
                10 <= e <= t@.len(),
                stem_end(t@.subrange(10, t@.len() as int), e - 10) == stem_end(t@.subrange(10, t@.len() as int), 0),
            decreases t.len() - e,
        {
            assert(t@.subrange(10, t@.len() as int)[e - 10] == t@[e as int]);
            e = e + 1;
        }
        proof {
            if e < t.len() {
                assert(t@.subrange(10, t@.len() as int)[e - 10] == t@[e as int]);
            }
            assert(t@.subrange(10, t@.len() as int).subrange(0, e - 10) =~= t@.subrange(10, e as int));
        }
        if e > 10 {
            let mut s = String::new();
            crate::text::push_str(&mut s, "Sancti/");
            crate::text::push_chars(&mut s, &t, 10, e);
            assert(s@ =~= "Sancti/"@ + ex_stem(t@));
            return Some(s);
        }
        i = i + 1;
    }
    None
}

fn inherits_ex_sancti_exec(corpus: &HorasCorpus, key: &str) -> (r: bool)
    ensures
        r == inherits_ex_sancti(corpus.files@, key@),
{
    proof { reveal_strlit("Rule"); }
    let lines = match rule_lines(corpus, key) {
        Some(ls) => ls,
        None => {
            return false;
        },
    };
    let ghost ls = lines@.map_values(|x: Vec<char>| x@);
    let mut i: usize = 0;
    while i < lines.len()
        invariant
            i <= lines@.len(),
            ls == lines@.map_values(|x: Vec<char>| x@),
            any_ex_line(ls, i as int) == inherits_ex_sancti(corpus.files@, key@),
        decreases lines.len() - i,
    {
        assert(ls[i as int] == lines@[i as int]@);
        let t = trim_chars(&lines[i]);
        if starts_with_str(&t, "ex Sancti/") || starts_with_str(&t, "ex sancti/") {
            return true;
        }
        i = i + 1;
    }
    false
}

/// Today's rank in concurrence: a pre-Divino-Afflatu Lent, Advent,
/// Septuagesima or Low Sunday yields its second Vespers (2.99 under the
/// Tridentine rubrics, 4.9 under Divino Afflatu); a day under 2 that
/// inherits `ex Sancti/…` takes its source's rank when higher.
pub open spec fn today_rank(files: Map<Seq<char>, HorasFile>, key: Seq<char>, rubric: Rubric) -> int {
    let direct = rank_num(files, key);
    if concedes_second_vespers(key) && (rubric is Tridentine1570 || rubric is Tridentine1910 || rubric is DivinoAfflatu1911) {
        let c = if rubric is DivinoAfflatu1911 { 4900 } else { 2990 };
        if direct < c { direct } else { c }
    } else if direct < 2000 && inherited_source(files, key) is Some
        && active_rank(files, inherited_source(files, key)->0, inherit_fuel()) is Some {
        let a = active_rank(files, inherited_source(files, key)->0, inherit_fuel())->0;
        let src = a.2;
        if direct >= src { direct } else { src }
    } else {
        direct
    }
}

/// Tomorrow's rank in concurrence: before 1955 a Semiduplex Sunday
/// (not within an octave) yields its first Vespers (2.9, or 4.9 under
/// Divino Afflatu).
pub open spec fn tomorrow_rank(files: Map<Seq<char>, HorasFile>, key: Seq<char>, rubric: Rubric) -> int {
    let direct = rank_num(files, key);
    let off = or_empty(inh_section(files, key, "Officium"@));
    if (rubric is Tridentine1570 || rubric is Tridentine1910 || rubric is DivinoAfflatu1911)
        && corpus_key(files, key) is Some
        && lc_has(off, "dominica"@) && !lc_has(off, "infra octavam"@)
        && lc_has(rank_class(files, key), "semiduplex"@) {
        let c = if rubric is DivinoAfflatu1911 { 4900 } else { 2900 };
        if direct < c { direct } else { c }
    } else {
        direct
    }
}

fn today_rank_exec(corpus: &HorasCorpus, key: &str, rubric: Rubric) -> (r: i64)
    ensures
        r == today_rank(corpus.files@, key@, rubric),
{
    let (direct, _) = rank_of(corpus, key);
    if is_pre_da_sunday_with_2v_concession(key) {
        match rubric {
            Rubric::Tridentine1570 | Rubric::Tridentine1910 => {
                return if direct < 2990 { direct } else { 2990 };
            },
            Rubric::DivinoAfflatu1911 => {
                return if direct < 4900 { direct } else { 4900 };
            },
            _ => {},
        }
    }
    if direct < 2000 {
        match inherited_source_exec(corpus, key) {
            Some(src) => match active_rank_line(corpus, src.as_str()) {
                Some(x) => {
                    return if direct >= x.rank { direct } else { x.rank };
                },
                None => {},
            },
            None => {},
        }
    }
    direct
}

fn tomorrow_rank_exec(corpus: &HorasCorpus, key: &str, rubric: Rubric) -> (r: i64)
    ensures
        r == tomorrow_rank(corpus.files@, key@, rubric),
{
    proof { reveal_strlit("Officium"); }
    let (direct, class) = rank_of(corpus, key);
    let cedes = match rubric {
        Rubric::Tridentine1570 | Rubric::Tridentine1910 | Rubric::DivinoAfflatu1911 => true,
        _ => false,
    };
    if !cedes || lookup(corpus, key).is_none() {
        return direct;
    }
    let off = match inh_section_exec(corpus, key, "Officium") {
        Some(t) => t,
        None => String::new(),
    };
    if !lc_has_exec(off.as_str(), "dominica") || lc_has_exec(off.as_str(), "infra octavam") {
        return direct;
    }
    if !lc_has_exec(class.as_str(), "semiduplex") {
        return direct;
    }
    let c: i64 = match rubric {
        Rubric::DivinoAfflatu1911 => 4900,
        _ => 2900,
    };
    if direct < c { direct } else { c }
}

/// The Tridentine flattening of today's rank.
pub open spec fn flrank(r: int) -> int {
    if r < 2900 { 2000 } else if (3000 <= r && r < 3900) || (4100 <= r && r < 4900) { 3000 } else { r }
}

/// The Tridentine flattening of tomorrow's rank.
pub open spec fn flcrank(r: int, dominica: bool) -> int {
    if r < 2910 {
        if r > 2000 { 2000 } else { r }
    } else if dominica {
        2990
    } else if r < 3900 || (4100 <= r && r < 4900) {
        3000
    } else {
        r
    }
}

pub fn flrank_trident(rank: i64) -> (r: i64)
    ensures
        r == flrank(rank as int),
{
    if rank < 2900 { 2000 } else if (3000 <= rank && rank < 3900) || (4100 <= rank && rank < 4900) { 3000 } else { rank }
}

pub fn flcrank_trident(rank: i64, cwinner_is_dominica: bool) -> (r: i64)
    ensures
        r == flcrank(rank as int, cwinner_is_dominica),
{
    if rank < 2910 {
        if rank > 2000 { 2000 } else { rank }
    } else if cwinner_is_dominica {
        2990
    } else if rank < 3900 || (4100 <= rank && rank < 4900) {
        3000
    } else {
        rank
    }
}

// ─── First Vespers ───────────────────────────────────────────────────

/// Whether tomorrow's rank and title make it a vigil with no first
/// Vespers (not the Vigil of the Epiphany, an octave day, a Sunday or a
/// Saturday of Our Lady).
pub open spec fn vigil_without_first_vespers(files: Map<Seq<char>, HorasFile>, key: Seq<char>) -> bool {
    let c = or_empty(inh_section(files, key, "Rank"@)) + seq!['\n'] + or_empty(inh_section(files, key, "Officium"@));
    corpus_key(files, key) is Some
        && lc_has(c, "vigilia"@) && !lc_has(c, "in vigilia epi"@) && !lc_has(c, "in octava"@)
        && !lc_has(c, "infra octavam"@) && !lc_has(c, "dominica"@) && !lc_has(c, "c10"@)
}

/// Whether the 1955 or 1960 rubrics deny tomorrow first Vespers for its
/// rank: under 1955 below 5; under 1960 below 6, or below 5 when it is a
/// Sunday or a feast of the Lord falling on Sunday (today Saturday).
pub open spec fn reduced_first_vespers_denied(files: Map<Seq<char>, HorasFile>, key: Seq<char>, rubric: Rubric, dow: int) -> bool {
    let r = rank_num(files, key);
    if rubric is Reduced1955 {
        r < 5000
    } else if rubric is Rubrics1960 {
        let dominica = match raw_section(files, key, "Officium"@) { Some(o) => lc_has(o, "dominica"@), None => false };
        let domini_sat = rule_marks(files, key, "festum domini"@, "festum domini"@, inherit_fuel()) && dow == 6;
        r < if dominica || domini_sat { 5000int } else { 6000int }
    } else {
        false
    }
}

/// Which office has Vespers this evening: `today_key` (its second
/// Vespers) or `tomorrow_key` (its first Vespers). The tests in order:
/// tomorrow marked "No prima vespera" keeps today; today marked "No
/// secunda Vespera" (not under 1960) gives tomorrow; a vigil tomorrow
/// keeps today; the 1955/1960 rank limits keep today; a privileged or
/// major feria tomorrow keeps today; within the Easter or Pentecost
/// octave today is kept unless tomorrow is a Sunday; a Sancti simplex,
/// memoria or commemoratio today (rank under 2, not inheriting `ex
/// Sancti/`) gives tomorrow; a feast of the Lord tomorrow gives
/// tomorrow; before Divino Afflatu an octave day tomorrow against a
/// Sancti today, both under 2.9, gives tomorrow; under the Tridentine
/// rubrics two Sancti days with equal flattened ranks give tomorrow;
/// otherwise the higher concurrence rank, tomorrow on a tie.
pub open spec fn first_vespers_key(files: Map<Seq<char>, HorasFile>, today: Seq<char>, tomorrow: Seq<char>, rubric: Rubric, dow: int) -> Seq<char> {
    let tr = today_rank(files, today, rubric);
    let cr = tomorrow_rank(files, tomorrow, rubric);
    if no_first_vespers(files, tomorrow) {
        today
    } else if no_second_vespers(files, today, rubric) {
        tomorrow
    } else if vigil_without_first_vespers(files, tomorrow) {
        today
    } else if reduced_first_vespers_denied(files, tomorrow, rubric, dow) {
        today
    } else if privileged_feria(files, tomorrow) {
        today
    } else if paschal_octave_kept(files, today, tomorrow) {
        today
    } else if simple_sancti(files, today) {
        tomorrow
    } else if feast_of_the_lord(files, tomorrow) {
        tomorrow
    } else if octave_a_capitulo(today, tomorrow, rubric, tr, cr) {
        tomorrow
    } else if equal_flattened(files, today, tomorrow, rubric, tr, cr) {
        tomorrow
    } else if tr > cr {
        today
    } else {
        tomorrow
    }
}

/// Tomorrow's `[Rule]` says "No prima vespera" (or "No first vespers").
pub open spec fn no_first_vespers(files: Map<Seq<char>, HorasFile>, tomorrow: Seq<char>) -> bool {
    rule_marks(files, tomorrow, "no prima vespera"@, "no first vespers"@, inherit_fuel())
}

/// Today's `[Rule]` says "No secunda Vespera" (not heeded under 1960).
pub open spec fn no_second_vespers(files: Map<Seq<char>, HorasFile>, today: Seq<char>, rubric: Rubric) -> bool {
    !(rubric is Rubrics1960) && corpus_key(files, today) is Some
        && lc_has(or_empty(inh_section(files, today, "Rule"@)), "no secunda vespera"@)
}

/// Tomorrow is a privileged or major feria.
pub open spec fn privileged_feria(files: Map<Seq<char>, HorasFile>, tomorrow: Seq<char>) -> bool {
    active_rank(files, tomorrow, inherit_fuel()) is Some
        && (lc_has(rank_class(files, tomorrow), "feria privilegiata"@) || lc_has(rank_class(files, tomorrow), "feria major"@))
}

/// Today is in the Easter or Pentecost octave and tomorrow's own
/// `[Rank]` names no Sunday.
pub open spec fn paschal_octave_kept(files: Map<Seq<char>, HorasFile>, today: Seq<char>, tomorrow: Seq<char>) -> bool {
    (has_prefix(today, "Tempora/Pasc0-"@) || has_prefix(today, "Tempora/Pasc7-"@))
        && !(match raw_section(files, tomorrow, "Rank"@) { Some(b) => lc_has(b, "dominica"@), None => false })
}

/// Today is a Sancti day of rank under 2 or of class simplex, memoria
/// or commemoratio, with no `ex Sancti/` inheritance.
pub open spec fn simple_sancti(files: Map<Seq<char>, HorasFile>, today: Seq<char>) -> bool {
    has_prefix(today, "Sancti/"@) && active_rank(files, today, inherit_fuel()) is Some
        && (rank_num(files, today) < 2000 || lc_has(rank_class(files, today), "simplex"@)
            || lc_has(rank_class(files, today), "memoria"@) || lc_has(rank_class(files, today), "commemoratio"@))
        && !inherits_ex_sancti(files, today)
}

/// Tomorrow's `[Rule]` marks a feast of the Lord.
pub open spec fn feast_of_the_lord(files: Map<Seq<char>, HorasFile>, tomorrow: Seq<char>) -> bool {
    rule_marks(files, tomorrow, "festum domini"@, "festum domini"@, inherit_fuel())
}

/// Before Divino Afflatu: a Sancti octave day tomorrow against a Sancti
/// day today, both under 2.9.
pub open spec fn octave_a_capitulo(today: Seq<char>, tomorrow: Seq<char>, rubric: Rubric, tr: int, cr: int) -> bool {
    (rubric is Tridentine1570 || rubric is Tridentine1910 || rubric is DivinoAfflatu1911)
        && has_prefix(tomorrow, "Sancti/"@) && crate::text::has_suffix(tomorrow, "oct"@) && has_prefix(today, "Sancti/"@)
        && tr < 2900 && cr < 2900
}

/// Under the Tridentine rubrics: two Sancti days whose flattened ranks
/// are equal.
pub open spec fn equal_flattened(files: Map<Seq<char>, HorasFile>, today: Seq<char>, tomorrow: Seq<char>, rubric: Rubric, tr: int, cr: int) -> bool {
    (rubric is Tridentine1570 || rubric is Tridentine1910)
        && has_prefix(today, "Sancti/"@) && has_prefix(tomorrow, "Sancti/"@)
        && flrank(tr) == flcrank(cr, lc_has(or_empty(inh_section(files, tomorrow, "Officium"@)), "dominica"@))
}

fn no_second_vespers_exec(corpus: &HorasCorpus, today_key: &str, rubric: Rubric) -> (r: bool)
    ensures
        r == no_second_vespers(corpus.files@, today_key@, rubric),
{
    proof { reveal_strlit("Rule"); }
    let is_1960 = match rubric { Rubric::Rubrics1960 => true, _ => false };
    if is_1960 || lookup(corpus, today_key).is_none() {
        return false;
    }
    let rule = match inh_section_exec(corpus, today_key, "Rule") { Some(t) => t, None => String::new() };
    lc_has_exec(rule.as_str(), "no secunda vespera")
}

fn vigil_exec(corpus: &HorasCorpus, key: &str) -> (r: bool)
    ensures
        r == vigil_without_first_vespers(corpus.files@, key@),
{
    proof { reveal_strlit("Rank"); reveal_strlit("Officium"); }
    if lookup(corpus, key).is_none() {
        return false;
    }
    let mut c = match inh_section_exec(corpus, key, "Rank") { Some(t) => t, None => String::new() };
    crate::text::push_char(&mut c, '\n');
    let off = match inh_section_exec(corpus, key, "Officium") { Some(t) => t, None => String::new() };
    crate::text::push_str(&mut c, off.as_str());
    assert(c@ =~= or_empty(inh_section(corpus.files@, key@, "Rank"@)) + seq!['\n']
        + or_empty(inh_section(corpus.files@, key@, "Officium"@)));
    let cs = c.as_str();
    lc_has_exec(cs, "vigilia") && !lc_has_exec(cs, "in vigilia epi") && !lc_has_exec(cs, "in octava")
        && !lc_has_exec(cs, "infra octavam") && !lc_has_exec(cs, "dominica") && !lc_has_exec(cs, "c10")
}

fn reduced_denied_exec(corpus: &HorasCorpus, key: &str, rubric: Rubric, dow: u32) -> (r: bool)
    ensures
        r == reduced_first_vespers_denied(corpus.files@, key@, rubric, dow as int),
{
    proof { reveal_strlit("Officium"); }
    let (crank, _) = rank_of(corpus, key);
    match rubric {
        Rubric::Reduced1955 => crank < 5000,
        Rubric::Rubrics1960 => {
            let dominica = match raw_section_exec(corpus, key, "Officium") {
                Some(o) => lc_has_exec(o.as_str(), "dominica"),
                None => false,
            };
            let domini_sat = rule_marks_exec(corpus, key, "festum domini", "festum domini", 8) && dow == 6;
            crank < if dominica || domini_sat { 5000 } else { 6000 }
        },
        _ => false,
    }
}

fn privileged_feria_exec(corpus: &HorasCorpus, key: &str) -> (r: bool)
    ensures
        r == privileged_feria(corpus.files@, key@),
{
    match active_rank_line(corpus, key) {
        Some(x) => lc_has_exec(x.class.as_str(), "feria privilegiata") || lc_has_exec(x.class.as_str(), "feria major"),
        None => false,
    }
}

fn paschal_octave_exec(corpus: &HorasCorpus, today_key: &str, tomorrow_key: &str) -> (r: bool)
    ensures
        r == paschal_octave_kept(corpus.files@, today_key@, tomorrow_key@),
{
    proof { reveal_strlit("Rank"); }
    let tv = chars_of(today_key);
    if !(starts_with_str(&tv, "Tempora/Pasc0-") || starts_with_str(&tv, "Tempora/Pasc7-")) {
        return false;
    }
    let sunday = match raw_section_exec(corpus, tomorrow_key, "Rank") {
        Some(b) => lc_has_exec(b.as_str(), "dominica"),
        None => false,
    };
    !sunday
}

fn simple_sancti_exec(corpus: &HorasCorpus, key: &str) -> (r: bool)
    ensures
        r == simple_sancti(corpus.files@, key@),
{
    let v = chars_of(key);
    if !starts_with_str(&v, "Sancti/") {
        return false;
    }
    match active_rank_line(corpus, key) {
        Some(x) => {
            let cl = x.class.as_str();
            let low = x.rank < 2000 || lc_has_exec(cl, "simplex") || lc_has_exec(cl, "memoria")
                || lc_has_exec(cl, "commemoratio");
            low && !inherits_ex_sancti_exec(corpus, key)
        },
        None => false,
    }
}

fn octave_a_capitulo_exec(today_key: &str, tomorrow_key: &str, rubric: Rubric, tr: i64, cr: i64) -> (r: bool)
    ensures
        r == octave_a_capitulo(today_key@, tomorrow_key@, rubric, tr as int, cr as int),
{
    let pre_da = match rubric {
        Rubric::Tridentine1570 | Rubric::Tridentine1910 | Rubric::DivinoAfflatu1911 => true,
        _ => false,
    };
    let tv = chars_of(today_key);
    let nv = chars_of(tomorrow_key);
    pre_da && starts_with_str(&nv, "Sancti/") && crate::text::ends_with_str(&nv, "oct")
        && starts_with_str(&tv, "Sancti/") && tr < 2900 && cr < 2900
}

fn equal_flattened_exec(corpus: &HorasCorpus, today_key: &str, tomorrow_key: &str, rubric: Rubric, tr: i64, cr: i64) -> (r: bool)
    ensures
        r == equal_flattened(corpus.files@, today_key@, tomorrow_key@, rubric, tr as int, cr as int),
{
    proof { reveal_strlit("Officium"); }
    let trident = match rubric {
        Rubric::Tridentine1570 | Rubric::Tridentine1910 => true,
        _ => false,
    };
    let tv = chars_of(today_key);
    let nv = chars_of(tomorrow_key);
    if !(trident && starts_with_str(&tv, "Sancti/") && starts_with_str(&nv, "Sancti/")) {
        return false;
    }
    let off = match inh_section_exec(corpus, tomorrow_key, "Officium") { Some(t) => t, None => String::new() };
    let dom = lc_has_exec(off.as_str(), "dominica");
    flrank_trident(tr) == flcrank_trident(cr, dom)
}

/// Which office has Vespers this evening (see [`first_vespers_key`]).
pub fn first_vespers_day_key_for_rubric(corpus: &HorasCorpus, today_key: &str, tomorrow_key: &str, rubric: Rubric, today_dow: u32) -> (r: String)
    ensures
        r@ == first_vespers_key(corpus.files@, today_key@, tomorrow_key@, rubric, today_dow as int),
        r@ == today_key@ || r@ == tomorrow_key@,
{
    let today = crate::text::owned(today_key);
    let tomorrow = crate::text::owned(tomorrow_key);
    let tr = today_rank_exec(corpus, today_key, rubric);
    let cr = tomorrow_rank_exec(corpus, tomorrow_key, rubric);
    if rule_marks_exec(corpus, tomorrow_key, "no prima vespera", "no first vespers", 8) {
        today
    } else if no_second_vespers_exec(corpus, today_key, rubric) {
        tomorrow
    } else if vigil_exec(corpus, tomorrow_key) {
        today
    } else if reduced_denied_exec(corpus, tomorrow_key, rubric, today_dow) {
        today
    } else if privileged_feria_exec(corpus, tomorrow_key) {
        today
    } else if paschal_octave_exec(corpus, today_key, tomorrow_key) {
        today
    } else if simple_sancti_exec(corpus, today_key) {
        tomorrow
    } else if rule_marks_exec(corpus, tomorrow_key, "festum domini", "festum domini", 8) {
        tomorrow
    } else if octave_a_capitulo_exec(today_key, tomorrow_key, rubric, tr, cr) {
        tomorrow
    } else if equal_flattened_exec(corpus, today_key, tomorrow_key, rubric, tr, cr) {
        tomorrow
    } else if tr > cr {
        today
    } else {
        tomorrow
    }
}

/// Which office has Vespers this evening under the 1570 rubrics on a
/// Monday (see [`first_vespers_day_key_for_rubric`]).
pub fn first_vespers_day_key(corpus: &HorasCorpus, today_key: &str, tomorrow_key: &str) -> (r: String)
    ensures
        r@ == first_vespers_key(corpus.files@, today_key@, tomorrow_key@, Rubric::Tridentine1570, 1),
        r@ == today_key@ || r@ == tomorrow_key@,
{
    first_vespers_day_key_for_rubric(corpus, today_key, tomorrow_key, Rubric::Tridentine1570, 1)
}

// ─── The ferial preces ───────────────────────────────────────────────

/// Whether a text names an octave (and not "post octav…").
pub open spec fn octave_named(t: Seq<char>) -> bool {
    lc_has(t, "octav"@) && !lc_has(t, "post octav"@)
}

/// The rank a kalendar cell gives, 0 when its rank field is no rank.
pub open spec fn cell_rank(c: Cell) -> int {
    match rank_value(trim_text(c.rank@)) {
        Some(v) => v,
        None => 0,
    }
}

/// Whether a kalendar cell of the day rules the preces out: it names an
/// octave, or the higher of its kalendar rank and its Sancti file's
/// rank reaches `limit`.
pub open spec fn cell_blocks(files: Map<Seq<char>, HorasFile>, c: Cell, limit: int) -> bool {
    let fr = rank_num(files, "Sancti/"@ + c.stem@);
    let kr = cell_rank(c);
    octave_named(c.officium@) || (if kr >= fr { kr } else { fr }) >= limit
}

/// Whether some cell of `cells[i..]` rules the preces out.
pub open spec fn cells_block(files: Map<Seq<char>, HorasFile>, cells: Seq<Cell>, i: int, limit: int) -> bool
    decreases cells.len() - i,
{
    if i < 0 || i >= cells.len() { false } else { cell_blocks(files, cells[i], limit) || cells_block(files, cells, i + 1, limit) }
}

/// The duplex class of a rank class: 2 for a semiduplex, 3 for a duplex
/// or an empty class, 1 otherwise.
pub open spec fn duplex_class(c: Seq<char>) -> int {
    if c.len() == 0 { 3 } else if lc_has(c, "semiduplex"@) { 2 } else if lc_has(c, "duplex"@) { 3 } else { 1 }
}

/// The whole rank line of `key`, empty when it has none.
pub open spec fn rank_line_text(files: Map<Seq<char>, HorasFile>, key: Seq<char>) -> Seq<char> {
    match active_rank(files, key, inherit_fuel()) {
        Some(x) => x.0,
        None => Seq::empty(),
    }
}

/// Whether the rubric is one before 1955.
pub open spec fn pre_1955(rubric: Rubric) -> bool {
    rubric is Tridentine1570 || rubric is Tridentine1910 || rubric is DivinoAfflatu1911
}

/// Whether the kalendar of the rubric's layer rules the preces out for
/// the day: an octave named, or a feast of rank 7 (Tridentine) or 3
/// (otherwise) or more.
pub open spec fn kalendar_blocks(files: Map<Seq<char>, HorasFile>, table: KalendariaTable, rubric: Rubric, month: int, day: int) -> bool {
    let l = layer_of_rubric(rubric);
    let limit: int = if rubric is Tridentine1570 || rubric is Tridentine1910 { 7000 } else { 3000 };
    table_has(&table, l, mm_dd(month, day))
        && cells_block(files, table.layers@[layer_key(l)].days@[mm_dd(month, day)]@, 0, limit)
}

/// Whether the ferial preces (Dominicales et Feriales) are said at
/// `hour` of the office `key`. They are not when the day has an octave
/// commemoration (a `Sancti/MM-DDoct` file); when the kalendar rules
/// them out (see [`kalendar_blocks`]); within the Christmas octave when
/// that day's Tempora file names the octave; in Paschaltide after the
/// Ascension octave and in the Pentecost octave; at Saturday Vespers;
/// in the Office of Our Lady (`/C12`); when the office's file is
/// missing, its `[Rule]` says to omit the preces, it has no rank line,
/// it is of duplex class, or its rank line or `[Officium]` names an
/// octave; from 1955 on except on Wednesdays and Fridays. Otherwise
/// they are said for a Sancti, Tempora or Commune office.
pub open spec fn preces_fire(files: Map<Seq<char>, HorasFile>, table: KalendariaTable, key: Seq<char>, rubric: Rubric, hour: Seq<char>, dow: int, month: int, day: int) -> bool {
    let oct = "Sancti/"@ + mm_dd(month, day) + "oct"@;
    let nk = "Tempora/Nat"@ + pad_int(day, 2);
    let rl = active_rank(files, key, inherit_fuel());
    if corpus_key(files, oct) is Some {
        false
    } else if kalendar_blocks(files, table, rubric, month, day) {
        false
    } else if month == 12 && 26 <= day <= 31 && corpus_key(files, nk) is Some
        && octave_named(or_empty(inh_section(files, nk, "Officium"@))) {
        false
    } else if has_prefix(key, "Tempora/Pasc6-"@) || has_prefix(key, "Tempora/Pasc7-"@) {
        false
    } else if dow == 6 && (hour == "Vespera"@ || hour == "Vesperae"@) {
        false
    } else if contains_seq(key, "/C12"@) {
        false
    } else if corpus_key(files, key) is None {
        false
    } else if lc_has(or_empty(inh_section(files, key, "Rule"@)), "omit"@) && lc_has(or_empty(inh_section(files, key, "Rule"@)), "preces"@) {
        false
    } else if rl is None {
        false
    } else if duplex_class(rank_class(files, key)) > 2 || octave_named(rank_line_text(files, key)) {
        false
    } else if octave_named(or_empty(inh_section(files, key, "Officium"@))) {
        false
    } else if !pre_1955(rubric) && !(dow == 3 || dow == 5) {
        false
    } else {
        has_prefix(key, "Sancti/"@) || has_prefix(key, "Tempora/"@) || has_prefix(key, "Commune/"@)
    }
}

fn octave_named_exec(t: &str) -> (r: bool)
    ensures
        r == octave_named(t@),
{
    lc_has_exec(t, "octav") && !lc_has_exec(t, "post octav")
}

fn cells_block_exec(corpus: &HorasCorpus, cells: &Vec<Cell>, limit: i64) -> (r: bool)
    ensures
        r == cells_block(corpus.files@, cells@, 0, limit as int),
{
    let mut i: usize = 0;
    while i < cells.len()
        invariant
            i <= cells@.len(),
            cells_block(corpus.files@, cells@, i as int, limit as int) == cells_block(corpus.files@, cells@, 0, limit as int),
        decreases cells.len() - i,
    {
        let c = &cells[i];
        if octave_named_exec(c.officium.as_str()) {
            return true;
        }
        let rv = chars_of(c.rank.as_str());
        let kr: i64 = match parse_rank(&trim_chars(&rv)) {
            Some(v) => v,
            None => 0,
        };
        let mut path = String::new();
        crate::text::push_str(&mut path, "Sancti/");
        crate::text::push_str(&mut path, c.stem.as_str());
        proof { reveal_strlit("Sancti/"); }
        let (fr, _) = rank_of(corpus, path.as_str());
        let m = if kr >= fr { kr } else { fr };
        if m >= limit {
            return true;
        }
        i = i + 1;
    }
    false
}

/// Whether the ferial preces are said (see [`preces_fire`]).
pub fn preces_dominicales_et_feriales_fires(corpus: &HorasCorpus, table: &KalendariaTable, day_key: &str, rubric: Rubric, hour: &str, dayofweek: u32, month: u32, day: u32) -> (r: bool)
    ensures
        r == preces_fire(corpus.files@, *table, day_key@, rubric, hour@, dayofweek as int, month as int, day as int),
{
    proof {
        reveal_strlit("Sancti/"); reveal_strlit("oct"); reveal_strlit("Tempora/Nat"); reveal_strlit("Officium");
        reveal_strlit("Rule");
    }
    let mut oct = String::new();
    crate::text::push_str(&mut oct, "Sancti/");
    crate::text::push_pad_int(&mut oct, month as i64, 2);
    crate::text::push_char(&mut oct, '-');
    crate::text::push_pad_int(&mut oct, day as i64, 2);
    crate::text::push_str(&mut oct, "oct");
    assert(oct@ =~= "Sancti/"@ + mm_dd(month as int, day as int) + "oct"@);
    if lookup(corpus, oct.as_str()).is_some() {
        return false;
    }
    let layer = rubric.kalendar_layer();
    match crate::kalendaria_layers::lookup(table, layer, month, day) {
        Some(cells) => {
            let limit: i64 = match rubric {
                Rubric::Tridentine1570 | Rubric::Tridentine1910 => 7000,
                _ => 3000,
            };
            if cells_block_exec(corpus, cells, limit) {
                return false;
            }
        },
        None => {},
    }
    if month == 12 && 26 <= day && day <= 31 {
        let mut nk = String::new();
        crate::text::push_str(&mut nk, "Tempora/Nat");
        crate::text::push_pad_int(&mut nk, day as i64, 2);
        if lookup(corpus, nk.as_str()).is_some() {
            let off = match inh_section_exec(corpus, nk.as_str(), "Officium") { Some(t) => t, None => String::new() };
            if octave_named_exec(off.as_str()) {
                return false;
            }
        }
    }
    let kv = chars_of(day_key);
    if starts_with_str(&kv, "Tempora/Pasc6-") || starts_with_str(&kv, "Tempora/Pasc7-") {
        return false;
    }
    if dayofweek == 6 && (same_text(hour, "Vespera") || same_text(hour, "Vesperae")) {
        return false;
    }
    if contains_str(&kv, "/C12") {
        return false;
    }
    if lookup(corpus, day_key).is_none() {
        return false;
    }
    let rule = match inh_section_exec(corpus, day_key, "Rule") { Some(t) => t, None => String::new() };
    if lc_has_exec(rule.as_str(), "omit") && lc_has_exec(rule.as_str(), "preces") {
        return false;
    }
    let rl = match active_rank_line(corpus, day_key) {
        Some(x) => x,
        None => {
            return false;
        },
    };
    let cl = rl.class.as_str();
    let dc: u8 = if cl.is_empty() { 3 } else if lc_has_exec(cl, "semiduplex") { 2 } else if lc_has_exec(cl, "duplex") { 3 } else { 1 };
    if dc > 2 || octave_named_exec(rl.line.as_str()) {
        return false;
    }
    let off = match inh_section_exec(corpus, day_key, "Officium") { Some(t) => t, None => String::new() };
    if octave_named_exec(off.as_str()) {
        return false;
    }
    let pre = match rubric {
        Rubric::Tridentine1570 | Rubric::Tridentine1910 | Rubric::DivinoAfflatu1911 => true,
        _ => false,
    };
    if !pre && !(dayofweek == 3 || dayofweek == 5) {
        return false;
    }
    starts_with_str(&kv, "Sancti/") || starts_with_str(&kv, "Tempora/") || starts_with_str(&kv, "Commune/")
}

// ─── The hour of a day ───────────────────────────────────────────────

/// The commune chain of the args' day key (none without one).
pub open spec fn day_chain(files: Map<Seq<char>, HorasFile>, args: OfficeArgs) -> Seq<HorasFile> {
    match args.day_key {
        Some(k) => chain_for(files, k@),
        None => Seq::empty(),
    }
}

/// Whether the preces are said at the args' hour of their day (never
/// without a day key).
pub open spec fn day_preces(files: Map<Seq<char>, HorasFile>, table: KalendariaTable, args: OfficeArgs) -> bool {
    match args.day_key {
        Some(k) => preces_fire(files, table, k@, args.rubric, args.hour@,
            crate::date::dow(args.day as int, args.month as int, args.year as int), args.month as int, args.day as int),
        None => false,
    }
}

/// Renders the hour `args` names: the day key's commune chain is built
/// (see [`chain_for`]) and the preces decided (see [`preces_fire`]),
/// then the Ordinarium template is walked (see
/// [`render_office_hour`]). Nothing is rendered when the corpus has no
/// Ordinarium file for the hour.
pub fn compute_office_hour(corpus: &HorasCorpus, table: &KalendariaTable, args: &OfficeArgs) -> (r: Vec<RenderedLine>)
    requires
        args.day_key is Some ==> 1 <= args.month <= 12 && args.day <= u32::MAX - 366,
        args.day_key is Some && (args.rubric is Reduced1955 || args.rubric is Rubrics1960 || args.hour@ == "Vespera"@)
            ==> crate::date::getweek_domain(args.day as int, args.month as int, args.year as int, false),
    ensures
        views(r@) == office_hour(corpus.files@, setting_of(corpus.files@, *args,
            day_chain(corpus.files@, *args), day_preces(corpus.files@, *table, *args))),
{
    match args.day_key {
        Some(k) => {
            let chain = commune_chain(corpus, k);
            let dow = crate::date::day_of_week(args.day, args.month, args.year);
            let preces = preces_dominicales_et_feriales_fires(corpus, table, k, args.rubric, args.hour, dow, args.month, args.day);
            render_office_hour(corpus, args, chain.as_slice(), preces)
        },
        None => {
            let chain: Vec<&HorasFile> = Vec::new();
            assert(chain_files(chain@) =~= Seq::<HorasFile>::empty());
            render_office_hour(corpus, args, chain.as_slice(), false)
        },
    }
}

// ─── Laws of concurrence and of the preces ───────────────────────────

/// Concurrence of two offices that no special rule decides goes by
/// rank: today keeps its second Vespers only when its concurrence rank
/// is strictly higher than tomorrow's; on a tie, and when tomorrow is
/// higher, Vespers is of tomorrow.
pub proof fn lemma_concurrence_by_rank(files: Map<Seq<char>, HorasFile>, today: Seq<char>, tomorrow: Seq<char>, rubric: Rubric, dow: int)
    requires
        !no_first_vespers(files, tomorrow),
        !no_second_vespers(files, today, rubric),
        !vigil_without_first_vespers(files, tomorrow),
        !reduced_first_vespers_denied(files, tomorrow, rubric, dow),
        !privileged_feria(files, tomorrow),
        !paschal_octave_kept(files, today, tomorrow),
        !simple_sancti(files, today),
        !feast_of_the_lord(files, tomorrow),
        !octave_a_capitulo(today, tomorrow, rubric, today_rank(files, today, rubric), tomorrow_rank(files, tomorrow, rubric)),
        !equal_flattened(files, today, tomorrow, rubric, today_rank(files, today, rubric), tomorrow_rank(files, tomorrow, rubric)),
    ensures
        today_rank(files, today, rubric) > tomorrow_rank(files, tomorrow, rubric)
            ==> first_vespers_key(files, today, tomorrow, rubric, dow) == today,
        today_rank(files, today, rubric) <= tomorrow_rank(files, tomorrow, rubric)
            ==> first_vespers_key(files, today, tomorrow, rubric, dow) == tomorrow,
{
}

/// Before 1955, for a Sancti office that nothing else excludes (no
/// octave in its rank line, `[Officium]` or the kalendar, no rule
/// omitting the preces, not Saturday Vespers), the ferial preces follow
/// the class of its rank line: a Semiduplex, Simplex or other
/// non-duplex office has them, a Duplex office has none.
pub proof fn lemma_preces_follow_the_class(files: Map<Seq<char>, HorasFile>, table: KalendariaTable, key: Seq<char>, rubric: Rubric, hour: Seq<char>, dow: int, month: int, day: int)
    requires
        pre_1955(rubric),
        has_prefix(key, "Sancti/"@),
        corpus_key(files, key) is Some,
        active_rank(files, key, inherit_fuel()) is Some,
        corpus_key(files, "Sancti/"@ + mm_dd(month, day) + "oct"@) is None,
        !kalendar_blocks(files, table, rubric, month, day),
        !(month == 12 && 26 <= day <= 31),
        !(dow == 6 && (hour == "Vespera"@ || hour == "Vesperae"@)),
        !contains_seq(key, "/C12"@),
        !(lc_has(or_empty(inh_section(files, key, "Rule"@)), "omit"@) && lc_has(or_empty(inh_section(files, key, "Rule"@)), "preces"@)),
        !octave_named(rank_line_text(files, key)),
        !octave_named(or_empty(inh_section(files, key, "Officium"@))),
    ensures
        lc_has(rank_class(files, key), "semiduplex"@) ==> preces_fire(files, table, key, rubric, hour, dow, month, day),
        rank_class(files, key).len() > 0 && !lc_has(rank_class(files, key), "duplex"@)
            ==> preces_fire(files, table, key, rubric, hour, dow, month, day),
        lc_has(rank_class(files, key), "duplex"@) && !lc_has(rank_class(files, key), "semiduplex"@)
            ==> !preces_fire(files, table, key, rubric, hour, dow, month, day),
{
    reveal_strlit("Sancti/");
    reveal_strlit("Tempora/Pasc6-");
    reveal_strlit("Tempora/Pasc7-");
    assert(key.subrange(0, 7)[0] == 'S');
    assert(key[0] == 'S');
    let c = rank_class(files, key);
    reveal_strlit("semiduplex");
    if lc_has(c, "semiduplex"@) {
        let i = choose|i: int| occurs_at(ascii_lower(c), "semiduplex"@, i);
        assert(ascii_lower(c).len() == c.len());
        assert(c.len() > 0);
    }
    assert(!has_prefix(key, "Tempora/Pasc6-"@)) by {
        if has_prefix(key, "Tempora/Pasc6-"@) {
            assert(key.subrange(0, 14)[0] == 'T');
        }
    }
    assert(!has_prefix(key, "Tempora/Pasc7-"@)) by {
        if has_prefix(key, "Tempora/Pasc7-"@) {
            assert(key.subrange(0, 14)[0] == 'T');
        }
    }
}

/// What said preces imply: the office exists and has a rank line of no
/// duplex class and with no octave; it is not in the Ascension or
/// Pentecost weeks, not the Office of Our Lady, not Saturday Vespers;
/// from 1955 on the day is a Wednesday or a Friday.
pub proof fn lemma_preces_conditions(files: Map<Seq<char>, HorasFile>, table: KalendariaTable, key: Seq<char>, rubric: Rubric, hour: Seq<char>, dow: int, month: int, day: int)
    requires
        preces_fire(files, table, key, rubric, hour, dow, month, day),
    ensures
        corpus_key(files, key) is Some,
        active_rank(files, key, inherit_fuel()) is Some,
        rank_class(files, key).len() > 0,
        !(lc_has(rank_class(files, key), "duplex"@) && !lc_has(rank_class(files, key), "semiduplex"@)),
        !octave_named(rank_line_text(files, key)),
        !has_prefix(key, "Tempora/Pasc6-"@) && !has_prefix(key, "Tempora/Pasc7-"@),
        !contains_seq(key, "/C12"@),
        !(dow == 6 && hour == "Vespera"@),
        pre_1955(rubric) || dow == 3 || dow == 5,
        has_prefix(key, "Sancti/"@) || has_prefix(key, "Tempora/"@) || has_prefix(key, "Commune/"@),
{
}

} // verus!
