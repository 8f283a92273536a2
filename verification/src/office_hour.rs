//! The walk over an Ordinarium hour template: each template line
//! becomes a rendered line, and each `#Section` slot receives the day's
//! proper from the commune chain (at Matins, the lessons with their
//! responsories and the nocturns' antiphons).
//!
//! Template lines are walked as the file stores them. A spliced body
//! follows whole-body `@path[:section]` redirects to the bare section
//! of the named file; `(sed rubrica …)` conditions inside bodies and
//! templates are not evaluated, rubric-tagged section variants are not
//! chosen, and a redirect with a substitution part is kept as written.
//! The commune chain is an argument here; `crate::office_day` builds
//! it from the day key.

use vstd::prelude::*;
use crate::core_types::Rubric;
use crate::data_types::{HorasFile, OrdoLine};
use crate::horas::{
    chunk_fold, corpus_key, dollar_macro, dollar_macros_in_body, expand_dollar_macro,
    expand_dollar_macros_in_body, is_minor_hour, lookup, lookup_horas_macro, macro_text,
    office_spelling, apply_office_spelling, ordinarium_file_for_hour, preces_form_text,
    dominus_vobiscum_preces_form, slot_candidates, slot_names, substitute_saint_name,
    take_first_oratio_chunk, with_saint_name, HorasCorpus, OfficeArgs,
    antiphon_lines, lectio_fold, te_deum_split, parse_antiphon_lines, rule_lectio_count,
    strip_te_deum_directive, lookup_te_deum_body,
};
use crate::office_day::{active_rank, inh_section, inherit_fuel, lc_has, lc_has_exec, or_empty, rank_line_text};
use crate::horas::{inherited_section, split_pat, sunday_fallback, tempora_sunday_fallback, week_sunday_key};
use crate::text::{
    ascii_lower, contains_seq, contains_str,
    chars_of, has_prefix, index_from, nat_str, owned, push_nat, push_str, same_text, split_chars, split_on, starts_with_str,
    string_of, trim_chars, trim_text,
};

verus! {

// ─── Rendered lines ──────────────────────────────────────────────────

/// One line of a rendered hour.
#[derive(Debug, Clone, PartialEq, Eq)]
pub enum RenderedLine {
    /// A `#Section` slot marker.
    Section { label: String },
    /// A rubric, with its level (1 for the notes that the rubrics
    /// toggle hides).
    Rubric { body: String, level: u8 },
    /// A `V.`/`R.`-style spoken line.
    Spoken { role: String, body: String },
    /// Plain text.
    Plain { body: String },
    /// An expanded `&macro`.
    Macro { name: String, body: String },
    /// A proper or hook slot that the walker leaves for later.
    Proper { section: String },
}

/// The text of a rendered line.
pub enum RenderedView {
    Section { label: Seq<char> },
    Rubric { body: Seq<char>, level: u8 },
    Spoken { role: Seq<char>, body: Seq<char> },
    Plain { body: Seq<char> },
    Macro { name: Seq<char>, body: Seq<char> },
    Proper { section: Seq<char> },
}

impl View for RenderedLine {
    type V = RenderedView;

    open spec fn view(&self) -> RenderedView {
        match self {
            RenderedLine::Section { label } => RenderedView::Section { label: label@ },
            RenderedLine::Rubric { body, level } => RenderedView::Rubric { body: body@, level: *level },
            RenderedLine::Spoken { role, body } => RenderedView::Spoken { role: role@, body: body@ },
            RenderedLine::Plain { body } => RenderedView::Plain { body: body@ },
            RenderedLine::Macro { name, body } => RenderedView::Macro { name: name@, body: body@ },
            RenderedLine::Proper { section } => RenderedView::Proper { section: section@ },
        }
    }
}

/// The texts of rendered lines.
pub open spec fn views(v: Seq<RenderedLine>) -> Seq<RenderedView> {
    v.map_values(|l: RenderedLine| l@)
}

proof fn lemma_views_push(v: Seq<RenderedLine>, l: RenderedLine)
    ensures
        views(v.push(l)) == views(v).push(l@),
{
    assert(views(v.push(l)) =~= views(v).push(l@));
}

/// The files of a chain.
pub open spec fn chain_files(chain: Seq<&HorasFile>) -> Seq<HorasFile> {
    chain.map_values(|f: &HorasFile| *f)
}

// ─── Sections along the chain ────────────────────────────────────────

/// Whether a body has non-whitespace text.
pub open spec fn nonblank(b: Seq<char>) -> bool {
    trim_text(b).len() > 0
}

/// The first non-blank section `name` of `chain[i..]`.
pub open spec fn chain_section(chain: Seq<HorasFile>, name: Seq<char>, i: int) -> Option<Seq<char>>
    decreases chain.len() - i,
{
    if i < 0 || i >= chain.len() {
        None
    } else if chain[i].sections@.contains_key(name) && nonblank(chain[i].sections@[name]@) {
        Some(chain[i].sections@[name]@)
    } else {
        chain_section(chain, name, i + 1)
    }
}

/// The first non-blank section `name` along the chain.
fn chain_section_exec<'a>(chain: &[&'a HorasFile], name: &str) -> (r: Option<&'a str>)
    ensures
        match r {
            Some(b) => chain_section(chain_files(chain@), name@, 0) == Some(b@),
            None => chain_section(chain_files(chain@), name@, 0) is None,
        },
{
    let ghost files = chain_files(chain@);
    let mut i: usize = 0;
    while i < chain.len()
        invariant
            i <= chain@.len(),
            files == chain_files(chain@),
            files.len() == chain@.len(),
            chain_section(files, name@, i as int) == chain_section(files, name@, 0),
        decreases chain.len() - i,
    {
        let f: &'a HorasFile = chain[i];
        assert(files[i as int] == *f);
        match f.sections.get(name) {
            Some(b) => {
                let v = chars_of(b.as_str());
                let t = trim_chars(&v);
                if t.len() > 0 {
                    return Some(b.as_str());
                }
            },
            None => {},
        }
        i = i + 1;
    }
    None
}

// ─── The saint's name ────────────────────────────────────────────────

/// The `[Name]` body of the first file of `chain[i..]` that has one.
pub open spec fn name_body(chain: Seq<HorasFile>, i: int) -> Option<Seq<char>>
    decreases chain.len() - i,
{
    if i < 0 || i >= chain.len() {
        None
    } else if chain[i].sections@.contains_key("Name"@) {
        Some(chain[i].sections@["Name"@]@)
    } else {
        name_body(chain, i + 1)
    }
}

/// Whether a trimmed line can give the saint's name: non-empty, and
/// neither an `Ant=` form nor a `(…)` condition.
pub open spec fn name_line_ok(t: Seq<char>) -> bool {
    t.len() > 0 && !has_prefix(t, "Ant="@) && t[0] != '('
}

/// The first usable line of `ls[i..]`, trimmed.
pub open spec fn name_line(ls: Seq<Seq<char>>, i: int) -> Option<Seq<char>>
    decreases ls.len() - i,
{
    if i < 0 || i >= ls.len() {
        None
    } else if name_line_ok(trim_text(ls[i])) {
        Some(trim_text(ls[i]))
    } else {
        name_line(ls, i + 1)
    }
}

/// The saint's name for `N.`: the first usable line of the first
/// `[Name]` along the chain.
pub open spec fn saint_name(chain: Seq<HorasFile>) -> Option<Seq<char>> {
    match name_body(chain, 0) {
        Some(b) => name_line(split_on(b, '\n'), 0),
        None => None,
    }
}

/// The `[Name]` body of the first file along the chain that has one.
fn name_body_exec<'a>(chain: &[&'a HorasFile]) -> (r: Option<&'a str>)
    ensures
        match r {
            Some(b) => name_body(chain_files(chain@), 0) == Some(b@),
            None => name_body(chain_files(chain@), 0) is None,
        },
{
    let ghost files = chain_files(chain@);
    proof { reveal_strlit("Name"); }
    let mut i: usize = 0;
    while i < chain.len()
        invariant
            i <= chain@.len(),
            files == chain_files(chain@),
            files.len() == chain@.len(),
            name_body(files, i as int) == name_body(files, 0),
        decreases chain.len() - i,
    {
        let f: &'a HorasFile = chain[i];
        assert(files[i as int] == *f);
        match f.sections.get("Name") {
            Some(b) => {
                return Some(b.as_str());
            },
            None => {},
        }
        i = i + 1;
    }
    None
}

fn saint_name_exec(chain: &[&HorasFile]) -> (r: Option<String>)
    ensures
        match r {
            Some(n) => saint_name(chain_files(chain@)) == Some(n@),
            None => saint_name(chain_files(chain@)) is None,
        },
{
    let ghost files = chain_files(chain@);
    let b = match name_body_exec(chain) {
        Some(b) => b,
        None => {
            return None;
        },
    };
    let v = chars_of(b);
    let lines = split_chars(&v, '\n');
    let ghost ls = split_on(b@, '\n');
    assert(lines@.map_values(|x: Vec<char>| x@) == ls);
    proof { reveal_strlit("Ant="); }
    let mut j: usize = 0;
    while j < lines.len()
        invariant
            j <= lines@.len(),
            lines@.len() == ls.len(),
            forall|k: int| 0 <= k < ls.len() ==> #[trigger] ls[k] == lines@[k]@,
            name_line(ls, j as int) == name_line(ls, 0),
            saint_name(files) == name_line(ls, 0),
            files == chain_files(chain@),
        decreases lines.len() - j,
    {
        let t = trim_chars(&lines[j]);
        proof { assert(ls[j as int] == lines@[j as int]@); }
        if t.len() > 0 && !starts_with_str(&t, "Ant=") && t[0] != '(' {
            let n = string_of(&t, 0, t.len());
            assert(t@.subrange(0, t@.len() as int) =~= t@);
            assert(name_line_ok(trim_text(ls[j as int])));
            assert(name_line(ls, j as int) == Some(n@));
            return Some(n);
        }
        j = j + 1;
    }
    None
}

// ─── Whole-body redirects ────────────────────────────────────────────

/// Whether a path names a file of the corpus's directories.
pub open spec fn corpus_path(p: Seq<char>) -> bool {
    has_prefix(p, "Sancti/"@) || has_prefix(p, "Tempora/"@) || has_prefix(p, "Commune/"@)
        || has_prefix(p, "Psalterium/"@) || has_prefix(p, "SanctiM/"@) || has_prefix(p, "SanctiOP/"@)
        || has_prefix(p, "Ordinarium/"@)
}

/// Whether a line of `t` after the first has text.
pub open spec fn later_line_has_text(t: Seq<char>) -> bool {
    let ls = split_on(t, '\n');
    exists|i: int| 1 <= i < ls.len() && nonblank(#[trigger] ls[i])
}

/// The parts of a redirect's text after `@`, `path[:section][:subst]`:
/// the path, the section (`default` when none is named) and the
/// substitution (empty when none).
pub open spec fn redirect_parts(after: Seq<char>, default: Seq<char>) -> (Seq<char>, Seq<char>, Seq<char>) {
    let c1 = index_from(after, ':', 0);
    let path = trim_text(after.subrange(0, c1));
    let rest = if c1 < after.len() { after.subrange(c1 + 1, after.len() as int) } else { Seq::empty() };
    let c2 = index_from(rest, ':', 0);
    if rest.len() == 0 {
        (path, default, Seq::empty())
    } else if rest[0] == ':' {
        (path, default, rest.subrange(1, rest.len() as int))
    } else if c2 < rest.len() {
        (path, trim_text(rest.subrange(0, c2)), rest.subrange(c2 + 1, rest.len() as int))
    } else {
        (path, trim_text(rest), Seq::empty())
    }
}

/// How many redirects in a row are followed.
pub open spec fn redirect_depth() -> nat {
    8
}

/// A body that is a single-line redirect `@path[:section]` to a corpus
/// file reads that file's section (by default the section it stands
/// in), following a redirect found there in turn, up to `fuel` times.
/// A body that is no such redirect, names no corpus file, or whose
/// target section is missing or blank stays as it is; so does one with
/// a substitution part.
pub open spec fn at_expanded(files: Map<Seq<char>, HorasFile>, body: Seq<char>, default: Seq<char>, fuel: nat) -> Seq<char>
    decreases fuel,
{
    let t = trim_text(body);
    if !has_prefix(t, "@"@) || later_line_has_text(t) {
        body
    } else {
        let parts = redirect_parts(t.subrange(1, t.len() as int), default);
        let (path, section, subst) = (parts.0, parts.1, parts.2);
        if !corpus_path(path) || corpus_key(files, path) is None {
            body
        } else {
            let target = files[corpus_key(files, path)->0];
            if subst.len() == 0 && target.sections@.contains_key(section) && nonblank(target.sections@[section]@) {
                let r = target.sections@[section]@;
                if has_prefix(trim_text(r), "@"@) && fuel > 0 {
                    at_expanded(files, r, section, (fuel - 1) as nat)
                } else {
                    r
                }
            } else {
                body
            }
        }
    }
}

fn corpus_path_exec(p: &[char]) -> (r: bool)
    ensures
        r == corpus_path(p@),
{
    starts_with_str(p, "Sancti/") || starts_with_str(p, "Tempora/") || starts_with_str(p, "Commune/")
        || starts_with_str(p, "Psalterium/") || starts_with_str(p, "SanctiM/") || starts_with_str(p, "SanctiOP/")
        || starts_with_str(p, "Ordinarium/")
}

fn later_line_has_text_exec(t: &[char]) -> (r: bool)
    ensures
        r == later_line_has_text(t@),
{
    let lines = split_chars(t, '\n');
    let ghost ls = split_on(t@, '\n');
    assert(lines@.map_values(|x: Vec<char>| x@) == ls);
    let mut i: usize = 1;
    while i < lines.len()
        invariant
            1 <= i,
            ls == split_on(t@, '\n'),
            lines@.len() == ls.len(),
            lines@.map_values(|x: Vec<char>| x@) == ls,
            forall|k: int| 1 <= k < i && k < ls.len() ==> !nonblank(#[trigger] ls[k]),
        decreases lines.len() - i,
    {
        assert(ls[i as int] == lines@[i as int]@);
        let tl = trim_chars(&lines[i]);
        if tl.len() > 0 {
            assert(nonblank(ls[i as int]));
            assert(later_line_has_text(t@));
            return true;
        }
        i = i + 1;
    }
    false
}

fn redirect_parts_exec(after: &[char], default: &str) -> (r: (String, String, String))
    ensures
        (r.0@, r.1@, r.2@) == redirect_parts(after@, default@),
{
    let c1 = crate::text::index_from_exec(after, ':', 0);
    let head = crate::text::subvec(after, 0, c1);
    let pv = trim_chars(&head);
    let path = string_of(&pv, 0, pv.len());
    assert(pv@.subrange(0, pv@.len() as int) =~= pv@);
    let rest: Vec<char> = if c1 < after.len() { crate::text::subvec(after, c1 + 1, after.len()) } else { Vec::new() };
    assert(rest@ =~= (if c1 < after@.len() { after@.subrange(c1 + 1, after@.len() as int) } else { Seq::<char>::empty() }));
    let c2 = crate::text::index_from_exec(&rest, ':', 0);
    if rest.len() == 0 {
        (path, owned(default), String::new())
    } else if rest[0] == ':' {
        let subst = string_of(&rest, 1, rest.len());
        (path, owned(default), subst)
    } else if c2 < rest.len() {
        let sv = crate::text::subvec(&rest, 0, c2);
        let st = trim_chars(&sv);
        assert(st@.subrange(0, st@.len() as int) =~= st@);
        (path, string_of(&st, 0, st.len()), string_of(&rest, c2 + 1, rest.len()))
    } else {
        let st = trim_chars(&rest);
        assert(st@.subrange(0, st@.len() as int) =~= st@);
        (path, string_of(&st, 0, st.len()), String::new())
    }
}

fn at_expanded_exec(corpus: &HorasCorpus, body: &str, default: &str, fuel: u64) -> (r: String)
    ensures
        r@ == at_expanded(corpus.files@, body@, default@, fuel as nat),
    decreases fuel,
{
    proof { reveal_strlit("@"); }
    let v = chars_of(body);
    let t = trim_chars(&v);
    if !starts_with_str(&t, "@") || later_line_has_text_exec(&t) {
        return owned(body);
    }
    let after = crate::text::subvec(&t, 1, t.len());
    let (path, section, subst) = redirect_parts_exec(&after, default);
    let pv = chars_of(path.as_str());
    if !corpus_path_exec(&pv) {
        return owned(body);
    }
    let target = match lookup(corpus, path.as_str()) {
        Some(f) => f,
        None => return owned(body),
    };
    if !subst.as_str().is_empty() {
        return owned(body);
    }
    match target.sections.get(section.as_str()) {
        Some(r) => {
            let rv = chars_of(r.as_str());
            let rt = trim_chars(&rv);
            if rt.len() == 0 {
                return owned(body);
            }
            if starts_with_str(&rt, "@") && fuel > 0 {
                at_expanded_exec(corpus, r.as_str(), section.as_str(), fuel - 1)
            } else {
                owned(r.as_str())
            }
        },
        None => owned(body),
    }
}

/// Follows a whole-body redirect `@path[:section]` (see
/// [`at_expanded`]); `default_section` is the section the body stands
/// in.
pub fn expand_at_redirect(corpus: &HorasCorpus, body: &str, default_section: &str) -> (r: String)
    ensures
        r@ == at_expanded(corpus.files@, body@, default_section@, redirect_depth()),
{
    at_expanded_exec(corpus, body, default_section, 8)
}

// ─── One slot ────────────────────────────────────────────────────────

/// A body that is a self-redirect `@:Section` (first line after the
/// marker, trimmed) reads that section along the chain, when it is
/// there, with its own redirect followed (see [`at_expanded`]); any
/// other body stays.
pub open spec fn self_redirected(files: Map<Seq<char>, HorasFile>, body: Seq<char>, chain: Seq<HorasFile>) -> Seq<char> {
    let t = trim_text(body);
    if has_prefix(t, "@:"@) {
        let target = trim_text(split_on(t.subrange(2, t.len() as int), '\n')[0]);
        if target.len() > 0 && chain_section(chain, target, 0) is Some {
            at_expanded(files, chain_section(chain, target, 0)->0, target, redirect_depth())
        } else {
            body
        }
    } else {
        body
    }
}

/// A spliced body: the first Oratio chunk when `chunk`, the saint's
/// name for `N.`, `$macro` lines expanded, the rubric's spelling.
pub open spec fn finished(body: Seq<char>, chunk: bool, chain: Seq<HorasFile>, prayers: Option<HorasFile>, rubric: Rubric) -> Seq<char> {
    let b = if chunk { chunk_fold(Seq::empty(), split_on(body, '\n')) } else { body };
    office_spelling(dollar_macros_in_body(with_saint_name(b, saint_name(chain)), prayers), rubric)
}

/// Whether a section name is an Oratio form (`Oratio`, `Oratio 2`, …).
pub open spec fn is_oratio_name(n: Seq<char>) -> bool {
    n == "Oratio"@ || has_prefix(n, "Oratio "@)
}

/// The first candidate in `cands[j..]` that the file has.
pub open spec fn first_own(file: HorasFile, cands: Seq<Seq<char>>, j: int) -> Option<Seq<char>>
    decreases cands.len() - j,
{
    if j < 0 || j >= cands.len() {
        None
    } else if file.sections@.contains_key(cands[j]) {
        Some(cands[j])
    } else {
        first_own(file, cands, j + 1)
    }
}

/// The first candidate in `cands[j..]` found along the chain.
pub open spec fn first_in_chain(chain: Seq<HorasFile>, cands: Seq<Seq<char>>, j: int) -> Option<Seq<char>>
    decreases cands.len() - j,
{
    if j < 0 || j >= cands.len() {
        None
    } else if chain_section(chain, cands[j], 0) is Some {
        Some(cands[j])
    } else {
        first_in_chain(chain, cands, j + 1)
    }
}

/// Whether a slot is the Vespers/Lauds Capitulum–Hymnus–Versus slot.
pub open spec fn is_hymn_slot(label: Seq<char>) -> bool {
    label == "Capitulum Hymnus Versus"@ || label == "Capitulum Responsorium Hymnus Versus"@
}

/// The candidate section names of a slot: only `Oratio` when the
/// week's Sunday Oratio is forced, else [`slot_names`].
pub open spec fn slot_candidates_of(label: Seq<char>, hour: Seq<char>, force: bool) -> Seq<Seq<char>> {
    if force { seq!["Oratio"@] } else { slot_names(label, hour) }
}

/// What the slot `label` of `hour` receives from the chain. The Matins
/// lessons slot receives the lessons (see [`matins_lessons`]). For an
/// Oratio slot the winning file (the chain's first) is searched for
/// every candidate name first; otherwise, or failing that, the
/// candidates are searched in order along the chain; the
/// Capitulum–Hymnus–Versus slot falls back to `Hymnus <hour>`.
pub open spec fn spliced_from_chain(files: Map<Seq<char>, HorasFile>, label: Seq<char>, hour: Seq<char>, rubric: Rubric, chain: Seq<HorasFile>, prayers: Option<HorasFile>, force: bool) -> Seq<RenderedView> {
    let cands = slot_candidates_of(label, hour, force);
    let own = if is_oratio_name(label) { first_own(chain[0], cands, 0) } else { None };
    if chain.len() == 0 {
        Seq::empty()
    } else if label == "Psalmi cum lectionibus"@ {
        matins_lessons(chain, prayers)
    } else if own is Some {
        seq![RenderedView::Plain {
            body: finished(self_redirected(files, at_expanded(files, chain[0].sections@[own->0]@, own->0, redirect_depth()), chain),
                true, chain, prayers, rubric),
        }]
    } else if first_in_chain(chain, cands, 0) is Some {
        let c = first_in_chain(chain, cands, 0)->0;
        seq![RenderedView::Plain {
            body: finished(self_redirected(files, at_expanded(files, chain_section(chain, c, 0)->0, c, redirect_depth()), chain),
                is_oratio_name(c), chain, prayers, rubric),
        }]
    } else if is_hymn_slot(label) && chain_section(chain, "Hymnus "@ + hour, 0) is Some {
        seq![RenderedView::Plain {
            body: finished(at_expanded(files, chain_section(chain, "Hymnus "@ + hour, 0)->0, "Hymnus "@ + hour, redirect_depth()),
                false, chain, prayers, rubric),
        }]
    } else {
        Seq::empty()
    }
}

proof fn lemma_split_on_nonempty(s: Seq<char>, c: char)
    ensures
        split_on(s, c).len() >= 1,
{
}

fn self_redirected_exec(corpus: &HorasCorpus, body: &str, chain: &[&HorasFile]) -> (r: String)
    ensures
        r@ == self_redirected(corpus.files@, body@, chain_files(chain@)),
{
    let v = chars_of(body);
    let t = trim_chars(&v);
    proof { reveal_strlit("@:"); }
    if !starts_with_str(&t, "@:") {
        return owned(body);
    }
    let rest = crate::text::subvec(&t, 2, t.len());
    let lines = split_chars(&rest, '\n');
    proof {
        assert(lines@.map_values(|x: Vec<char>| x@) == split_on(rest@, '\n'));
        lemma_split_on_nonempty(rest@, '\n');
        assert(lines@.map_values(|x: Vec<char>| x@)[0] == lines@[0]@);
    }
    let target = trim_chars(&lines[0]);
    if target.len() == 0 {
        return owned(body);
    }
    let name = string_of(&target, 0, target.len());
    assert(target@.subrange(0, target@.len() as int) =~= target@);
    match chain_section_exec(chain, name.as_str()) {
        Some(b) => expand_at_redirect(corpus, b, name.as_str()),
        None => owned(body),
    }
}

fn finish_body(body: &str, chunk: bool, name: &Option<String>, prayers: Option<&HorasFile>, rubric: Rubric) -> (r: String)
    ensures
        r@ == ({
            let b = if chunk { chunk_fold(Seq::empty(), split_on(body@, '\n')) } else { body@ };
            office_spelling(dollar_macros_in_body(
                with_saint_name(b, match name { Some(n) => Some(n@), None => None }),
                match prayers { Some(p) => Some(*p), None => None }), rubric)
        }),
{
    let b = if chunk { take_first_oratio_chunk(body) } else { owned(body) };
    let n: Option<&str> = match name {
        Some(s) => Some(s.as_str()),
        None => None,
    };
    let with_name = substitute_saint_name(b.as_str(), n);
    let expanded = expand_dollar_macros_in_body(with_name.as_str(), prayers);
    apply_office_spelling(expanded.as_str(), rubric)
}

fn is_oratio_name_exec(n: &str) -> (r: bool)
    ensures
        r == is_oratio_name(n@),
{
    let v = chars_of(n);
    same_text(n, "Oratio") || starts_with_str(&v, "Oratio ")
}

/// Splices the slot's proper from the chain (see [`spliced_from_chain`]).
#[verifier::loop_isolation(false)]
fn splice_from_chain(
    out: &mut Vec<RenderedLine>,
    corpus: &HorasCorpus,
    label: &str,
    hour: &str,
    rubric: Rubric,
    chain: &[&HorasFile],
    prayers: Option<&HorasFile>,
    force: bool,
)
    ensures
        views(final(out)@) == views(old(out)@) + spliced_from_chain(corpus.files@, label@, hour@, rubric, chain_files(chain@),
            match prayers { Some(p) => Some(*p), None => None }, force),
{
    let ghost files = chain_files(chain@);
    let ghost pr = match prayers { Some(p) => Some(*p), None => None };
    let ghost start = views(out@);
    if chain.len() == 0 {
        assert(views(out@) =~= start + Seq::<RenderedView>::empty());
        return;
    }
    if same_text(label, "Psalmi cum lectionibus") {
        splice_matins_lectios(out, chain, prayers);
        return;
    }
    let name = saint_name_exec(chain);
    let cands = if force {
        let mut v: Vec<String> = Vec::new();
        v.push(owned("Oratio"));
        v
    } else {
        slot_candidates(label, hour)
    };
    let ghost cs = slot_candidates_of(label@, hour@, force);
    proof { reveal_strlit("Oratio"); }
    assert(cands@.map_values(|x: String| x@) == cs);
    assert forall|k: int| 0 <= k < cs.len() implies #[trigger] cs[k] == cands@[k]@ by {
        assert(cands@.map_values(|x: String| x@)[k] == cands@[k]@);
    }
    let winner: &HorasFile = chain[0];
    assert(files[0] == *winner);
    if is_oratio_name_exec(label) {
        let mut j: usize = 0;
        while j < cands.len()
            invariant
                j <= cands@.len(),
                cands@.len() == cs.len(),
                forall|k: int| 0 <= k < cs.len() ==> #[trigger] cs[k] == cands@[k]@,
                first_own(*winner, cs, j as int) == first_own(*winner, cs, 0),
                views(out@) == start,
            decreases cands.len() - j,
        {
            match winner.sections.get(cands[j].as_str()) {
                Some(b) => {
                    assert(cs[j as int] == cands@[j as int]@);
                    assert(first_own(*winner, cs, 0) == Some(cs[j as int]));
                    let expanded = expand_at_redirect(corpus, b.as_str(), cands[j].as_str());
                    let redirected = self_redirected_exec(corpus, expanded.as_str(), chain);
                    let text = finish_body(redirected.as_str(), true, &name, prayers, rubric);
                    let line = RenderedLine::Plain { body: text };
                    proof { lemma_views_push(out@, line); }
                    out.push(line);
                    assert(views(out@) =~= start + spliced_from_chain(corpus.files@, label@, hour@, rubric, files, pr, force));
                    return;
                },
                None => {
                    assert(cs[j as int] == cands@[j as int]@);
                },
            }
            j = j + 1;
        }
    }
    assert(!is_oratio_name(label@) || first_own(files[0], cs, 0) is None);
    let mut j: usize = 0;
    while j < cands.len()
        invariant
            j <= cands@.len(),
            cands@.len() == cs.len(),
            forall|k: int| 0 <= k < cs.len() ==> #[trigger] cs[k] == cands@[k]@,
            first_in_chain(files, cs, j as int) == first_in_chain(files, cs, 0),
            files == chain_files(chain@),
            views(out@) == start,
        decreases cands.len() - j,
    {
        let c = cands[j].as_str();
        assert(cs[j as int] == c@);
        match chain_section_exec(chain, c) {
            Some(b) => {
                assert(first_in_chain(files, cs, 0) == Some(cs[j as int]));
                let expanded = expand_at_redirect(corpus, b, c);
                let redirected = self_redirected_exec(corpus, expanded.as_str(), chain);
                let chunk = is_oratio_name_exec(c);
                let text = finish_body(redirected.as_str(), chunk, &name, prayers, rubric);
                let line = RenderedLine::Plain { body: text };
                proof { lemma_views_push(out@, line); }
                out.push(line);
                assert(views(out@) =~= start + spliced_from_chain(corpus.files@, label@, hour@, rubric, files, pr, force));
                return;
            },
            None => {},
        }
        j = j + 1;
    }
    assert(first_in_chain(files, cs, 0) is None);
    if same_text(label, "Capitulum Hymnus Versus") || same_text(label, "Capitulum Responsorium Hymnus Versus") {
        let mut key = String::new();
        push_str(&mut key, "Hymnus ");
        push_str(&mut key, hour);
        proof { reveal_strlit("Hymnus "); }
        match chain_section_exec(chain, key.as_str()) {
            Some(b) => {
                let expanded = expand_at_redirect(corpus, b, key.as_str());
                let text = finish_body(expanded.as_str(), false, &name, prayers, rubric);
                let line = RenderedLine::Plain { body: text };
                proof { lemma_views_push(out@, line); }
                out.push(line);
                assert(views(out@) =~= start + spliced_from_chain(corpus.files@, label@, hour@, rubric, files, pr, force));
                return;
            },
            None => {},
        }
    }
    assert(files.len() > 0);
    assert(label@ != "Psalmi cum lectionibus"@);
    assert(first_in_chain(files, cs, 0) is None);
    assert(!is_oratio_name(label@) || first_own(files[0], cs, 0) is None);
    assert(spliced_from_chain(corpus.files@, label@, hour@, rubric, files, pr, force) =~= Seq::<RenderedView>::empty());
    assert(views(out@) =~= start + spliced_from_chain(corpus.files@, label@, hour@, rubric, files, pr, force));
}


// ─── Matins lessons ──────────────────────────────────────────────────

/// The texts of strings.
pub open spec fn texts(v: Seq<String>) -> Seq<Seq<char>> {
    v.map_values(|s: String| s@)
}

/// Bytes of a character in UTF-8.
pub open spec fn utf8_width(c: char) -> int {
    if (c as u32) < 0x80 { 1 } else if (c as u32) < 0x800 { 2 } else if (c as u32) < 0x10000 { 3 } else { 4 }
}

/// Bytes of a text in UTF-8.
pub open spec fn byte_len(s: Seq<char>) -> int
    decreases s.len(),
{
    if s.len() == 0 { 0 } else { byte_len(s.drop_last()) + utf8_width(s.last()) }
}

/// How many lessons Matins has: from the winner's `[Rule]`, 9 when it
/// has none.
pub open spec fn lectio_count(chain: Seq<HorasFile>) -> int {
    if chain[0].sections@.contains_key("Rule"@) {
        lectio_fold(9, split_on(chain[0].sections@["Rule"@]@, '\n'))
    } else {
        9
    }
}

/// `Ant Matutinum <i>`.
pub open spec fn ant_key(i: int) -> Seq<char> {
    "Ant Matutinum "@ + nat_str(i as nat)
}

/// The antiphon lines of an optional body.
pub open spec fn ants_of(o: Option<Seq<char>>) -> Seq<Seq<char>> {
    match o {
        Some(b) => antiphon_lines(split_on(b, '\n')),
        None => Seq::empty(),
    }
}

/// The antiphons of the three nocturns: from `Ant Matutinum 1`..`3`
/// when any of them is along the chain; else from one `Ant Matutinum`,
/// three per nocturn when it has at least nine lines, all in the first
/// nocturn otherwise.
pub open spec fn nocturn_lists(chain: Seq<HorasFile>) -> Seq<Seq<Seq<char>>> {
    let p1 = chain_section(chain, ant_key(1), 0);
    let p2 = chain_section(chain, ant_key(2), 0);
    let p3 = chain_section(chain, ant_key(3), 0);
    if p1 is Some || p2 is Some || p3 is Some {
        seq![ants_of(p1), ants_of(p2), ants_of(p3)]
    } else {
        let all = ants_of(chain_section(chain, "Ant Matutinum"@, 0));
        if all.len() >= 9 {
            seq![all.subrange(0, 3), all.subrange(3, 6), all.subrange(6, 9)]
        } else {
            seq![all, Seq::empty(), Seq::empty()]
        }
    }
}

/// The antiphon block of nocturn `idx` (0-based): its heading and one
/// line per antiphon; nothing when it has none.
pub open spec fn nocturn_block(ants: Seq<Seq<char>>, idx: int) -> Seq<RenderedView> {
    if ants.len() == 0 {
        Seq::empty()
    } else {
        seq![RenderedView::Section { label: ant_key(idx + 1) }]
            + ants.map_values(|a: Seq<char>| RenderedView::Plain { body: a })
    }
}

/// The nocturn that begins with lesson `n` of `count`, or -1.
pub open spec fn nocturn_at(count: int, n: int) -> int {
    if count == 9 && n == 1 { 0 } else if count == 9 && n == 4 { 1 } else if count == 9 && n == 7 { 2 }
    else if count == 3 && n == 1 { 0 } else { -1 }
}

/// Lesson `n` with its responsory, and whether the lesson calls for the
/// Te Deum. A responsory of 20 bytes or less (trimmed) is a stub and is
/// left out.
pub open spec fn lesson_lines(chain: Seq<HorasFile>, n: int) -> (Seq<RenderedView>, bool) {
    let lk = "Lectio"@ + nat_str(n as nat);
    let rk = "Responsory"@ + nat_str(n as nat);
    let l: (Seq<RenderedView>, bool) = match chain_section(chain, lk, 0) {
        Some(b) => (seq![RenderedView::Section { label: lk }, RenderedView::Plain { body: te_deum_split(b).0 }],
            te_deum_split(b).1),
        None => (Seq::empty(), false),
    };
    let r: Seq<RenderedView> = match chain_section(chain, rk, 0) {
        Some(b) => if byte_len(trim_text(b)) > 20 {
            seq![RenderedView::Section { label: rk }, RenderedView::Plain { body: b }]
        } else {
            Seq::empty()
        },
        None => Seq::empty(),
    };
    (l.0 + r, l.1)
}

/// Lessons 1..=n of `count`, each nocturn's antiphons before its first
/// lesson, and whether any lesson called for the Te Deum.
pub open spec fn lessons_upto(chain: Seq<HorasFile>, ants: Seq<Seq<Seq<char>>>, count: int, n: int) -> (Seq<RenderedView>, bool)
    decreases n,
{
    if n <= 0 {
        (Seq::empty(), false)
    } else {
        let p = lessons_upto(chain, ants, count, n - 1);
        let idx = nocturn_at(count, n);
        let blk = if idx >= 0 { nocturn_block(ants[idx], idx) } else { Seq::empty() };
        let l = lesson_lines(chain, n);
        (p.0 + blk + l.0, p.1 || l.1)
    }
}

/// The `[Te Deum]` of the Prayers file.
pub open spec fn te_deum_text(prayers: Option<HorasFile>) -> Option<Seq<char>> {
    match prayers {
        Some(p) => if p.sections@.contains_key("Te Deum"@) { Some(p.sections@["Te Deum"@]@) } else { None },
        None => None,
    }
}

/// The Matins lessons slot: the lessons with their responsories and the
/// nocturns' antiphons, then the Te Deum when a lesson calls for it.
pub open spec fn matins_lessons(chain: Seq<HorasFile>, prayers: Option<HorasFile>) -> Seq<RenderedView> {
    let count = lectio_count(chain);
    let m = lessons_upto(chain, nocturn_lists(chain), count, count);
    m.0 + if m.1 && te_deum_text(prayers) is Some {
        seq![RenderedView::Macro { name: "Te_Deum"@, body: te_deum_text(prayers)->0 }]
    } else {
        Seq::empty()
    }
}

proof fn lemma_lectio_fold_values(acc: int, lines: Seq<Seq<char>>)
    requires
        acc == 3 || acc == 9,
    ensures
        lectio_fold(acc, lines) == 3 || lectio_fold(acc, lines) == 9,
    decreases lines.len(),
{
    if lines.len() > 0 {
        lemma_lectio_fold_values(crate::horas::lectio_step(acc, lines[0]), lines.drop_first());
    }
}

/// Whether the trimmed text is over 20 bytes in UTF-8.
fn over_twenty_bytes(t: &[char]) -> (r: bool)
    ensures
        r == (byte_len(t@) > 20),
{
    let mut total: usize = 0;
    let mut i: usize = 0;
    while i < t.len()
        invariant
            i <= t@.len(),
            total == byte_len(t@.subrange(0, i as int)),
            total <= 20,
        decreases t.len() - i,
    {
        let c = t[i] as u32;
        let w: usize = if c < 0x80 { 1 } else if c < 0x800 { 2 } else if c < 0x10000 { 3 } else { 4 };
        proof {
            assert(t@.subrange(0, i + 1).drop_last() =~= t@.subrange(0, i as int));
            assert(t@.subrange(0, i + 1).last() == t@[i as int]);
        }
        total = total + w;
        if total > 20 {
            proof { lemma_byte_len_grows(t@, i + 1); }
            return true;
        }
        i = i + 1;
    }
    assert(t@.subrange(0, t@.len() as int) =~= t@);
    false
}

proof fn lemma_byte_len_grows(s: Seq<char>, k: int)
    requires
        0 <= k <= s.len(),
    ensures
        byte_len(s.subrange(0, k)) <= byte_len(s),
    decreases s.len() - k,
{
    if k < s.len() {
        lemma_byte_len_grows(s, k + 1);
        assert(s.subrange(0, k + 1).drop_last() =~= s.subrange(0, k));
    } else {
        assert(s.subrange(0, k) =~= s);
    }
}

/// `prefix` followed by the decimal `n`.
fn numbered(prefix: &str, n: u64) -> (r: String)
    ensures
        r@ == prefix@ + nat_str(n as nat),
{
    let mut k = String::new();
    push_str(&mut k, prefix);
    push_nat(&mut k, n);
    k
}

fn strings_between(v: &Vec<String>, lo: usize, hi: usize) -> (r: Vec<String>)
    requires
        lo <= hi <= v@.len(),
    ensures
        texts(r@) == texts(v@).subrange(lo as int, hi as int),
{
    let mut r: Vec<String> = Vec::new();
    let mut i = lo;
    while i < hi
        invariant
            lo <= i <= hi <= v@.len(),
            texts(r@) == texts(v@).subrange(lo as int, i as int),
        decreases hi - i,
    {
        let s = owned(v[i].as_str());
        let ghost before = r@;
        r.push(s);
        proof {
            assert(texts(v@)[i as int] == v@[i as int]@);
            assert(texts(r@) =~= texts(before).push(s@));
            assert(texts(v@).subrange(lo as int, i + 1) =~= texts(v@).subrange(lo as int, i as int).push(texts(v@)[i as int]));
        }
        assert(texts(r@) =~= texts(v@).subrange(lo as int, i + 1));
        i = i + 1;
    }
    r
}

fn antiphons_of(o: Option<&str>) -> (r: Vec<String>)
    ensures
        texts(r@) == ants_of(match o { Some(b) => Some(b@), None => None }),
{
    match o {
        Some(b) => {
            let r = parse_antiphon_lines(b);
            assert(texts(r@) =~= r@.map_values(|x: String| x@));
            r
        },
        None => {
            let r: Vec<String> = Vec::new();
            assert(texts(r@) =~= Seq::<Seq<char>>::empty());
            r
        },
    }
}

fn nocturn_antiphons(chain: &[&HorasFile]) -> (r: Vec<Vec<String>>)
    ensures
        r@.len() == 3,
        forall|i: int| 0 <= i < 3 ==> texts(#[trigger] r@[i]@) == nocturn_lists(chain_files(chain@))[i],
{
    let ghost files = chain_files(chain@);
    let k1 = numbered("Ant Matutinum ", 1);
    let k2 = numbered("Ant Matutinum ", 2);
    let k3 = numbered("Ant Matutinum ", 3);
    proof { reveal_strlit("Ant Matutinum "); }
    let p1 = chain_section_exec(chain, k1.as_str());
    let p2 = chain_section_exec(chain, k2.as_str());
    let p3 = chain_section_exec(chain, k3.as_str());
    let mut r: Vec<Vec<String>> = Vec::new();
    if p1.is_some() || p2.is_some() || p3.is_some() {
        r.push(antiphons_of(p1));
        r.push(antiphons_of(p2));
        r.push(antiphons_of(p3));
        return r;
    }
    let all = antiphons_of(chain_section_exec(chain, "Ant Matutinum"));
    if all.len() >= 9 {
        r.push(strings_between(&all, 0, 3));
        r.push(strings_between(&all, 3, 6));
        r.push(strings_between(&all, 6, 9));
    } else {
        let n = all.len();
        r.push(strings_between(&all, 0, n));
        r.push(Vec::new());
        r.push(Vec::new());
        assert(texts(all@).subrange(0, n as int) =~= texts(all@));
        assert(texts(r@[1]@) =~= Seq::<Seq<char>>::empty());
        assert(texts(r@[2]@) =~= Seq::<Seq<char>>::empty());
    }
    r
}

fn push_nocturn_block(out: &mut Vec<RenderedLine>, ants: &Vec<String>, idx: usize)
    requires
        idx < 3,
    ensures
        views(final(out)@) == views(old(out)@) + nocturn_block(texts(ants@), idx as int),
{
    let ghost start = views(out@);
    if ants.len() == 0 {
        assert(views(out@) =~= start + nocturn_block(texts(ants@), idx as int));
        return;
    }
    push_line(out, RenderedLine::Section { label: numbered("Ant Matutinum ", (idx + 1) as u64) });
    proof { reveal_strlit("Ant Matutinum "); }
    let ghost head = views(out@);
    let mut i: usize = 0;
    while i < ants.len()
        invariant
            i <= ants@.len(),
            views(out@) == head + texts(ants@).subrange(0, i as int).map_values(|a: Seq<char>| RenderedView::Plain { body: a }),
        decreases ants.len() - i,
    {
        push_line(out, RenderedLine::Plain { body: owned(ants[i].as_str()) });
        assert(texts(ants@).subrange(0, i + 1).map_values(|a: Seq<char>| RenderedView::Plain { body: a })
            =~= texts(ants@).subrange(0, i as int).map_values(|a: Seq<char>| RenderedView::Plain { body: a })
                .push(RenderedView::Plain { body: ants@[i as int]@ }));
        i = i + 1;
    }
    assert(texts(ants@).subrange(0, ants@.len() as int) =~= texts(ants@));
    assert(views(out@) =~= start + nocturn_block(texts(ants@), idx as int));
}

fn push_lesson(out: &mut Vec<RenderedLine>, chain: &[&HorasFile], n: u64) -> (te: bool)
    ensures
        views(final(out)@) == views(old(out)@) + lesson_lines(chain_files(chain@), n as int).0,
        te == lesson_lines(chain_files(chain@), n as int).1,
{
    let ghost start = views(out@);
    let lk = numbered("Lectio", n);
    let rk = numbered("Responsory", n);
    proof { reveal_strlit("Lectio"); reveal_strlit("Responsory"); }
    let mut te = false;
    match chain_section_exec(chain, lk.as_str()) {
        Some(b) => {
            let (cleaned, has) = strip_te_deum_directive(b);
            push_line(out, RenderedLine::Section { label: lk });
            push_line(out, RenderedLine::Plain { body: cleaned });
            te = has;
        },
        None => {},
    }
    let ghost mid = views(out@);
    match chain_section_exec(chain, rk.as_str()) {
        Some(b) => {
            let v = chars_of(b);
            let t = trim_chars(&v);
            if over_twenty_bytes(&t) {
                push_line(out, RenderedLine::Section { label: rk });
                push_line(out, RenderedLine::Plain { body: owned(b) });
            }
        },
        None => {},
    }
    assert(views(out@) =~= start + lesson_lines(chain_files(chain@), n as int).0);
    te
}

/// Splices the Matins lessons (see [`matins_lessons`]).
#[verifier::loop_isolation(false)]
fn splice_matins_lectios(out: &mut Vec<RenderedLine>, chain: &[&HorasFile], prayers: Option<&HorasFile>)
    requires
        chain@.len() > 0,
    ensures
        views(final(out)@) == views(old(out)@) + matins_lessons(chain_files(chain@),
            match prayers { Some(p) => Some(*p), None => None }),
{
    let ghost files = chain_files(chain@);
    let ghost pr = match prayers { Some(p) => Some(*p), None => None };
    let ghost start = views(out@);
    let winner: &HorasFile = chain[0];
    assert(files[0] == *winner);
    proof { reveal_strlit("Rule"); }
    let count: u8 = match winner.sections.get("Rule") {
        Some(r) => rule_lectio_count(r.as_str()),
        None => 9,
    };
    assert(count as int == lectio_count(files));
    proof {
        if winner.sections@.contains_key("Rule"@) {
            lemma_lectio_fold_values(9, split_on(winner.sections@["Rule"@]@, '\n'));
        }
    }
    assert(count == 3 || count == 9);
    let ants = nocturn_antiphons(chain);
    let ghost al = nocturn_lists(files);
    assert forall|i: int| 0 <= i < 3 implies texts(#[trigger] ants@[i]@) == al[i] by {}
    let mut te = false;
    let mut n: u8 = 1;
    while n <= count
        invariant
            1 <= n as int <= count as int + 1,
            count == 3 || count == 9,
            views(out@) == start + lessons_upto(files, al, count as int, n - 1).0,
            te == lessons_upto(files, al, count as int, n - 1).1,
        decreases count as int + 1 - n,
    {
        let ghost before = views(out@);
        let idx: i8 = if count == 9 && n == 1 { 0 } else if count == 9 && n == 4 { 1 } else if count == 9 && n == 7 { 2 }
            else if count == 3 && n == 1 { 0 } else { -1 };
        assert(idx as int == nocturn_at(count as int, n as int));
        if idx >= 0 {
            let k = idx as usize;
            push_nocturn_block(out, &ants[k], k);
        }
        let ghost mid = views(out@);
        let has = push_lesson(out, chain, n as u64);
        te = te || has;
        assert(views(out@) =~= start + lessons_upto(files, al, count as int, n as int).0);
        n = n + 1;
    }
    assert(views(out@) == start + lessons_upto(files, al, count as int, count as int).0);
    match lookup_te_deum_body(prayers) {
        Some(b) => {
            if te {
                push_line(out, RenderedLine::Macro { name: owned("Te_Deum"), body: owned(b) });
            }
        },
        None => {},
    }
    proof { reveal_strlit("Te_Deum"); reveal_strlit("Te Deum"); }
    assert(views(out@) =~= start + matins_lessons(files, pr));
}

// ─── Oratio overrides ────────────────────────────────────────────────

/// The Vespers of an Ember day (its `[Officium]` names the Quattuor
/// Tempora) outside the Pentecost octave and the 1960 rubrics: its
/// Oratio is the week's Sunday's.
pub open spec fn ember_vespers(files: Map<Seq<char>, HorasFile>, label: Seq<char>, hour: Seq<char>, rubric: Rubric, chain: Seq<HorasFile>, day_key: Option<Seq<char>>) -> bool {
    label == "Oratio"@ && hour == "Vespera"@
        && !(match day_key { Some(k) => has_prefix(k, "Tempora/Pasc7-"@), None => false })
        && !(rubric is Rubrics1960) && chain.len() > 0
        && lc_has(or_empty(inherited_section(files, chain[0], "Officium"@, 4)), "quattuor temporum"@)
}

/// Whether an Oratio slot reads the week label of the date (the
/// 1955/1960 Epiphany-octave rule or the Ember rule).
pub open spec fn reads_week(files: Map<Seq<char>, HorasFile>, label: Seq<char>, hour: Seq<char>, rubric: Rubric, chain: Seq<HorasFile>, day_key: Option<Seq<char>>) -> bool {
    (label == "Oratio"@ && (rubric is Reduced1955 || rubric is Rubrics1960)) || ember_vespers(files, label, hour, rubric, chain, day_key)
}

/// Under the 1955/1960 rubrics, a day of the week of the first Sunday
/// after Epiphany whose `[Rule]` says it is within the (suppressed)
/// octave takes the Oratio of `Tempora/Epi1-0a`, at Vespers or when it
/// has no Oratio of its own.
pub open spec fn epiphany_octave_oratio(files: Map<Seq<char>, HorasFile>, label: Seq<char>, hour: Seq<char>, rubric: Rubric, chain: Seq<HorasFile>, y: int, m: int, d: int) -> Option<Seq<char>> {
    if label == "Oratio"@ && (rubric is Reduced1955 || rubric is Rubrics1960)
        && crate::date::week_label(d, m, y, false, true) == "Epi1"@
        && lc_has(or_empty(inherited_section(files, chain[0], "Rule"@, 4)), "infra octavam epiphani"@)
        && (hour == "Vespera"@ || !chain[0].sections@.contains_key("Oratio"@)) {
        inh_section(files, "Tempora/Epi1-0a"@, "Oratio"@)
    } else {
        None
    }
}

/// Whether a rank line is a plain feria (class with "feria", not
/// "feria major") with no commune reference.
pub open spec fn plain_feria_line(line: Seq<char>) -> bool {
    let seg = split_pat(line, seq![';', ';']);
    let class = if seg.len() > 1 { ascii_lower(seg[1]) } else { Seq::empty() };
    contains_seq(class, "feria"@) && !contains_seq(class, "feria major"@)
        && (seg.len() <= 3 || trim_text(seg[3]).len() == 0)
}

/// A plain Tempora feria with no Oratio of its own takes its week's
/// Sunday Oratio.
pub open spec fn feria_sunday_oratio(files: Map<Seq<char>, HorasFile>, label: Seq<char>, chain: Seq<HorasFile>, day_key: Option<Seq<char>>) -> Option<Seq<char>> {
    match day_key {
        Some(k) => if label == "Oratio"@ && has_prefix(k, "Tempora/"@)
            && !chain[0].sections@.contains_key("Oratio"@) && !chain[0].sections@.contains_key("Oratio 2"@)
            && !chain[0].sections@.contains_key("Oratio 3"@)
            && active_rank(files, k, inherit_fuel()) is Some && plain_feria_line(rank_line_text(files, k))
            && sunday_fallback(k) is Some {
            inh_section(files, sunday_fallback(k)->0, "Oratio"@)
        } else {
            None
        },
        None => None,
    }
}

/// The Ember Vespers' Sunday Oratio: from the week's Sunday by the day
/// key, else by the date's week label, whichever has an Oratio first.
pub open spec fn ember_sunday_oratio(files: Map<Seq<char>, HorasFile>, day_key: Option<Seq<char>>, y: int, m: int, d: int) -> Option<Seq<char>> {
    let from_key = match day_key { Some(k) => week_sunday_key(k), None => None };
    let w = crate::date::week_label(d, m, y, false, true);
    if from_key is Some && inh_section(files, from_key->0, "Oratio"@) is Some {
        inh_section(files, from_key->0, "Oratio"@)
    } else if w.len() > 0 && inh_section(files, "Tempora/"@ + w + "-0"@, "Oratio"@) is Some {
        inh_section(files, "Tempora/"@ + w + "-0"@, "Oratio"@)
    } else {
        None
    }
}

/// What the slot `label` of `hour` receives for the day: nothing from
/// an empty chain; for an Oratio slot, first the Epiphany-octave rule,
/// then the Tempora-feria rule, then the Ember rule; otherwise the
/// chain (see [`spliced_from_chain`]; an Ember Vespers searches only
/// `Oratio`).
pub open spec fn spliced_slot(files: Map<Seq<char>, HorasFile>, label: Seq<char>, hour: Seq<char>, rubric: Rubric, chain: Seq<HorasFile>, prayers: Option<HorasFile>, day_key: Option<Seq<char>>, y: int, m: int, d: int) -> Seq<RenderedView> {
    let ember = ember_vespers(files, label, hour, rubric, chain, day_key);
    if chain.len() == 0 || label == "Psalmi cum lectionibus"@ {
        spliced_from_chain(files, label, hour, rubric, chain, prayers, false)
    } else if epiphany_octave_oratio(files, label, hour, rubric, chain, y, m, d) is Some {
        seq![RenderedView::Plain { body: finished(at_expanded(files, epiphany_octave_oratio(files, label, hour, rubric, chain, y, m, d)->0,
            "Oratio"@, redirect_depth()), true, chain, prayers, rubric) }]
    } else if feria_sunday_oratio(files, label, chain, day_key) is Some {
        seq![RenderedView::Plain { body: finished(at_expanded(files, feria_sunday_oratio(files, label, chain, day_key)->0,
            "Oratio"@, redirect_depth()), true, chain, prayers, rubric) }]
    } else if ember && ember_sunday_oratio(files, day_key, y, m, d) is Some {
        seq![RenderedView::Plain { body: finished(at_expanded(files, ember_sunday_oratio(files, day_key, y, m, d)->0,
            "Oratio"@, redirect_depth()), true, chain, prayers, rubric) }]
    } else {
        spliced_from_chain(files, label, hour, rubric, chain, prayers, ember)
    }
}

fn plain_feria_line_exec(line: &str) -> (r: bool)
    ensures
        r == plain_feria_line(line@),
{
    proof { reveal_strlit(";;"); assert(";;"@ =~= seq![';', ';']); }
    let v = chars_of(line);
    let seg = crate::horas::split_pat_exec(&v, ";;");
    proof {
        assert(seg@.map_values(|x: Vec<char>| x@).len() == seg@.len());
        if seg@.len() > 1 { assert(seg@.map_values(|x: Vec<char>| x@)[1] == seg@[1]@); }
        if seg@.len() > 3 { assert(seg@.map_values(|x: Vec<char>| x@)[3] == seg@[3]@); }
    }
    let class: Vec<char> = if seg.len() > 1 { crate::text::ascii_lower_chars(&seg[1]) } else { Vec::new() };
    assert(class@ =~= if seg@.len() > 1 { ascii_lower(seg@[1]@) } else { Seq::<char>::empty() });
    let no_commune = seg.len() <= 3 || trim_chars(&seg[3]).len() == 0;
    contains_str(&class, "feria") && !contains_str(&class, "feria major") && no_commune
}

fn inh_section_of(corpus: &HorasCorpus, key: &str, name: &str) -> (r: Option<String>)
    ensures
        match r {
            Some(t) => inh_section(corpus.files@, key@, name@) == Some(t@),
            None => inh_section(corpus.files@, key@, name@) is None,
        },
{
    match lookup(corpus, key) {
        Some(f) => crate::horas::section_via_inheritance(corpus, f, name),
        None => None,
    }
}

fn ember_vespers_exec(corpus: &HorasCorpus, label: &str, hour: &str, rubric: Rubric, chain: &[&HorasFile], day_key: Option<&str>) -> (r: bool)
    ensures
        r == ember_vespers(corpus.files@, label@, hour@, rubric, chain_files(chain@), match day_key { Some(k) => Some(k@), None => None }),
{
    proof { reveal_strlit("Officium"); }
    let in_pasc7 = match day_key {
        Some(k) => {
            let kv = chars_of(k);
            starts_with_str(&kv, "Tempora/Pasc7-")
        },
        None => false,
    };
    let r60 = match rubric { Rubric::Rubrics1960 => true, _ => false };
    if !(same_text(label, "Oratio") && same_text(hour, "Vespera") && !in_pasc7 && !r60 && chain.len() > 0) {
        return false;
    }
    let f: &HorasFile = chain[0];
    assert(chain_files(chain@)[0] == *f);
    let off = match crate::horas::section_via_inheritance(corpus, f, "Officium") { Some(t) => t, None => String::new() };
    lc_has_exec(off.as_str(), "quattuor temporum")
}

/// Splices the day's proper for the slot `label` of `hour` onto `out`
/// (see [`spliced_slot`]).
pub fn splice_proper_into_slot(
    out: &mut Vec<RenderedLine>,
    corpus: &HorasCorpus,
    label: &str,
    hour: &str,
    rubric: Rubric,
    chain: &[&HorasFile],
    prayers: Option<&HorasFile>,
    day_key: Option<&str>,
    year: i32,
    month: u32,
    day: u32,
)
    requires
        chain@.len() > 0 && reads_week(corpus.files@, label@, hour@, rubric, chain_files(chain@),
            match day_key { Some(k) => Some(k@), None => None })
            ==> crate::date::getweek_domain(day as int, month as int, year as int, false),
    ensures
        views(final(out)@) == views(old(out)@) + spliced_slot(corpus.files@, label@, hour@, rubric, chain_files(chain@),
            match prayers { Some(p) => Some(*p), None => None },
            match day_key { Some(k) => Some(k@), None => None }, year as int, month as int, day as int),
{
    let ghost files = chain_files(chain@);
    let ghost dk = match day_key { Some(k) => Some(k@), None => None };
    proof {
        reveal_strlit("Oratio"); reveal_strlit("Oratio 2"); reveal_strlit("Oratio 3"); reveal_strlit("Rule");
        reveal_strlit("Tempora/"); reveal_strlit("-0"); reveal_strlit("Epi1"); reveal_strlit("Tempora/Epi1-0a");
    }
    if chain.len() == 0 || same_text(label, "Psalmi cum lectionibus") {
        splice_from_chain(out, corpus, label, hour, rubric, chain, prayers, false);
        return;
    }
    let winner: &HorasFile = chain[0];
    assert(files[0] == *winner);
    let name = saint_name_exec(chain);
    let is_oratio = same_text(label, "Oratio");
    let ember = ember_vespers_exec(corpus, label, hour, rubric, chain, day_key);
    let reduced = match rubric { Rubric::Reduced1955 | Rubric::Rubrics1960 => true, _ => false };
    // 1955/1960: the suppressed octave of the Epiphany.
    if is_oratio && reduced {
        let w = crate::date::getweek(day, month, year, false, true);
        if same_text(w.as_str(), "Epi1") {
            let rule = match crate::horas::section_via_inheritance(corpus, winner, "Rule") { Some(t) => t, None => String::new() };
            let own_or_vespers = same_text(hour, "Vespera") || !winner.sections.contains_key("Oratio");
            if lc_has_exec(rule.as_str(), "infra octavam epiphani") && own_or_vespers {
                match inh_section_of(corpus, "Tempora/Epi1-0a", "Oratio") {
                    Some(b) => {
                        let expanded = expand_at_redirect(corpus, b.as_str(), "Oratio");
                        let text = finish_body(expanded.as_str(), true, &name, prayers, rubric);
                        push_line(out, RenderedLine::Plain { body: text });
                        return;
                    },
                    None => {},
                }
            }
        }
    }
    assert(epiphany_octave_oratio(corpus.files@, label@, hour@, rubric, files, year as int, month as int, day as int) is None);
    // A plain Tempora feria takes its week's Sunday Oratio.
    match day_key {
        Some(k) => {
            let kv = chars_of(k);
            if is_oratio && starts_with_str(&kv, "Tempora/") && !winner.sections.contains_key("Oratio")
                && !winner.sections.contains_key("Oratio 2") && !winner.sections.contains_key("Oratio 3") {
                match crate::office_day::active_rank_line(corpus, k) {
                    Some(x) => {
                        if plain_feria_line_exec(x.line.as_str()) {
                            match tempora_sunday_fallback(k) {
                                Some(p) => match inh_section_of(corpus, p.as_str(), "Oratio") {
                                    Some(b) => {
                                        let expanded = expand_at_redirect(corpus, b.as_str(), "Oratio");
                                        let text = finish_body(expanded.as_str(), true, &name, prayers, rubric);
                                        push_line(out, RenderedLine::Plain { body: text });
                                        return;
                                    },
                                    None => {},
                                },
                                None => {},
                            }
                        }
                    },
                    None => {},
                }
            }
        },
        None => {},
    }
    assert(feria_sunday_oratio(corpus.files@, label@, files, dk) is None);
    // Ember Vespers: the week's Sunday Oratio.
    if ember {
        let from_key = match day_key {
            Some(k) => crate::horas::week_sunday_key_for_tempora(k),
            None => None,
        };
        match from_key {
            Some(fk) => match inh_section_of(corpus, fk.as_str(), "Oratio") {
                Some(b) => {
                    let expanded = expand_at_redirect(corpus, b.as_str(), "Oratio");
                    let text = finish_body(expanded.as_str(), true, &name, prayers, rubric);
                    push_line(out, RenderedLine::Plain { body: text });
                    return;
                },
                None => {},
            },
            None => {},
        }
        let w = crate::date::getweek(day, month, year, false, true);
        if !w.as_str().is_empty() {
            let mut key = String::new();
            push_str(&mut key, "Tempora/");
            push_str(&mut key, w.as_str());
            push_str(&mut key, "-0");
            match inh_section_of(corpus, key.as_str(), "Oratio") {
                Some(b) => {
                    let expanded = expand_at_redirect(corpus, b.as_str(), "Oratio");
                    let text = finish_body(expanded.as_str(), true, &name, prayers, rubric);
                    push_line(out, RenderedLine::Plain { body: text });
                    return;
                },
                None => {},
            }
        }
    }
    splice_from_chain(out, corpus, label, hour, rubric, chain, prayers, ember);
}

// ─── The template walk ───────────────────────────────────────────────

/// What a walk over an hour template reads besides the template.
pub struct HourSetting {
    pub files: Map<Seq<char>, HorasFile>,
    pub year: int,
    pub month: int,
    pub day: int,
    pub hour: Seq<char>,
    pub rubric: Rubric,
    /// Whether level-1 rubric notes are shown.
    pub rubrics: bool,
    pub day_key: Option<Seq<char>>,
    pub chain: Seq<HorasFile>,
    pub prayers: Option<HorasFile>,
    /// Whether the ferial preces are said at this hour.
    pub preces: bool,
}

/// Whether the Oratio block of the hour is left out: Compline of Holy
/// Thursday, Good Friday and Holy Saturday.
pub open spec fn triduum_compline(hour: Seq<char>, day_key: Option<Seq<char>>) -> bool {
    hour == "Completorium"@ && match day_key {
        Some(k) => has_prefix(k, "Tempora/Quad6-4"@) || has_prefix(k, "Tempora/Quad6-5"@)
            || has_prefix(k, "Tempora/Quad6-6"@),
        None => false,
    }
}

/// The text of an optional string.
pub open spec fn opt_text(o: Option<String>) -> Option<Seq<char>> {
    match o {
        Some(s) => Some(s@),
        None => None,
    }
}

/// A `&macro` body from the Prayers file (empty when there is none).
pub open spec fn macro_or_empty(prayers: Option<HorasFile>, name: Seq<char>) -> Seq<char> {
    match prayers {
        Some(p) => match macro_text(p, name) {
            Some(t) => t,
            None => Seq::empty(),
        },
        None => Seq::empty(),
    }
}

/// The preces form of `Dominus vobiscum` (empty when there is none).
pub open spec fn preces_or_empty(prayers: Option<HorasFile>) -> Seq<char> {
    match prayers {
        Some(p) => match preces_form_text(p) {
            Some(t) => t,
            None => Seq::empty(),
        },
        None => Seq::empty(),
    }
}

/// The body of a `&name` template line: `Dominus_vobiscum1` on a day
/// takes the preces form when the preces are said; every other macro
/// reads the Prayers file.
pub open spec fn macro_body(name: Seq<char>, st: HourSetting) -> Seq<char> {
    if name == "Dominus_vobiscum1"@ && st.day_key is Some && st.preces {
        preces_or_empty(st.prayers)
    } else {
        macro_or_empty(st.prayers, name)
    }
}

/// The lines one template line renders to, and whether the Oratio
/// block is being left out after it.
pub open spec fn step(line: OrdoLine, skipping: bool, st: HourSetting) -> (Seq<RenderedView>, bool) {
    let k = line.kind@;
    if k == "section"@ {
        match opt_text(line.label) {
            Some(l) => if triduum_compline(st.hour, st.day_key) && l == "Oratio"@ {
                (Seq::empty(), true)
            } else {
                (seq![RenderedView::Section { label: l }] + spliced_slot(st.files, l, st.hour, st.rubric, st.chain, st.prayers,
                    st.day_key, st.year, st.month, st.day), false)
            },
            None => (Seq::empty(), skipping),
        }
    } else if skipping {
        (Seq::empty(), skipping)
    } else if k == "rubric"@ {
        let level: u8 = match line.level { Some(v) => v, None => 1u8 };
        if level == 1 && !st.rubrics {
            (Seq::empty(), skipping)
        } else {
            match opt_text(line.body) {
                Some(b) => (seq![RenderedView::Rubric { body: b, level: level }], skipping),
                None => (Seq::empty(), skipping),
            }
        }
    } else if k == "spoken"@ {
        match (opt_text(line.role), opt_text(line.body)) {
            (Some(r), Some(b)) => (seq![RenderedView::Spoken { role: r, body: b }], skipping),
            _ => (Seq::empty(), skipping),
        }
    } else if k == "plain"@ {
        match opt_text(line.body) {
            Some(b) => {
                let e = match dollar_macro(b, st.prayers) { Some(t) => t, None => b };
                (seq![RenderedView::Plain { body: office_spelling(e, st.rubric) }], skipping)
            },
            None => (Seq::empty(), skipping),
        }
    } else if k == "macro"@ {
        match opt_text(line.name) {
            Some(n) => (seq![RenderedView::Macro { name: n, body: office_spelling(macro_body(n, st), st.rubric) }], skipping),
            None => (Seq::empty(), skipping),
        }
    } else if k == "proper"@ || k == "hook"@ {
        match opt_text(line.name) {
            Some(n) => (seq![RenderedView::Proper { section: n }], skipping),
            None => (Seq::empty(), skipping),
        }
    } else {
        (Seq::empty(), skipping)
    }
}

/// The lines the first `n` template lines render to, and whether the
/// Oratio block is being left out after them.
pub open spec fn walk(t: Seq<OrdoLine>, n: int, st: HourSetting) -> (Seq<RenderedView>, bool)
    decreases n,
{
    if n <= 0 {
        (Seq::empty(), false)
    } else {
        let prev = walk(t, n - 1, st);
        let s = step(t[n - 1], prev.1, st);
        (prev.0 + s.0, s.1)
    }
}

/// The Ordinarium file an hour renders from.
pub open spec fn ordinarium_key(hour: Seq<char>) -> Seq<char> {
    "Ordinarium/"@ + if is_minor_hour(hour) { "Minor"@ } else { hour }
}

/// The Prayers file of the corpus, if it has one.
pub open spec fn prayers_file(files: Map<Seq<char>, HorasFile>) -> Option<HorasFile> {
    match corpus_key(files, "Psalterium/Common/Prayers"@) {
        Some(k) => Some(files[k]),
        None => None,
    }
}

/// The rendered hour: nothing when the corpus lacks the hour's
/// Ordinarium file, else the walk over its whole template.
pub open spec fn office_hour(files: Map<Seq<char>, HorasFile>, st: HourSetting) -> Seq<RenderedView> {
    match corpus_key(files, ordinarium_key(st.hour)) {
        Some(k) => walk(files[k].template@, files[k].template@.len() as int, st).0,
        None => Seq::empty(),
    }
}

/// The setting of a walk for `args`.
pub open spec fn setting_of(files: Map<Seq<char>, HorasFile>, args: OfficeArgs, chain: Seq<HorasFile>, preces: bool) -> HourSetting {
    HourSetting {
        files: files,
        year: args.year as int,
        month: args.month as int,
        day: args.day as int,
        hour: args.hour@,
        rubric: args.rubric,
        rubrics: args.rubrics,
        day_key: match args.day_key { Some(k) => Some(k@), None => None },
        chain: chain,
        prayers: prayers_file(files),
        preces: preces,
    }
}

fn push_line(out: &mut Vec<RenderedLine>, line: RenderedLine)
    ensures
        views(final(out)@) == views(old(out)@).push(line@),
{
    proof { lemma_views_push(out@, line); }
    out.push(line);
}

fn opt_str(o: &Option<String>) -> (r: Option<&str>)
    ensures
        match r {
            Some(s) => opt_text(*o) == Some(s@),
            None => opt_text(*o) is None,
        },
{
    match o {
        Some(s) => Some(s.as_str()),
        None => None,
    }
}

/// Renders one template line onto `out` (see [`step`]); returns whether
/// the Oratio block is being left out after it.
#[verifier::rlimit(50)]
fn render_line(
    out: &mut Vec<RenderedLine>,
    corpus: &HorasCorpus,
    line: &OrdoLine,
    skipping: bool,
    args: &OfficeArgs,
    chain: &[&HorasFile],
    prayers: Option<&HorasFile>,
    preces_fires: bool,
    block: bool,
    Ghost(st): Ghost<HourSetting>,
) -> (r: bool)
    requires
        st.files == corpus.files@,
        st.year == args.year as int,
        st.month == args.month as int,
        st.day == args.day as int,
        chain@.len() > 0 && (args.rubric is Reduced1955 || args.rubric is Rubrics1960 || args.hour@ == "Vespera"@)
            ==> crate::date::getweek_domain(args.day as int, args.month as int, args.year as int, false),
        st.hour == args.hour@,
        st.rubric == args.rubric,
        st.rubrics == args.rubrics,
        st.day_key == match args.day_key { Some(k) => Some(k@), None => None },
        st.chain == chain_files(chain@),
        st.prayers == match prayers { Some(p) => Some(*p), None => None },
        st.preces == preces_fires,
        block == triduum_compline(st.hour, st.day_key),
    ensures
        views(final(out)@) == views(old(out)@) + step(*line, skipping, st).0,
        r == step(*line, skipping, st).1,
{
    let ghost start = views(out@);
    let kind = line.kind.as_str();
    if same_text(kind, "section") {
        match opt_str(&line.label) {
            Some(l) => {
                if block && same_text(l, "Oratio") {
                    assert(views(out@) =~= start + step(*line, skipping, st).0);
                    return true;
                }
                push_line(out, RenderedLine::Section { label: owned(l) });
                splice_proper_into_slot(out, corpus, l, args.hour, args.rubric, chain, prayers, args.day_key,
                    args.year, args.month, args.day);
                assert(views(out@) =~= start + step(*line, skipping, st).0);
                return false;
            },
            None => {
                assert(views(out@) =~= start + step(*line, skipping, st).0);
                return skipping;
            },
        }
    }
    if skipping {
        assert(views(out@) =~= start + step(*line, skipping, st).0);
        return skipping;
    }
    if same_text(kind, "rubric") {
        let level: u8 = match line.level { Some(v) => v, None => 1 };
        if level == 1 && !args.rubrics {
            assert(views(out@) =~= start + step(*line, skipping, st).0);
            return skipping;
        }
        match opt_str(&line.body) {
            Some(b) => push_line(out, RenderedLine::Rubric { body: owned(b), level }),
            None => {},
        }
        assert(views(out@) =~= start + step(*line, skipping, st).0);
        return skipping;
    }
    if same_text(kind, "spoken") {
        match (opt_str(&line.role), opt_str(&line.body)) {
            (Some(r), Some(b)) => push_line(out, RenderedLine::Spoken { role: owned(r), body: owned(b) }),
            _ => {},
        }
        assert(views(out@) =~= start + step(*line, skipping, st).0);
        return skipping;
    }
    if same_text(kind, "plain") {
        match opt_str(&line.body) {
            Some(b) => {
                let e = match expand_dollar_macro(b, prayers) {
                    Some(t) => t,
                    None => owned(b),
                };
                push_line(out, RenderedLine::Plain { body: apply_office_spelling(e.as_str(), args.rubric) });
            },
            None => {},
        }
        assert(views(out@) =~= start + step(*line, skipping, st).0);
        return skipping;
    }
    if same_text(kind, "macro") {
        match opt_str(&line.name) {
            Some(n) => {
                let body = if same_text(n, "Dominus_vobiscum1") && args.day_key.is_some() && preces_fires {
                    match prayers {
                        Some(p) => match dominus_vobiscum_preces_form(p) {
                            Some(t) => t,
                            None => String::new(),
                        },
                        None => String::new(),
                    }
                } else {
                    match lookup_horas_macro(prayers, n) {
                        Some(t) => t,
                        None => String::new(),
                    }
                };
                assert(body@ == macro_body(n@, st));
                push_line(out, RenderedLine::Macro { name: owned(n), body: apply_office_spelling(body.as_str(), args.rubric) });
            },
            None => {},
        }
        assert(views(out@) =~= start + step(*line, skipping, st).0);
        return skipping;
    }
    if same_text(kind, "proper") || same_text(kind, "hook") {
        match opt_str(&line.name) {
            Some(n) => push_line(out, RenderedLine::Proper { section: owned(n) }),
            None => {},
        }
        assert(views(out@) =~= start + step(*line, skipping, st).0);
        return skipping;
    }
    assert(views(out@) =~= start + step(*line, skipping, st).0);
    skipping
}

/// Renders an hour for a given commune chain: walks the hour's Ordinarium template, turning each
/// line into a rendered line, inlining `&macro` and `$macro`
/// references from `Psalterium/Common/Prayers`, splicing the day's
/// proper from `chain` into each `#Section` slot, and leaving out the
/// Oratio block of Compline on the last three days of Holy Week.
/// `preces_fires` says whether the ferial preces are said, which
/// decides the form of `Dominus_vobiscum1`. Nothing is rendered when
/// the corpus has no Ordinarium file for the hour.
pub fn render_office_hour(corpus: &HorasCorpus, args: &OfficeArgs, chain: &[&HorasFile], preces_fires: bool) -> (r: Vec<RenderedLine>)
    requires
        chain@.len() > 0 && (args.rubric is Reduced1955 || args.rubric is Rubrics1960 || args.hour@ == "Vespera"@)
            ==> crate::date::getweek_domain(args.day as int, args.month as int, args.year as int, false),
    ensures
        views(r@) == office_hour(corpus.files@, setting_of(corpus.files@, *args, chain_files(chain@), preces_fires)),
{
    let ghost st = setting_of(corpus.files@, *args, chain_files(chain@), preces_fires);
    let mut key = String::new();
    push_str(&mut key, "Ordinarium/");
    push_str(&mut key, ordinarium_file_for_hour(args.hour));
    proof {
        reveal_strlit("Ordinarium/");
        reveal_strlit("Minor");
        assert(key@ =~= ordinarium_key(args.hour@));
    }
    let file = match lookup(corpus, key.as_str()) {
        Some(f) => f,
        None => {
            let r: Vec<RenderedLine> = Vec::new();
            assert(views(r@) =~= Seq::<RenderedView>::empty());
            return r;
        },
    };
    let prayers = lookup(corpus, "Psalterium/Common/Prayers");
    let block = same_text(args.hour, "Completorium") && match args.day_key {
        Some(k) => {
            let kv = chars_of(k);
            starts_with_str(&kv, "Tempora/Quad6-4") || starts_with_str(&kv, "Tempora/Quad6-5")
                || starts_with_str(&kv, "Tempora/Quad6-6")
        },
        None => false,
    };
    let t = &file.template;
    let mut out: Vec<RenderedLine> = Vec::new();
    let mut skipping = false;
    let mut i: usize = 0;
    assert(views(out@) =~= walk(t@, 0, st).0);
    while i < t.len()
        invariant
            i <= t@.len(),
            views(out@) == walk(t@, i as int, st).0,
            skipping == walk(t@, i as int, st).1,
            st == setting_of(corpus.files@, *args, chain_files(chain@), preces_fires),
            st.prayers == match prayers { Some(p) => Some(*p), None => None },
            block == triduum_compline(st.hour, st.day_key),
            chain@.len() > 0 && (args.rubric is Reduced1955 || args.rubric is Rubrics1960 || args.hour@ == "Vespera"@)
                ==> crate::date::getweek_domain(args.day as int, args.month as int, args.year as int, false),
        decreases t.len() - i,
    {
        skipping = render_line(&mut out, corpus, &t[i], skipping, args, chain, prayers, preces_fires, block, Ghost(st));
        i = i + 1;
    }
    out
}

// ─── Laws of the Oratio slot ─────────────────────────────────────────

/// The Ember days within the Pentecost octave keep their own Oratio at
/// Vespers: for a `Tempora/Pasc7-…` day, when neither the Epiphany-week
/// nor the Tempora-feria rule applies, the Vespers Oratio slot receives
/// what the chain gives it, with all of the day's own Oratio forms,
/// never the week Sunday's, whatever the day's `[Officium]` says. The
/// same holds at every other hour, and under the 1960 rubrics.
pub proof fn lemma_ember_sunday_oratio_only_at_vespers(
    files: Map<Seq<char>, HorasFile>,
    hour: Seq<char>,
    rubric: Rubric,
    chain: Seq<HorasFile>,
    prayers: Option<HorasFile>,
    day_key: Option<Seq<char>>,
    y: int,
    m: int,
    d: int,
)
    requires
        hour != "Vespera"@ || rubric is Rubrics1960
            || (day_key is Some && has_prefix(day_key->0, "Tempora/Pasc7-"@)),
        epiphany_octave_oratio(files, "Oratio"@, hour, rubric, chain, y, m, d) is None,
        feria_sunday_oratio(files, "Oratio"@, chain, day_key) is None,
    ensures
        spliced_slot(files, "Oratio"@, hour, rubric, chain, prayers, day_key, y, m, d)
            == spliced_from_chain(files, "Oratio"@, hour, rubric, chain, prayers, false),
{
    reveal_strlit("Oratio");
    reveal_strlit("Psalmi cum lectionibus");
    assert("Oratio"@ != "Psalmi cum lectionibus"@) by {
        assert("Oratio"@[0] != "Psalmi cum lectionibus"@[0]);
    }
    assert(!ember_vespers(files, "Oratio"@, hour, rubric, chain, day_key));
}

} // verus!
