//! The shapes of the bundled data files: kalendar cells, Ordo template
//! lines, the Ordo corpus, Breviary files and psalm files. Maps keyed
//! by text are `StringHashMap`s, whose contents Verus models as a
//! `Map` from the key's characters to the value.

use vstd::prelude::*;
use vstd::hash_map::StringHashMap;

pub use crate::kalendaria_layers::Cell;

verus! {

/// One line of an Ordo / Ordinarium template, with its conditional
/// guard.
#[derive(Debug, Clone, Default)]
pub struct OrdoLine {
    /// `Some("S"|"R"|"D"|…)` for flag guards, `Some("&hook")` for hook
    /// guards, `None` for an unconditional line.
    pub guard: Option<String>,
    /// `blank`, `section`, `rubric`, `spoken`, `plain`, `macro`,
    /// `proper` or `hook`.
    pub kind: String,
    /// Body text of `plain` / `spoken` / `rubric` / `hook` lines.
    pub body: Option<String>,
    /// Speaker tag of `spoken` lines (V/R/S/M/D/C/J).
    pub role: Option<String>,
    /// Heading text of `section` lines.
    pub label: Option<String>,
    /// Rubric italic level (1, 2, 3) or omitted-comment marker (21, 22).
    pub level: Option<u8>,
    /// `&macro` / `&proper` / `!&hook` identifier.
    pub name: Option<String>,
    /// Inline rubric text after a hook name.
    pub text: Option<String>,
}

/// The Mass Ordo corpus: per-cursus templates, the macro dictionary and
/// the preface dictionary.
pub struct OrdoCorpus {
    /// Cursus name (`Ordo`, `Ordo67`, `OrdoN`, …) → template lines.
    pub templates: StringHashMap<Vec<OrdoLine>>,
    /// `&MacroName` → static prayer text.
    pub prayers: StringHashMap<String>,
    /// Preface name → preface body.
    pub prefaces: StringHashMap<String>,
}

impl OrdoCorpus {
    /// An empty corpus.
    pub fn new() -> (r: Self)
        ensures
            r.templates@ == Map::<Seq<char>, Vec<OrdoLine>>::empty(),
            r.prayers@ == Map::<Seq<char>, String>::empty(),
            r.prefaces@ == Map::<Seq<char>, String>::empty(),
    {
        OrdoCorpus {
            templates: StringHashMap::new(),
            prayers: StringHashMap::new(),
            prefaces: StringHashMap::new(),
        }
    }

    /// Sets the template of cursus `name`.
    pub fn insert_template(&mut self, name: String, lines: Vec<OrdoLine>)
        ensures
            final(self).templates@ == old(self).templates@.insert(name@, lines),
            final(self).prayers@ == old(self).prayers@,
            final(self).prefaces@ == old(self).prefaces@,
    {
        self.templates.insert(name, lines);
    }

    /// Sets the text of macro `name`.
    pub fn insert_prayer(&mut self, name: String, text: String)
        ensures
            final(self).prayers@ == old(self).prayers@.insert(name@, text),
            final(self).templates@ == old(self).templates@,
            final(self).prefaces@ == old(self).prefaces@,
    {
        self.prayers.insert(name, text);
    }

    /// Sets the body of preface `name`.
    pub fn insert_preface(&mut self, name: String, text: String)
        ensures
            final(self).prefaces@ == old(self).prefaces@.insert(name@, text),
            final(self).templates@ == old(self).templates@,
            final(self).prayers@ == old(self).prayers@,
    {
        self.prefaces.insert(name, text);
    }
}

/// One Breviary file: `[Section] body` sections (Tempora, Sancti,
/// Commune, Psalterium files) or an Ordinarium hour template.
pub struct HorasFile {
    pub sections: StringHashMap<String>,
    /// The section names, in the order they were first inserted.
    pub section_names: Vec<String>,
    pub template: Vec<OrdoLine>,
}

impl HorasFile {
    /// `section_names` lists exactly the names of the sections.
    pub open spec fn names_listed(&self) -> bool {
        &&& forall|i: int| 0 <= i < self.section_names@.len()
            ==> self.sections@.contains_key(#[trigger] self.section_names@[i]@)
        &&& forall|k: Seq<char>| #[trigger] self.sections@.contains_key(k)
            ==> exists|i: int| 0 <= i < self.section_names@.len() && self.section_names@[i]@ == k
    }

    /// A file with no section and no template line.
    pub fn new() -> (r: Self)
        ensures
            r.sections@ == Map::<Seq<char>, String>::empty(),
            r.template@ == Seq::<OrdoLine>::empty(),
            r.names_listed(),
    {
        HorasFile { sections: StringHashMap::new(), section_names: Vec::new(), template: Vec::new() }
    }

    /// Sets section `name` to `body`, replacing an earlier body.
    pub fn insert_section(&mut self, name: String, body: String)
        ensures
            final(self).sections@ == old(self).sections@.insert(name@, body),
            final(self).template@ == old(self).template@,
            old(self).names_listed() ==> final(self).names_listed(),
    {
        let ghost old_names = self.section_names@;
        if !self.sections.contains_key(name.as_str()) {
            self.section_names.push(crate::text::owned(name.as_str()));
        }
        let ghost key = name@;
        self.sections.insert(name, body);
        proof {
            if old(self).names_listed() {
                assert forall|k: Seq<char>| #[trigger] self.sections@.contains_key(k)
                    implies exists|i: int| 0 <= i < self.section_names@.len() && self.section_names@[i]@ == k by {
                    if k == key {
                        if !old(self).sections@.contains_key(key) {
                            assert(self.section_names@[old_names.len() as int]@ == k);
                        } else {
                            let i = choose|i: int| 0 <= i < old_names.len() && old_names[i]@ == k;
                            assert(self.section_names@[i]@ == k);
                        }
                    } else {
                        assert(old(self).sections@.contains_key(k));
                        let i = choose|i: int| 0 <= i < old_names.len() && old_names[i]@ == k;
                        assert(self.section_names@[i]@ == k);
                    }
                }
                assert forall|i: int| 0 <= i < self.section_names@.len()
                    implies self.sections@.contains_key(#[trigger] self.section_names@[i]@) by {
                    if i < old_names.len() {
                        assert(self.section_names@[i] == old_names[i]);
                    }
                }
            }
        }
    }

    /// Appends a template line.
    pub fn push_template_line(&mut self, line: OrdoLine)
        ensures
            final(self).template@ == old(self).template@.push(line),
            final(self).sections@ == old(self).sections@,
            final(self).section_names@ == old(self).section_names@,
    {
        self.template.push(line);
    }
}

/// One psalm file: the Vulgate text and, where it exists, the Pius XII
/// (Bea) revision.
#[derive(Debug, Clone, Default)]
pub struct PsalmFile {
    pub latin: String,
    /// Empty when the psalm has no Bea variant.
    pub latin_bea: String,
}

} // verus!
