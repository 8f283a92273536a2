//! Breviary corpus access: file lookup, sections and psalm bodies.

use vstd::prelude::*;
use crate::data_types::{HorasFile, PsalmFile};
use crate::horas::{corpus_key, psalm_text, tagged_prefix, HorasCorpus, PsalmCorpus};
use crate::text::has_prefix;

verus! {

/// Looks up a Breviary file by key (see [`crate::horas::lookup`]).
pub fn lookup<'a>(corpus: &'a HorasCorpus, key: &str) -> (r: Option<&'a HorasFile>)
    ensures
        match r {
            Some(f) => corpus_key(corpus.files@, key@) is Some
                && *f == corpus.files@[corpus_key(corpus.files@, key@)->0],
            None => corpus_key(corpus.files@, key@) is None,
        },
{
    crate::horas::lookup(corpus, key)
}

/// A section body of a Breviary file: the exact name first, else a
/// rubric-tagged variant (see [`crate::horas::section`]).
pub fn section<'a>(file: &'a HorasFile, name: &str) -> (r: Option<&'a str>)
    ensures
        match r {
            Some(b) => if file.sections@.contains_key(name@) {
                b@ == file.sections@[name@]@
            } else {
                exists|k: Seq<char>| has_prefix(k, tagged_prefix(name@)) && #[trigger] file.sections@.contains_key(k)
                    && b@ == file.sections@[k]@
            },
            None => !file.sections@.contains_key(name@)
                && (file.names_listed() ==> forall|k: Seq<char>| #[trigger] file.sections@.contains_key(k)
                    ==> !has_prefix(k, tagged_prefix(name@))),
        },
{
    crate::horas::section(file, name)
}

/// A psalm body by stem; with `bea` the Bea revision where there is one.
pub fn psalm<'a>(psalms: &'a PsalmCorpus, stem: &str, bea: bool) -> (r: Option<&'a str>)
    ensures
        match r {
            Some(b) => psalms.psalms@.contains_key(stem@) && b@ == psalm_text(psalms.psalms@[stem@], bea),
            None => !psalms.psalms@.contains_key(stem@),
        },
{
    crate::horas::psalm(psalms, stem, bea)
}

} // verus!
