//! Value types and small helpers of the per-hour template walker.

use vstd::prelude::*;
use crate::core_types::RuleLine;
use crate::horas::join_lines;
use crate::text::{push_char, push_str};

verus! {

/// Walker state for one pass over an Ordinarium template.
#[derive(Debug, Default, Clone)]
pub struct WalkerState {
    /// Skip the next non-section line.
    pub skip: bool,
    /// A special conclusion was emitted; suppress later additions.
    pub special: bool,
    /// The Litany of the Saints was emitted.
    pub litania: bool,
    /// Anti-duplicate guard for octave commemorations.
    pub octavam: String,
    /// Current `#Section` label.
    pub current_label: String,
}

/// Translates a section label to its heading. The Office is rendered
/// in Latin, where labels already are headings: the label itself.
pub fn translate_label(label: &str) -> (r: String)
    ensures
        r@ == label@,
{
    label.to_owned()
}

/// Records a build-script trace event. Events are not kept: no effect.
pub fn setbuild(label: &str, kind: BuildEventKind, detail: &str) {
}

/// The winner's `[Rule]` body: its rule lines joined with newlines.
pub fn winner_rule(rule: &[RuleLine]) -> (r: String)
    ensures
        r@ == join_lines(rule@.map_values(|l: RuleLine| l.0@)),
{
    let ghost lines = rule@.map_values(|l: RuleLine| l.0@);
    let mut out = String::new();
    let mut i: usize = 0;
    while i < rule.len()
        invariant
            i <= rule@.len(),
            lines == rule@.map_values(|l: RuleLine| l.0@),
            out@ == join_lines(lines.subrange(0, i as int)),
        decreases rule.len() - i,
    {
        let ghost prev = out@;
        if i > 0 {
            push_char(&mut out, '\n');
        }
        push_str(&mut out, rule[i].0.as_str());
        proof {
            let next = lines.subrange(0, i + 1);
            assert(next.drop_last() =~= lines.subrange(0, i as int));
            assert(next.last() == rule@[i as int].0@);
            if i == 0 {
                assert(prev =~= Seq::<char>::empty());
                assert(out@ =~= next[0]);
            } else {
                assert(out@ =~= join_lines(next.drop_last()) + seq!['\n'] + next.last());
            }
        }
        i = i + 1;
    }
    assert(lines.subrange(0, rule@.len() as int) =~= lines);
    out
}

/// Categories of build-script trace events.
#[derive(Debug, Clone, Copy, PartialEq, Eq, Structural)]
pub enum BuildEventKind {
    Include,
    Omit,
    Substitute,
    Limit,
    Special,
}

} // verus!
