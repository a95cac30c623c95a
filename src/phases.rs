//! The periods of a project's history that are analysed separately: before,
//! during and after its incubation.
use vstd::prelude::*;
use crate::branches::same_text;
use crate::calendar::{Date, next_date, prev_date};

verus! {

#[derive(Clone, Copy, Debug, PartialEq, Eq, Structural)]
pub enum PhaseKind {
    PreIncubation,
    DuringIncubation,
    PostIncubation,
}

/// One period to analyse, from `start` to `end`, both included.
#[derive(Clone, Copy, Debug, PartialEq, Eq, Structural)]
pub struct Phase {
    pub kind: PhaseKind,
    pub start: Date,
    pub end: Date,
}

/// Projects whose history is not split into phases.
pub open spec fn phase_excluded(name: Seq<char>) -> bool {
    name == "Cloudstack"@ || name == "ODFToolkit"@
}

/// The incubation itself, then the time after it when the last commit is later.
pub open spec fn from_incubation(last: Date, start: Date, end: Date) -> Seq<Phase> {
    let during = Phase { kind: PhaseKind::DuringIncubation, start, end };
    if end.key() < last.key() {
        seq![during, Phase { kind: PhaseKind::PostIncubation, start: next_date(end), end: last }]
    } else {
        seq![during]
    }
}

/// The phases of a project whose first and last commits were made on `first`
/// and `last` and whose incubation ran from `start` to `end`: with commits
/// before the incubation, the time before it, the incubation and the time
/// after it (if any); without, only when `force` is set, the incubation and
/// the time after it; nothing for an excluded project.
pub open spec fn phases_of(
    name: Seq<char>,
    first: Date,
    last: Date,
    start: Date,
    end: Date,
    force: bool,
) -> Seq<Phase> {
    if phase_excluded(name) {
        seq![]
    } else if first.key() < start.key() {
        seq![Phase { kind: PhaseKind::PreIncubation, start: first, end: prev_date(start) }]
            + from_incubation(last, start, end)
    } else if force {
        from_incubation(last, start, end)
    } else {
        seq![]
    }
}

/// Plans the phases to analyse; see `phases_of`.
pub fn incubation_phases(
    name: &str,
    first: Date,
    last: Date,
    start: Date,
    end: Date,
    force: bool,
) -> (r: Vec<Phase>)
    requires
        first.wf(),
        last.wf(),
        start.wf(),
        end.wf(),
    ensures
        r@ == phases_of(name@, first, last, start, end, force),
{
    if same_text(name, "Cloudstack") || same_text(name, "ODFToolkit") {
        return Vec::new();
    }
    let prior = first.is_on_or_before(&start) && !start.is_on_or_before(&first);
    if !prior && !force {
        return Vec::new();
    }
    let mut out: Vec<Phase> = Vec::new();
    if prior {
        out.push(Phase { kind: PhaseKind::PreIncubation, start: first, end: start.prev_day() });
    }
    out.push(Phase { kind: PhaseKind::DuringIncubation, start, end });
    if !last.is_on_or_before(&end) {
        out.push(Phase { kind: PhaseKind::PostIncubation, start: end.next_day(), end: last });
    }
    proof {
        if prior {
            assert(out@ =~= seq![Phase { kind: PhaseKind::PreIncubation, start: first, end: prev_date(start) }]
                + from_incubation(last, start, end));
        } else {
            assert(out@ =~= from_incubation(last, start, end));
        }
    }
    out
}

} // verus!
