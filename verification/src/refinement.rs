//! The decisions of the way back from Earth-centred to geodetic positions:
//! what holds on the polar axis, where the refinement of the latitude has
//! nothing to divide by, and when a refinement has to end.

use crate::coordinate::{
    is_geodetic, is_length, EcefCoordinate, GeodeticCoordinate, GeodeticView,
};
use crate::parser::LATITUDE_LIMIT;
use vstd::prelude::*;

verus! {

/// The equatorial radius of the ellipsoid in billionths of a metre.
pub const SEMI_MAJOR_AXIS: i128 = 6_378_137_000_000_000;

/// The inverse of the ellipsoid's flattening in billionths.
pub const INVERSE_FLATTENING: i128 = 298_257_223_563;

/// The polar radius of the ellipsoid in billionths of a metre, the last of
/// them cut off.
pub const SEMI_MINOR_AXIS: i128 = 6_356_752_314_245_179;

/// No refinement takes more steps than this.
pub const MAX_REFINEMENTS: u32 = 100;

/// The polar radius is the equatorial radius less its flattened part.
pub proof fn lemma_semi_minor_axis()
    ensures
        SEMI_MINOR_AXIS == SEMI_MAJOR_AXIS * (INVERSE_FLATTENING - 1_000_000_000)
            / (INVERSE_FLATTENING as int),
{
}

/// The latitude that stands for a point when no refinement gives one: the
/// pole on the side of `z`, or the equator for the plane through the centre.
pub open spec fn polar_latitude(z: int) -> int {
    if z > 0 {
        LATITUDE_LIMIT as int
    } else if z < 0 {
        -LATITUDE_LIMIT
    } else {
        0
    }
}

/// The geodetic position of the point on the polar axis at `z`: at a pole,
/// on the prime meridian, as high as it is beyond the polar radius; the
/// centre itself lies on the equator, an equatorial radius deep.
pub open spec fn axis_position(z: int) -> GeodeticView {
    GeodeticView {
        latitude: polar_latitude(z),
        longitude: 0,
        height: if z > 0 {
            z - SEMI_MINOR_AXIS
        } else if z < 0 {
            -z - SEMI_MINOR_AXIS
        } else {
            -SEMI_MAJOR_AXIS
        },
    }
}

/// On the polar axis every point north of the centre lies at the north pole
/// and every point south of it at the south pole, on the prime meridian, and
/// the position is within the ranges of a geodetic position.
pub proof fn lemma_axis_position(z: int)
    requires
        is_length(z),
    ensures
        z > 0 ==> axis_position(z).latitude == LATITUDE_LIMIT,
        z < 0 ==> axis_position(z).latitude == -LATITUDE_LIMIT,
        axis_position(z).longitude == 0,
        is_geodetic(axis_position(z)),
{
}

/// The latitude to fall back on for `p`.
pub fn fallback_latitude(p: &EcefCoordinate) -> (r: i64)
    ensures
        r == polar_latitude(p@.z),
{
    let z = p.z();
    if z > 0 {
        LATITUDE_LIMIT
    } else if z < 0 {
        -LATITUDE_LIMIT
    } else {
        0
    }
}

/// The geodetic position of `p` where it lies on the polar axis; none where
/// it lies off the axis, and its latitude has to be refined.
pub fn axis_solution(p: &EcefCoordinate) -> (r: Option<GeodeticCoordinate>)
    ensures
        r is Some <==> p@.x == 0 && p@.y == 0,
        r is Some ==> r.unwrap()@ == axis_position(p@.z),
{
    if p.x() != 0 || p.y() != 0 {
        return None;
    }
    let z = p.z();
    let height = if z > 0 {
        z - SEMI_MINOR_AXIS
    } else if z < 0 {
        -z - SEMI_MINOR_AXIS
    } else {
        -SEMI_MAJOR_AXIS
    };
    GeodeticCoordinate::new(fallback_latitude(p), 0, height)
}

/// What one step of the refinement found.
#[derive(Clone, Copy, Debug, PartialEq, Eq, Structural)]
pub enum Finding {
    /// The latitude moved by less than the tolerance.
    Settled,
    /// The latitude moved by the tolerance or more.
    Moved,
    /// The step gave no number.
    Broken,
}

/// What to do after a step of the refinement.
#[derive(Clone, Copy, Debug, PartialEq, Eq, Structural)]
pub enum Verdict {
    /// Take the new latitude and make another step.
    Refine,
    /// Take the new latitude as the result.
    Accept,
    /// Take the fallback latitude as the result.
    GiveUp,
}

/// The verdict on a step with the finding `finding`, made after `done`
/// earlier steps.
pub open spec fn verdict_of(done: nat, finding: Finding) -> Verdict {
    match finding {
        Finding::Settled => Verdict::Accept,
        Finding::Broken => Verdict::GiveUp,
        Finding::Moved => if done + 1 < MAX_REFINEMENTS {
            Verdict::Refine
        } else {
            Verdict::GiveUp
        },
    }
}

/// How many refining verdicts a refinement gets that starts after `done`
/// steps and finds `findings`, one after the other, up to the first verdict
/// that ends it.
pub open spec fn refinements_from(done: nat, findings: Seq<Finding>) -> nat
    decreases findings.len(),
{
    if findings.len() == 0 {
        0
    } else if verdict_of(done, findings[0]) == Verdict::Refine {
        1 + refinements_from(done + 1, findings.drop_first())
    } else {
        0
    }
}

/// However a refinement goes on after `done` steps, it is not told to
/// refine more often than the limit leaves room for.
pub proof fn lemma_refinements_from_bounded(done: nat, findings: Seq<Finding>)
    ensures
        done + refinements_from(done, findings) < MAX_REFINEMENTS || refinements_from(
            done,
            findings,
        ) == 0,
    decreases findings.len(),
{
    if findings.len() > 0 && verdict_of(done, findings[0]) == Verdict::Refine {
        lemma_refinements_from_bounded(done + 1, findings.drop_first());
    }
}

/// Whatever the steps of a refinement find, it makes fewer refining steps
/// than the limit, and so no more steps than the limit in all.
pub proof fn lemma_refinement_bounded(findings: Seq<Finding>)
    ensures
        refinements_from(0, findings) < MAX_REFINEMENTS,
{
    lemma_refinements_from_bounded(0, findings);
}

/// The count of the steps that a refinement has made.
pub struct Refinement {
    done: u32,
}

impl View for Refinement {
    type V = nat;

    closed spec fn view(&self) -> nat {
        self.done as nat
    }
}

impl Refinement {
    #[verifier::type_invariant]
    spec fn wf(self) -> bool {
        self.done < MAX_REFINEMENTS
    }

    /// A refinement that has made no step yet.
    pub fn new() -> (r: Refinement)
        ensures
            r@ == 0,
    {
        Refinement { done: 0 }
    }

    /// The count of the steps made and judged so far.
    pub fn steps(&self) -> (r: u32)
        ensures
            r == self@,
            r < MAX_REFINEMENTS,
    {
        proof {
            use_type_invariant(self);
        }
        self.done
    }

    /// Judges the step that was just made, and counts it where the
    /// refinement goes on.
    pub fn judge(&mut self, finding: Finding) -> (r: Verdict)
        ensures
            r == verdict_of(old(self)@, finding),
            final(self)@ == if r == Verdict::Refine {
                old(self)@ + 1
            } else {
                old(self)@
            },
    {
        proof {
            use_type_invariant(&*self);
        }
        match finding {
            Finding::Settled => Verdict::Accept,
            Finding::Broken => Verdict::GiveUp,
            Finding::Moved => {
                if self.done + 1 < MAX_REFINEMENTS {
                    self.done = self.done + 1;
                    Verdict::Refine
                } else {
                    Verdict::GiveUp
                }
            },
        }
    }
}

/// Whether `states` and `findings` record steps of `step`, one after the
/// other: each state but the first came out of a step made from the state
/// before it, together with the finding at its place.
pub open spec fn is_run<S, F: Fn(&S) -> (S, Finding)>(
    step: F,
    states: Seq<S>,
    findings: Seq<Finding>,
) -> bool {
    &&& states.len() == findings.len() + 1
    &&& forall|i: int|
        0 <= i < findings.len() ==> call_ensures(
            step,
            (&#[trigger] states[i],),
            (states[i + 1], findings[i]),
        )
}

/// Whether a refinement that finds `findings` goes on after each of them
/// but the last, and ends after the last with `verdict`.
pub open spec fn ends_with(findings: Seq<Finding>, verdict: Verdict) -> bool {
    &&& 1 <= findings.len() <= MAX_REFINEMENTS
    &&& forall|i: int|
        0 <= i < findings.len() - 1 ==> verdict_of(i as nat, #[trigger] findings[i])
            == Verdict::Refine
    &&& verdict == verdict_of((findings.len() - 1) as nat, findings.last())
    &&& verdict != Verdict::Refine
}

/// Refines `start` by `step` until a step settles, breaks, or is the last
/// that the limit allows, and returns the state that the last step gave with
/// the verdict on it, which is never to refine on. No more steps are made
/// than the limit allows, whatever they find.
pub fn refine<S, F: Fn(&S) -> (S, Finding)>(start: S, step: F) -> (r: (S, Verdict))
    requires
        forall|s: &S| call_requires(step, (s,)),
    ensures
        exists|states: Seq<S>, findings: Seq<Finding>|
            {
                &&& is_run(step, states, findings)
                &&& states[0] == start
                &&& states.last() == r.0
                &&& ends_with(findings, r.1)
            },
{
    let ghost mut states = seq![start];
    let ghost mut findings = Seq::<Finding>::empty();
    let mut control = Refinement::new();
    let mut state = start;
    loop
        invariant
            forall|s: &S| call_requires(step, (s,)),
            is_run(step, states, findings),
            states[0] == start,
            states.last() == state,
            control@ == findings.len(),
            findings.len() < MAX_REFINEMENTS,
            forall|i: int|
                0 <= i < findings.len() ==> verdict_of(i as nat, #[trigger] findings[i])
                    == Verdict::Refine,
        decreases MAX_REFINEMENTS - findings.len(),
    {
        let (next, finding) = step(&state);
        let ghost before = states;
        let ghost found = findings;
        proof {
            states = states.push(next);
            findings = findings.push(finding);
            assert forall|i: int| 0 <= i < findings.len() implies call_ensures(
                step,
                (&#[trigger] states[i],),
                (states[i + 1], findings[i]),
            ) by {
                if i < found.len() {
                    assert(states[i] == before[i] && states[i + 1] == before[i + 1]);
                    assert(findings[i] == found[i]);
                }
            }
        }
        let verdict = control.judge(finding);
        state = next;
        match verdict {
            Verdict::Refine => {},
            _ => {
                proof {
                    assert forall|i: int| 0 <= i < findings.len() - 1 implies verdict_of(
                        i as nat,
                        #[trigger] findings[i],
                    ) == Verdict::Refine by {
                        assert(findings[i] == found[i]);
                    }
                    assert(is_run(step, states, findings));
                    assert(ends_with(findings, verdict));
                }
                return (state, verdict);
            },
        }
    }
}

} // verus!
