//! Control logic of the Helmholtz-energy engine: which contributions are
//! composed, in which order, and how the damped Newton iteration of the
//! cross-association solver is driven. The numeric work of one Newton step is
//! the caller's; the decisions about it are made and verified here.

use vstd::prelude::*;
use crate::record::NotConverged;

verus! {

/// The Helmholtz-energy contributions, in the order in which they are summed.
#[derive(Clone, Copy, Debug, PartialEq, Eq, Structural)]
pub enum ContributionKind {
    HardSphere,
    HardChain,
    Dispersion,
    /// Closed-form association: exactly one association-site occurrence.
    Association,
    /// Iterative cross-association: several association-site occurrences.
    CrossAssociation,
}

/// The contributions of the equation of state for a parameter set with
/// `nassoc` association-site occurrences: hard sphere, hard chain and
/// dispersion always, then the association variant that the occurrence count
/// calls for.
pub fn contribution_plan(nassoc: usize) -> (r: Vec<ContributionKind>)
    ensures
        r@.len() >= 3,
        r@[0] == ContributionKind::HardSphere,
        r@[1] == ContributionKind::HardChain,
        r@[2] == ContributionKind::Dispersion,
        nassoc == 0 ==> r@.len() == 3,
        nassoc == 1 ==> r@.len() == 4 && r@[3] == ContributionKind::Association,
        nassoc > 1 ==> r@.len() == 4 && r@[3] == ContributionKind::CrossAssociation,
{
    let mut r: Vec<ContributionKind> = Vec::new();
    r.push(ContributionKind::HardSphere);
    r.push(ContributionKind::HardChain);
    r.push(ContributionKind::Dispersion);
    if nassoc == 1 {
        r.push(ContributionKind::Association);
    } else if nassoc > 1 {
        r.push(ContributionKind::CrossAssociation);
    }
    r
}

/// The contributions of the density functional: the hard-sphere, chain and
/// attractive functionals always, and one association functional whenever any
/// association-site occurrence is present.
pub fn functional_contribution_plan(nassoc: usize) -> (r: Vec<ContributionKind>)
    ensures
        r@.len() >= 3,
        r@[0] == ContributionKind::HardSphere,
        r@[1] == ContributionKind::HardChain,
        r@[2] == ContributionKind::Dispersion,
        nassoc == 0 ==> r@.len() == 3,
        nassoc > 0 ==> r@.len() == 4 && r@[3] == ContributionKind::CrossAssociation,
{
    let mut r: Vec<ContributionKind> = Vec::new();
    r.push(ContributionKind::HardSphere);
    r.push(ContributionKind::HardChain);
    r.push(ContributionKind::Dispersion);
    if nassoc > 0 {
        r.push(ContributionKind::CrossAssociation);
    }
    r
}

/// What the cross-association iteration does after one Newton step.
#[derive(Clone, Copy, Debug, PartialEq, Eq, Structural)]
pub enum SolverStep {
    /// The gradient norm met the tolerance: stop with the current iterate.
    Converged,
    /// Not converged, cap not reached: take another step.
    Iterate,
    /// Not converged and the cap is reached: the evaluation fails.
    Failed,
}

/// Decision after the Newton step with index `steps_taken - 1`:
/// `converged` reports whether the gradient norm, taken on the real part of
/// the iterate, met the tolerance. Reaching the iteration cap without
/// convergence is a hard failure, never a best-effort return.
pub fn cross_association_decision(steps_taken: usize, max_iter: usize, converged: bool) -> (r: SolverStep)
    requires
        1 <= steps_taken <= max_iter,
    ensures
        r == SolverStep::Converged <==> converged,
        r == SolverStep::Failed <==> (!converged && steps_taken == max_iter),
        r == SolverStep::Iterate <==> (!converged && steps_taken < max_iter),
{
    if converged {
        SolverStep::Converged
    } else if steps_taken == max_iter {
        SolverStep::Failed
    } else {
        SolverStep::Iterate
    }
}

/// The verdicts of the first `k` Newton steps all said "not converged".
pub open spec fn no_convergence_before(outcomes: Seq<bool>, k: int) -> bool {
    forall|j: int| 0 <= j < k ==> !outcomes[j]
}

/// Runs the iteration schedule of the cross-association solver over the
/// convergence verdicts of successive Newton steps: the step with index `k`
/// is taken only if no earlier step converged, and at most `max_iter` steps
/// are taken. Returns the number of steps taken on success, and the fatal
/// `NotConverged` failure if the cap is exhausted first.
///
/// `outcomes[k]` is the verdict after step `k`; the caller supplies at least
/// `max_iter` verdicts so that the schedule alone decides when to stop.
pub fn run_newton_schedule(outcomes: &Vec<bool>, max_iter: usize) -> (r: Result<usize, NotConverged>)
    requires
        max_iter >= 1,
        outcomes@.len() >= max_iter,
    ensures
        match r {
            Ok(steps) => 1 <= steps <= max_iter && outcomes@[steps - 1]
                && no_convergence_before(outcomes@, steps - 1),
            Err(e) => no_convergence_before(outcomes@, max_iter as int)
                && e.contribution@ == "cross association"@,
        },
{
    let mut k: usize = 0;
    while k < max_iter
        invariant
            k <= max_iter,
            max_iter <= outcomes@.len(),
            no_convergence_before(outcomes@, k as int),
        decreases max_iter - k,
    {
        let converged = outcomes[k];
        match cross_association_decision(k + 1, max_iter, converged) {
            SolverStep::Converged => {
                return Ok(k + 1);
            }
            SolverStep::Failed => {
                return Err(NotConverged { contribution: String::from_str("cross association") });
            }
            SolverStep::Iterate => {}
        }
        k = k + 1;
    }
    Err(NotConverged { contribution: String::from_str("cross association") })
}

/// How many extra Newton steps propagate derivatives through the converged
/// fixed point: one per derivative order carried by the numeric type, by the
/// implicit-function theorem applied to the fixed-point iteration.
pub fn derivative_replay_steps(derivative_order: usize) -> (r: usize)
    ensures
        r == derivative_order,
{
    derivative_order
}

} // verus!
