use gc_pcsaft::solver::{ContributionKind, SolverStep, contribution_plan,
    cross_association_decision, derivative_replay_steps, functional_contribution_plan,
    run_newton_schedule};

#[test]
fn contributions_in_order() {
    // hard sphere, hard chain, dispersion, then the association variant that
    // the number of association-site occurrences calls for
    assert_eq!(
        contribution_plan(0),
        vec![
            ContributionKind::HardSphere,
            ContributionKind::HardChain,
            ContributionKind::Dispersion,
        ]
    );
    assert_eq!(
        contribution_plan(1),
        vec![
            ContributionKind::HardSphere,
            ContributionKind::HardChain,
            ContributionKind::Dispersion,
            ContributionKind::Association,
        ]
    );
    assert_eq!(
        contribution_plan(2),
        vec![
            ContributionKind::HardSphere,
            ContributionKind::HardChain,
            ContributionKind::Dispersion,
            ContributionKind::CrossAssociation,
        ]
    );
}

#[test]
fn functional_uses_one_association_contribution() {
    assert_eq!(functional_contribution_plan(0).len(), 3);
    assert_eq!(
        functional_contribution_plan(1).last(),
        Some(&ContributionKind::CrossAssociation)
    );
    assert_eq!(
        functional_contribution_plan(5).last(),
        Some(&ContributionKind::CrossAssociation)
    );
}

#[test]
fn decision_follows_convergence_and_cap() {
    assert_eq!(cross_association_decision(1, 50, true), SolverStep::Converged);
    assert_eq!(cross_association_decision(1, 50, false), SolverStep::Iterate);
    assert_eq!(cross_association_decision(50, 50, false), SolverStep::Failed);
    assert_eq!(cross_association_decision(50, 50, true), SolverStep::Converged);
}

#[test]
fn convergence_cap_is_fatal() {
    // a tolerance unreachable in one step with a cap of one iteration must
    // fail hard, never return a best-effort iterate
    let outcomes = vec![false];
    match run_newton_schedule(&outcomes, 1) {
        Err(e) => {
            assert_eq!(e.contribution, "cross association".to_string());
            assert_eq!(e.message(), "not converged: cross association".to_string());
        }
        Ok(_) => panic!("an unconverged iteration must not succeed"),
    }
}

#[test]
fn schedule_stops_at_first_convergence() {
    let outcomes = vec![false, false, true, false, true];
    assert_eq!(run_newton_schedule(&outcomes, 5), Ok(3));
    let immediate = vec![true, true];
    assert_eq!(run_newton_schedule(&immediate, 2), Ok(1));
}

#[test]
fn schedule_exhausts_the_cap() {
    let outcomes = vec![false, false, false, true];
    // the cap cuts the iteration off before the step that would converge
    assert!(run_newton_schedule(&outcomes, 3).is_err());
}

#[test]
fn one_replay_step_per_derivative_order() {
    assert_eq!(derivative_replay_steps(0), 0);
    assert_eq!(derivative_replay_steps(1), 1);
    assert_eq!(derivative_replay_steps(2), 2);
}
