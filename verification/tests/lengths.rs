use relate::errors::PipelineError;
use relate::lengths::{branch_mutation_counts, select_prior, CoalescentPrior};
use relate::mutations::MutationRecord;

#[test]
fn rate_curve_overrides_population_size() {
    assert_eq!(select_prior(true, true).unwrap(), CoalescentPrior::RateCurve);
    assert_eq!(select_prior(true, false).unwrap(), CoalescentPrior::RateCurve);
    assert_eq!(
        select_prior(false, true).unwrap(),
        CoalescentPrior::ConstantPopulationSize
    );
}

#[test]
fn missing_prior_is_invalid() {
    assert_eq!(
        select_prior(false, false).unwrap_err(),
        PipelineError::ValueError
    );
}

#[test]
fn mutation_counts_per_branch() {
    let muts = vec![
        MutationRecord { position: 1, branch: 0 },
        MutationRecord { position: 2, branch: 2 },
        MutationRecord { position: 5, branch: 2 },
        MutationRecord { position: 9, branch: 2 },
        MutationRecord { position: 11, branch: 1 },
    ];
    let counts = branch_mutation_counts(&muts, 4);
    assert_eq!(counts, vec![1, 1, 3, 0]);
}

#[test]
fn mutation_counts_empty_mapping() {
    let counts = branch_mutation_counts(&Vec::new(), 3);
    assert_eq!(counts, vec![0, 0, 0]);
}
