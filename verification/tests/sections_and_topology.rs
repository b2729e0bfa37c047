use relate::chunks::make_descriptor;
use relate::errors::PipelineError;
use relate::params::Parameters;
use relate::sections::resolve_section_range;
use relate::sections::section_span;
use relate::seeding::section_draws;
use relate::topology::build_section_trees;
use relate::topology::build_topology_tree;
use relate::topology::plan_topology;
use relate::tree::reachable_leaf_count;

fn two_window_descriptor() -> Parameters {
    make_descriptor(10, 100, 2).unwrap()
}

#[test]
fn even_descriptor_boundaries() {
    let p = two_window_descriptor();
    assert_eq!(p.num_samples, 10);
    assert_eq!(p.num_alleles, 100);
    assert_eq!(p.num_windows, 2);
    assert_eq!(p.window_boundaries, vec![0, 50, 100]);
}

#[test]
fn descriptor_rejects_more_windows_than_alleles() {
    assert_eq!(
        make_descriptor(10, 3, 4).unwrap_err(),
        PipelineError::ValueError
    );
    assert_eq!(
        make_descriptor(10, 100, 0).unwrap_err(),
        PipelineError::ValueError
    );
    assert_eq!(
        make_descriptor(0, 100, 2).unwrap_err(),
        PipelineError::ValueError
    );
}

#[test]
fn section_spans_clamped_to_last_allele() {
    let p = two_window_descriptor();
    assert_eq!(section_span(&p, 0), (0, 49));
    // the second section ends at the last valid allele index
    assert_eq!(section_span(&p, 1), (50, 99));
}

#[test]
fn range_defaults_to_all_sections() {
    let p = two_window_descriptor();
    assert_eq!(resolve_section_range(&p, None, None).unwrap(), (0, 1));
}

#[test]
fn range_clamps_last_section() {
    let p = two_window_descriptor();
    // a last section beyond num_windows - 1 is silently clamped
    assert_eq!(
        resolve_section_range(&p, Some(0), Some(100)).unwrap(),
        (0, 1)
    );
    assert_eq!(resolve_section_range(&p, Some(1), Some(1)).unwrap(), (1, 1));
}

#[test]
fn range_rejects_first_section_beyond_windows() {
    let p = two_window_descriptor();
    assert_eq!(
        resolve_section_range(&p, Some(2), Some(2)).unwrap_err(),
        PipelineError::ValueError
    );
    assert_eq!(
        resolve_section_range(&p, Some(7), Some(9)).unwrap_err(),
        PipelineError::ValueError
    );
}

#[test]
fn draws_are_reproducible_from_the_seed() {
    let a = section_draws(42, 8);
    let b = section_draws(42, 8);
    assert_eq!(a, b);
    assert_eq!(a.len(), 8);
}

#[test]
fn different_seeds_give_different_draws() {
    let a = section_draws(1, 4);
    let b = section_draws(2, 4);
    assert_ne!(a, b);
}

#[test]
fn plan_assigns_section_indexed_seeds() {
    let p = two_window_descriptor();
    let draws = section_draws(42, 2);
    let plan = plan_topology(&p, 0, 1, 42);
    assert_eq!(plan.len(), 2);
    assert_eq!(plan[0].section, 0);
    assert_eq!(plan[0].start_pos, 0);
    assert_eq!(plan[0].end_pos, 49);
    assert_eq!(plan[0].seed, draws[0]);
    assert_eq!(plan[1].section, 1);
    assert_eq!(plan[1].start_pos, 50);
    assert_eq!(plan[1].end_pos, 99);
    assert_eq!(plan[1].seed, draws[1]);
}

#[test]
fn subrange_plan_matches_full_plan() {
    let p = two_window_descriptor();
    let full = plan_topology(&p, 0, 1, 7);
    let tail = plan_topology(&p, 1, 1, 7);
    assert_eq!(tail.len(), 1);
    assert_eq!(tail[0], full[1]);
}

#[test]
fn topology_build_is_deterministic() {
    let t1 = build_topology_tree(10, 1234);
    let t2 = build_topology_tree(10, 1234);
    assert_eq!(t1.parent, t2.parent);
    assert!(t1.is_well_formed());
}

#[test]
fn topology_root_reaches_every_sample() {
    let t = build_topology_tree(10, -77);
    assert_eq!(t.parent.len(), 19);
    let root = t.parent.len() - 1;
    assert_eq!(reachable_leaf_count(&t, root), 10);
}

#[test]
fn single_sample_topology() {
    let t = build_topology_tree(1, 5);
    assert_eq!(t.parent, vec![0]);
    assert_eq!(reachable_leaf_count(&t, 0), 1);
}

#[test]
fn section_trees_are_deterministic() {
    let p = two_window_descriptor();
    let r1 = build_section_trees(&p, 0, 1, 99);
    let r2 = build_section_trees(&p, 0, 1, 99);
    assert_eq!(r1.len(), 2);
    for (a, b) in r1.iter().zip(r2.iter()) {
        assert_eq!(a.parent, b.parent);
        assert_eq!(a.num_samples, 10);
        assert!(a.is_well_formed());
    }
}
