use relate::chunks::make_descriptor;
use relate::chunks::plan_chunks;
use relate::combine::combine_pair;
use relate::combine::combine_sections;
use relate::equiv::BranchEquivalenceMap;
use relate::equiv::FindEquivalentBranches;
use relate::equiv::find_equivalent_pair;
use relate::errors::PipelineError;
use relate::finalize::ChunkSpan;
use relate::finalize::Finalize;
use relate::mutations::MutationRecord;
use relate::mutations::restrict_mutations;
use relate::painting::plan_paint;
use relate::seeding::section_draws;
use relate::topology::build_topology_tree;
use relate::tree::AncestralTree;

/// Three leaves; leaves 0 and 1 coalesce first, then the pair joins leaf 2.
fn caterpillar_01() -> AncestralTree {
    AncestralTree {
        num_samples: 3,
        parent: vec![3, 3, 4, 4, 4],
    }
}

/// Three leaves; leaves 0 and 2 coalesce first, then the pair joins leaf 1.
fn caterpillar_02() -> AncestralTree {
    AncestralTree {
        num_samples: 3,
        parent: vec![3, 4, 3, 4, 4],
    }
}

#[test]
fn tree_validation() {
    assert!(caterpillar_01().is_well_formed());
    assert!(caterpillar_02().is_well_formed());
    let bad = AncestralTree {
        num_samples: 3,
        parent: vec![3, 3, 4, 4],
    };
    assert!(!bad.is_well_formed());
    let cyclic = AncestralTree {
        num_samples: 3,
        parent: vec![0, 3, 4, 4, 4],
    };
    assert!(!cyclic.is_well_formed());
}

#[test]
fn identical_trees_match_branch_for_branch() {
    let left = caterpillar_01();
    let right = caterpillar_01();
    let m = find_equivalent_pair(&left, &right);
    let expected: Vec<Option<usize>> =
        vec![Some(0), Some(1), Some(2), Some(3), Some(4)];
    assert_eq!(m.pairs, expected);
}

#[test]
fn drifted_branch_falls_back_to_maximal_overlap() {
    let left = caterpillar_01();
    let right = caterpillar_02();
    let m = find_equivalent_pair(&left, &right);
    // the leaves and the root keep their partitions; the internal branch
    // {0, 1} has no exact counterpart in a tree that joins {0, 2} first,
    // so it takes the branch sharing the most leaves — the root, with two
    let expected: Vec<Option<usize>> = vec![Some(0), Some(1), Some(2), Some(4), Some(4)];
    assert_eq!(m.pairs, expected);
}

#[test]
fn fallback_picks_lowest_maximal_overlap() {
    // left joins (1,2) first; right is the caterpillar (((0,1),2),3)
    let left = AncestralTree {
        num_samples: 4,
        parent: vec![5, 4, 4, 6, 5, 6, 6],
    };
    let right = AncestralTree {
        num_samples: 4,
        parent: vec![4, 4, 5, 6, 5, 6, 6],
    };
    assert!(left.is_well_formed());
    assert!(right.is_well_formed());
    let m = find_equivalent_pair(&left, &right);
    // left branch 4 covers {1, 2}: no exact match on the right; both the
    // right branch {0, 1, 2} and the root share two leaves, and the
    // lower-numbered of the two is taken
    assert_eq!(m.pairs[4], Some(5));
    // left branch 5 covers {0, 1, 2}: an exact match exists
    assert_eq!(m.pairs[5], Some(5));
    assert_eq!(m.pairs[6], Some(6));
}

#[test]
fn branch_sharing_no_leaf_stays_unmatched() {
    // branch 3 has no descendants, so its leaf partition is empty
    let left = AncestralTree {
        num_samples: 3,
        parent: vec![4, 4, 4, 4, 4],
    };
    assert!(left.is_well_formed());
    let right = caterpillar_01();
    let m = find_equivalent_pair(&left, &right);
    let expected: Vec<Option<usize>> = vec![Some(0), Some(1), Some(2), None, Some(4)];
    assert_eq!(m.pairs, expected);
}

#[test]
fn equivalence_stage_runs_over_adjacent_pairs() {
    let stage = FindEquivalentBranches { chunk_index: 0 };
    let trees = vec![caterpillar_01(), caterpillar_02(), caterpillar_02()];
    let maps = stage.execute(&trees).unwrap();
    assert_eq!(maps.len(), 2);
    assert_eq!(
        maps[0].pairs,
        vec![Some(0), Some(1), Some(2), Some(4), Some(4)]
    );
    assert_eq!(
        maps[1].pairs,
        vec![Some(0), Some(1), Some(2), Some(3), Some(4)]
    );
}

#[test]
fn equivalence_stage_rejects_mismatched_trees() {
    let stage = FindEquivalentBranches { chunk_index: 0 };
    let trees = vec![
        caterpillar_01(),
        AncestralTree {
            num_samples: 2,
            parent: vec![2, 2, 2],
        },
    ];
    assert_eq!(stage.execute(&trees).unwrap_err(), PipelineError::ValueError);
}

#[test]
fn combine_takes_the_earlier_sections_estimate() {
    let earlier: Vec<u64> = vec![10, 11, 12, 13, 14];
    let later: Vec<u64> = vec![20, 21, 22, 23, 24];
    let links = BranchEquivalenceMap {
        pairs: vec![Some(0), Some(1), Some(2), None, Some(4)],
    };
    let merged = combine_pair(&earlier, &later, &links);
    // linked branches carry the earlier value; branch 3 keeps its own
    assert_eq!(merged, vec![10, 11, 12, 23, 14]);
}

#[test]
fn combine_propagates_through_a_chunk() {
    let sections: Vec<Vec<u64>> = vec![vec![1, 2, 3], vec![10, 20, 30], vec![100, 200, 300]];
    let identity = BranchEquivalenceMap {
        pairs: vec![Some(0), Some(1), Some(2)],
    };
    let partial = BranchEquivalenceMap {
        pairs: vec![Some(0), None, None],
    };
    let links = vec![identity, partial];
    let merged = combine_sections(&sections, &links);
    assert_eq!(merged.len(), 3);
    assert_eq!(merged[0], vec![1, 2, 3]);
    // the whole first boundary is linked: the earliest estimates carry over
    assert_eq!(merged[1], vec![1, 2, 3]);
    // across the second boundary only branch 0 is linked
    assert_eq!(merged[2], vec![1, 200, 300]);
}

#[test]
fn restrict_keeps_only_records_in_span() {
    let muts = vec![
        MutationRecord { position: 3, branch: 0 },
        MutationRecord { position: 49, branch: 4 },
        MutationRecord { position: 50, branch: 1 },
        MutationRecord { position: 99, branch: 2 },
    ];
    let kept = restrict_mutations(&muts, 0, 49);
    assert_eq!(kept.len(), 2);
    assert_eq!(kept[0].position, 3);
    assert_eq!(kept[1].position, 49);
    for m in &kept {
        assert!(m.position <= 49);
    }
    let kept = restrict_mutations(&muts, 50, 99);
    assert_eq!(kept.len(), 2);
    assert_eq!(kept[0].position, 50);
    assert_eq!(kept[1].position, 99);
}

#[test]
fn paint_plan_refreshes_every_artifact() {
    let p = make_descriptor(10, 100, 2).unwrap();
    let stale: Vec<usize> = vec![3, 7, 11];
    let plan = plan_paint(&stale, &p);
    assert_eq!(plan.remove, stale);
    assert_eq!(plan.paint, (0..10).collect::<Vec<usize>>());
}

#[test]
fn paint_rerun_is_idempotent() {
    let p = make_descriptor(10, 100, 2).unwrap();
    // first run: whatever was there goes, the fresh artifacts arrive
    let first = plan_paint(&vec![3, 7], &p);
    let after_first = first.paint.clone();
    // second run over the directory the first one left
    let second = plan_paint(&after_first, &p);
    assert_eq!(second.remove, after_first);
    assert_eq!(second.paint, after_first);
}

#[test]
fn chunk_partition_covers_range() {
    // 100 sites at 30 per chunk: three full chunks and a remainder
    let spans = plan_chunks(100, 30).unwrap();
    assert_eq!(spans.len(), 4);
    assert_eq!((spans[0].start, spans[0].end), (0, 30));
    assert_eq!((spans[3].start, spans[3].end), (90, 100));
    for w in spans.windows(2) {
        assert_eq!(w[0].end, w[1].start);
    }
    // an exact division leaves no short remainder chunk
    let exact = plan_chunks(100, 50).unwrap();
    assert_eq!(exact.len(), 2);
    assert_eq!((exact[1].start, exact[1].end), (50, 100));
    // a generous allowance gives a single chunk
    let one = plan_chunks(10, 100).unwrap();
    assert_eq!(one.len(), 1);
    assert_eq!((one[0].start, one[0].end), (0, 10));
    assert!(plan_chunks(0, 5).is_err());
    assert!(plan_chunks(5, 0).is_err());
}

#[test]
fn finalize_orders_chunks_ascending() {
    let f = Finalize { with_sample_ages: false, with_annotation: false };
    let spans = vec![
        ChunkSpan { start: 0, end: 100 },
        ChunkSpan { start: 100, end: 250 },
        ChunkSpan { start: 300, end: 400 },
    ];
    assert_eq!(f.merge_order(&spans).unwrap(), vec![0, 1, 2]);
}

#[test]
fn finalize_rejects_overlapping_chunks() {
    let f = Finalize { with_sample_ages: true, with_annotation: false };
    let spans = vec![
        ChunkSpan { start: 0, end: 100 },
        ChunkSpan { start: 90, end: 250 },
    ];
    assert_eq!(f.merge_order(&spans).unwrap_err(), PipelineError::ValueError);
    let empty_chunk = vec![ChunkSpan { start: 5, end: 5 }];
    assert_eq!(
        f.merge_order(&empty_chunk).unwrap_err(),
        PipelineError::ValueError
    );
}

#[test]
fn end_to_end_two_window_chunk() {
    // a small chunk: 10 samples, 100 sites, 2 windows
    let p = make_descriptor(10, 100, 2).unwrap();
    assert_eq!(p.num_windows, 2);
    // painting writes one artifact per haplotype
    let plan = plan_paint(&Vec::new(), &p);
    assert_eq!(plan.paint.len(), 10);
    // topology on section 0: a tree whose root reaches all 10 samples,
    // and a mutation mapping confined to section 0's span
    let draws = section_draws(31, 1);
    let t = build_topology_tree(p.num_samples, draws[0]);
    assert!(t.is_well_formed());
    let root = t.parent.len() - 1;
    assert_eq!(relate::tree::reachable_leaf_count(&t, root), 10);
    let muts = vec![
        MutationRecord { position: 0, branch: 12 },
        MutationRecord { position: 49, branch: 3 },
        MutationRecord { position: 75, branch: 8 },
    ];
    let section0 = restrict_mutations(&muts, 0, 49);
    assert_eq!(section0.len(), 2);
    for m in &section0 {
        assert!(m.position <= 49);
    }
}
