use wblna_optim::fit::{check_fit_sizes, FitName, MAX_CHEBY};
use wblna_optim::iteration::{IterationControl, RunOutcome};
use wblna_optim::rank::{is_nan, order_key, rank_by_key, rank_by_objective};
use wblna_optim::sweep::sweep_combos;

fn bits(values: &[f64]) -> Vec<u64> {
    values.iter().map(|v| v.to_bits()).collect()
}

#[test]
fn sweep_is_line_model_major() {
    let combos = sweep_combos(2, 3);
    assert_eq!(combos, vec![(0, 0), (0, 1), (0, 2), (1, 0), (1, 1), (1, 2)]);
}

#[test]
fn sweep_pair_position() {
    let combos = sweep_combos(4, 5);
    assert_eq!(combos.len(), 20);
    for i in 0..4 {
        for j in 0..5 {
            assert_eq!(combos[i * 5 + j], (i, j));
        }
    }
}

#[test]
fn sweep_empty_when_either_range_is_empty() {
    assert!(sweep_combos(0, 7).is_empty());
    assert!(sweep_combos(3, 0).is_empty());
    assert_eq!(sweep_combos(1, 1), vec![(0, 0)]);
}

#[test]
fn rank_ascending_objective() {
    let order = rank_by_objective(&bits(&[3.0, -1.0, 2.5, 10.0])).unwrap();
    assert_eq!(order, vec![1, 2, 0, 3]);
}

#[test]
fn rank_equal_objectives_keep_sweep_order() {
    let order = rank_by_objective(&bits(&[1.0, 0.5, 1.0, 0.5, 1.0])).unwrap();
    assert_eq!(order, vec![1, 3, 0, 2, 4]);
}

#[test]
fn rank_signed_zeros_compare_equal() {
    let order = rank_by_objective(&bits(&[0.0, -0.0, -2.0])).unwrap();
    assert_eq!(order, vec![2, 0, 1]);
}

#[test]
fn rank_infinities_at_the_ends() {
    let order = rank_by_objective(&bits(&[f64::MAX, f64::INFINITY, 1e-300, f64::NEG_INFINITY, -1e300]))
        .unwrap();
    assert_eq!(order, vec![3, 4, 2, 0, 1]);
}

#[test]
fn rank_fails_on_nan_with_two_runs() {
    assert_eq!(rank_by_objective(&bits(&[1.0, f64::NAN])), None);
    assert_eq!(rank_by_objective(&bits(&[f64::NAN, 1.0, 2.0])), None);
}

#[test]
fn rank_single_or_no_run() {
    assert_eq!(rank_by_objective(&bits(&[f64::NAN])), Some(vec![0]));
    assert_eq!(rank_by_objective(&bits(&[5.0])), Some(vec![0]));
    assert_eq!(rank_by_objective(&Vec::new()), Some(vec![]));
}

#[test]
fn rank_matches_float_sort() {
    let objs = [0.3, -7.25, 0.3, 1e-9, -0.0, 42.0, 0.0, -1e-9, 0.3];
    let mut expected: Vec<usize> = (0..objs.len()).collect();
    expected.sort_by(|&a, &b| objs[a].partial_cmp(&objs[b]).unwrap());
    assert_eq!(rank_by_objective(&bits(&objs)).unwrap(), expected);
}

#[test]
fn rank_by_key_is_stable() {
    assert_eq!(rank_by_key(&vec![5, 1, 5, 0, 1]), vec![3, 1, 4, 0, 2]);
    assert_eq!(rank_by_key(&vec![]), Vec::<usize>::new());
}

#[test]
fn order_key_values() {
    assert_eq!(order_key(0.0f64.to_bits()), 0x8000_0000_0000_0000);
    assert_eq!(order_key((-0.0f64).to_bits()), 0x8000_0000_0000_0000);
    assert_eq!(order_key(1.0f64.to_bits()), 0x8000_0000_0000_0000 + 0x3FF0_0000_0000_0000);
    assert_eq!(order_key((-1.0f64).to_bits()), 0x8000_0000_0000_0000 - 0x3FF0_0000_0000_0000);
    assert!(order_key((-1.0f64).to_bits()) < order_key((-0.5f64).to_bits()));
}

#[test]
fn nan_detection() {
    assert!(is_nan(f64::NAN.to_bits()));
    assert!(is_nan(0x7FF0_0000_0000_0001));
    assert!(is_nan(0xFFF8_0000_0000_0000));
    assert!(!is_nan(f64::INFINITY.to_bits()));
    assert!(!is_nan(f64::NEG_INFINITY.to_bits()));
    assert!(!is_nan(1.5f64.to_bits()));
}

#[test]
fn fit_sizes_at_limit_accepted() {
    assert_eq!(MAX_CHEBY, 32);
    assert_eq!(check_fit_sizes(32, 32, 32, 32), Ok(()));
    assert_eq!(check_fit_sizes(0, 1, 2, 3), Ok(()));
}

#[test]
fn fit_sizes_first_oversize_named() {
    assert_eq!(check_fit_sizes(33, 40, 40, 40), Err(FitName::C));
    assert_eq!(check_fit_sizes(32, 33, 40, 40), Err(FitName::L));
    assert_eq!(check_fit_sizes(1, 2, 33, 40), Err(FitName::StripFactor));
    assert_eq!(check_fit_sizes(1, 2, 3, 33), Err(FitName::WallFactor));
}

#[test]
fn iterations_run_to_limit_without_convergence() {
    let mut run = IterationControl::new(3);
    let mut seen = Vec::new();
    while let Some(iter) = run.next_iteration() {
        seen.push(iter);
        run.record(false);
    }
    assert_eq!(seen, vec![1, 2, 3]);
    assert_eq!(run.iterations(), 3);
    assert_eq!(run.outcome(), RunOutcome::IterMax);
    assert_eq!(run.next_iteration(), None);
}

#[test]
fn iterations_stop_after_convergence() {
    let mut run = IterationControl::new(10);
    let mut seen = Vec::new();
    while let Some(iter) = run.next_iteration() {
        seen.push(iter);
        run.record(iter == 4);
    }
    assert_eq!(seen, vec![1, 2, 3, 4]);
    assert_eq!(run.outcome(), RunOutcome::Converged);
}

#[test]
fn no_iterations_with_zero_limit() {
    let mut run = IterationControl::new(0);
    assert_eq!(run.next_iteration(), None);
    assert_eq!(run.iterations(), 0);
    assert_eq!(run.outcome(), RunOutcome::IterMax);
}
