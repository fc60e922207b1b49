use fee_manager::calc_fees_per_ticks;
use fee_manager::{FeeManager, IFeeManager};

#[test]
fn schedule_single_tick() {
    // A single slot holds fee_max alone, whatever fee_init is.
    assert_eq!(calc_fees_per_ticks(1, 77, 9), vec![9]);
    assert_eq!(calc_fees_per_ticks(1, 0, 1000), vec![1000]);
}

#[test]
fn schedule_two_ticks() {
    // Both slots are ends; the interior loop has no index to visit.
    assert_eq!(calc_fees_per_ticks(2, 100, 1000), vec![1000, 1000]);
}

#[test]
fn schedule_five_ticks() {
    // Odd count: fee_max at the ends, fee_init in the center, and each half
    // accumulated on its own at step (1000 - 100) / (5 - 1) / 2 = 112, the
    // two divisions truncating in turn.
    assert_eq!(
        calc_fees_per_ticks(5, 100, 1000),
        vec![1000, 212, 100, 212, 1000]
    );
}

#[test]
fn schedule_seven_ticks_tapers() {
    // Step (1000 - 100) / 6 / 2 = 75 on both halves.
    assert_eq!(
        calc_fees_per_ticks(7, 100, 1000),
        vec![1000, 250, 175, 100, 175, 250, 1000]
    );
}

#[test]
fn schedule_four_ticks() {
    // Even count: the flat interior value is 1000 / (1 + 1) = 500.
    assert_eq!(
        calc_fees_per_ticks(4, 100, 1000),
        vec![1000, 500, 500, 1000]
    );
}

#[test]
fn schedule_six_ticks_flat_interior() {
    // Even count: every interior slot is 1000 / (1 + 2) = 333.
    assert_eq!(
        calc_fees_per_ticks(6, 100, 1000),
        vec![1000, 333, 333, 333, 333, 1000]
    );
}

#[test]
fn schedule_values_never_exceed_fee_max() {
    for n in 1u32..40 {
        let fees = calc_fees_per_ticks(n, 13, 977);
        assert_eq!(fees.len(), n as usize);
        assert_eq!(fees[0], 977);
        assert_eq!(fees[(n - 1) as usize], 977);
        for f in fees {
            assert!(f <= 977);
        }
    }
}

#[test]
fn get_fees_idempotent() {
    // The schedule is a pure function: identical arguments, identical
    // sequences, and no storage is touched in between.
    let m = FeeManager::new();
    let a = m.get_fees(9, 50, 800);
    let b = m.get_fees(9, 50, 800);
    assert_eq!(a, b);
    let c = m.get_fees(8, 50, 800);
    let d = m.get_fees(8, 50, 800);
    assert_eq!(c, d);
}

#[test]
fn get_fees_matches_schedule() {
    let m = FeeManager::new();
    assert_eq!(m.get_fees(5, 100, 1000), calc_fees_per_ticks(5, 100, 1000));
}
