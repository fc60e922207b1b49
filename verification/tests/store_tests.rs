use fee_manager::{FeeError, FeeManager, IFeeManager, PoolId};

fn pool(n: u64) -> PoolId {
    PoolId { w0: n, w1: 0, w2: 0, w3: 0 }
}

#[test]
fn get_fee_absent_is_zero() {
    let m = FeeManager::new();
    assert_eq!(m.get_fee(pool(1), 0), 0);
    assert_eq!(m.get_fee(pool(1), -5), 0);
}

#[test]
fn update_dense_range() {
    // liquidity 1000 over [0, 4]: each tick receives 1000 / 5 = 200, and on
    // an empty store every fee is ceil((fee_slot * 0 + 1000 * 200) / 10000)
    // = 20, below the cap. A record exists for every tick of the range.
    let p = pool(7);
    let mut m = FeeManager::new();
    let r = m.update_fee_per_tick(p, 1000, 0, 4, 1, 100, 1000);
    assert_eq!(r, Ok(()));
    for t in 0..=4 {
        assert_eq!(m.get_fee(p, t), 20);
    }
    assert_eq!(m.get_fee(p, 5), 0);
    assert_eq!(m.get_fee(p, -1), 0);
}

#[test]
fn update_sparse_stepping() {
    // Fill [0, 4] densely first so each tick holds liquidity 200 and fee 20.
    let p = pool(9);
    let mut m = FeeManager::new();
    assert_eq!(m.update_fee_per_tick(p, 1000, 0, 4, 1, 100, 1000), Ok(()));

    // Spacing 2 over [0, 4] visits ticks {0, 2, 4} with schedule slots
    // {0, 1, 2} — the slot counter advances once per visit, not per tick.
    // The schedule is [1000, 212, 100, 212, 1000] and each visit adds
    // 900 / 5 = 180 liquidity:
    //   tick 0, slot 0: ceil((1000 * 200 + 1000 * 180) / 10000) = 38
    //   tick 2, slot 1: ceil(( 212 * 200 + 1000 * 180) / 10000) = 23
    //   tick 4, slot 2: ceil(( 100 * 200 + 1000 * 180) / 10000) = 20
    assert_eq!(m.update_fee_per_tick(p, 900, 0, 4, 2, 100, 1000), Ok(()));
    assert_eq!(m.get_fee(p, 0), 38);
    assert_eq!(m.get_fee(p, 2), 23);
    assert_eq!(m.get_fee(p, 4), 20);
    // Ticks 1 and 3 were not visited and keep their first-round fee.
    assert_eq!(m.get_fee(p, 1), 20);
    assert_eq!(m.get_fee(p, 3), 20);
}

#[test]
fn update_other_pools_untouched() {
    let mut m = FeeManager::new();
    assert_eq!(m.update_fee_per_tick(pool(1), 1000, 0, 4, 1, 100, 1000), Ok(()));
    assert_eq!(m.get_fee(pool(2), 0), 0);
    let other = PoolId { w0: 1, w1: 1, w2: 0, w3: 0 };
    assert_eq!(m.get_fee(other, 0), 0);
}

#[test]
fn update_empty_range_rejected() {
    let p = pool(3);
    let mut m = FeeManager::new();
    let r = m.update_fee_per_tick(p, 100, 5, 4, 1, 0, 10);
    assert_eq!(r, Err(FeeError::InvalidTickRange));
    assert_eq!(m.get_fee(p, 4), 0);
    assert_eq!(m.get_fee(p, 5), 0);
}

#[test]
fn update_too_wide_range_rejected() {
    let mut m = FeeManager::new();
    let r = m.update_fee_per_tick(pool(3), 100, i32::MIN, i32::MAX, 1, 0, 10);
    assert_eq!(r, Err(FeeError::InvalidTickRange));
}

#[test]
fn update_zero_spacing_rejected() {
    let p = pool(4);
    let mut m = FeeManager::new();
    let r = m.update_fee_per_tick(p, 100, 0, 4, 0, 0, 10);
    assert_eq!(r, Err(FeeError::InvalidTickSpacing));
    assert_eq!(m.get_fee(p, 0), 0);
}

#[test]
fn update_bad_fee_bounds_rejected() {
    // An odd count above one computes the taper from fee_max - fee_init,
    // which needs the bounds ordered.
    let p = pool(5);
    let mut m = FeeManager::new();
    let r = m.update_fee_per_tick(p, 100, 0, 2, 1, 10, 5);
    assert_eq!(r, Err(FeeError::InvalidFeeBounds));
    assert_eq!(m.get_fee(p, 0), 0);
    // An even count never reads the taper, so the same bounds pass.
    assert_eq!(m.update_fee_per_tick(p, 100, 0, 3, 1, 10, 5), Ok(()));
}

#[test]
fn update_fee_overflow_rejected() {
    // Park a huge liquidity at tick 0 with fee_max 0, so every computed fee
    // is 0 and the write succeeds.
    let p = pool(6);
    let big: u128 = 1_000_000_000_000_000_000;
    let mut m = FeeManager::new();
    assert_eq!(m.update_fee_per_tick(p, big, 0, 0, 1, 0, 0), Ok(()));
    assert_eq!(m.get_fee(p, 0), 0);
    // Now ceil((1000 * big + 0) / 10000) does not fit in 32 bits.
    let r = m.update_fee_per_tick(p, 0, 0, 0, 1, 0, 1000);
    assert_eq!(r, Err(FeeError::FeeOverflow));
    assert_eq!(m.get_fee(p, 0), 0);
}

#[test]
fn update_liquidity_overflow_rejected() {
    let p = pool(8);
    let mut m = FeeManager::new();
    assert_eq!(m.update_fee_per_tick(p, u128::MAX, 0, 0, 1, 0, 0), Ok(()));
    // The fee (0) still fits, but u128::MAX + 42 does not.
    let r = m.update_fee_per_tick(p, 42, 0, 0, 1, 0, 0);
    assert_eq!(r, Err(FeeError::LiquidityOverflow));
}

#[test]
fn update_keeps_writes_made_before_a_failure() {
    // Park a huge liquidity at tick 1 so the second visit of the next
    // update overflows its fee; the first visit's write must remain.
    let p = pool(10);
    let big: u128 = 1_000_000_000_000_000_000;
    let mut m = FeeManager::new();
    assert_eq!(m.update_fee_per_tick(p, big, 1, 1, 1, 0, 0), Ok(()));

    // Over [0, 1]: tick 0 gets fee ceil((1000 * 0 + 1000 * 50) / 10000) = 5,
    // then tick 1 overflows: ceil((1000 * big + 50000) / 10000) > u32::MAX.
    let r = m.update_fee_per_tick(p, 100, 0, 1, 1, 0, 1000);
    assert_eq!(r, Err(FeeError::FeeOverflow));
    assert_eq!(m.get_fee(p, 0), 5);
    assert_eq!(m.get_fee(p, 1), 0);
}

#[test]
fn update_drops_liquidity_remainder() {
    // liquidity 7 over 5 ticks gives each tick floor(7 / 5) = 1; the
    // remainder 2 is assigned to no tick. A follow-up update of tick 0 with
    // no added liquidity then reads back exactly 1:
    // ceil((10000 * 1 + 0) / 10000) = 1.
    let p = pool(11);
    let mut m = FeeManager::new();
    assert_eq!(m.update_fee_per_tick(p, 7, 0, 4, 1, 0, 10000), Ok(()));
    assert_eq!(m.update_fee_per_tick(p, 0, 0, 0, 1, 0, 10000), Ok(()));
    assert_eq!(m.get_fee(p, 0), 1);
}
