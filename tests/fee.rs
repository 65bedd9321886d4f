use fill_ledger::fee::{calculate_fee, fee_rate_for};

#[test]
fn fee_rate_tiers() {
    assert_eq!(fee_rate_for(100_000_000_000), 0);
    assert_eq!(fee_rate_for(u128::MAX), 0);
    assert_eq!(fee_rate_for(99_999_999_999), 6);
    assert_eq!(fee_rate_for(50_000_000_000), 6);
    assert_eq!(fee_rate_for(49_999_999_999), 12);
    assert_eq!(fee_rate_for(25_000_000_000), 12);
    assert_eq!(fee_rate_for(24_999_999_999), 18);
    assert_eq!(fee_rate_for(12_500_000_000), 18);
    assert_eq!(fee_rate_for(12_499_999_999), 24);
    assert_eq!(fee_rate_for(6_250_000_000), 24);
    assert_eq!(fee_rate_for(6_249_999_999), 30);
    assert_eq!(fee_rate_for(0), 30);
}

#[test]
fn fee_top_tier_boundary() {
    for x in [0u128, 1, 9_999, 10_000, 1_234_567, u128::MAX] {
        assert_eq!(calculate_fee(100_000_000_000, x), 0);
    }
    assert_eq!(calculate_fee(99_999_999_999, 10_000), 6);
    assert_eq!(calculate_fee(99_999_999_999, 1_666), 0);
    assert_eq!(calculate_fee(99_999_999_999, 1_667), 1);
    assert_eq!(calculate_fee(99_999_999_999, 1_234_567), 1_234_567 * 6 / 10_000);
}

#[test]
fn fee_exact_values() {
    assert_eq!(calculate_fee(0, 1_000_000), 3_000);
    assert_eq!(calculate_fee(6_250_000_000, 1_000_000), 2_400);
    assert_eq!(calculate_fee(12_500_000_000, 1_000_000), 1_800);
    assert_eq!(calculate_fee(25_000_000_000, 1_000_000), 1_200);
    assert_eq!(calculate_fee(50_000_000_000, 1_000_000), 600);
    assert_eq!(calculate_fee(0, 333), 0);
    assert_eq!(calculate_fee(0, 334), 1);
}

#[test]
fn fee_wide_product_does_not_overflow() {
    // u128::MAX * 30 does not fit in 128 bits; the quotient does.
    let expected = u128::MAX / 10_000 * 30 + (u128::MAX % 10_000) * 30 / 10_000;
    assert_eq!(calculate_fee(0, u128::MAX), expected);
}

#[test]
fn fee_non_increasing_in_balance() {
    let balances = [
        0u128,
        6_249_999_999,
        6_250_000_000,
        12_500_000_000,
        25_000_000_000,
        50_000_000_000,
        99_999_999_999,
        100_000_000_000,
    ];
    for a in [0u128, 1, 10_000, 987_654_321] {
        for w in balances.windows(2) {
            assert!(calculate_fee(w[1], a) <= calculate_fee(w[0], a));
        }
    }
    for b in balances {
        assert_eq!(calculate_fee(b, 0), 0);
    }
}
