use vstd::prelude::*;
use primitive_types::U256;

verus! {

/// Denominator of the fee rate: rates are parts per ten thousand.
pub const FEE_DENOMINATOR: u128 = 10_000;

/// The fee rate, in parts per ten thousand, for a holder of `balance` units
/// of the reference token; tiers are tested from the highest threshold down.
pub open spec fn fee_rate(balance: u128) -> u128 {
    if balance >= 100_000_000_000 {
        0
    } else if balance >= 50_000_000_000 {
        6
    } else if balance >= 25_000_000_000 {
        12
    } else if balance >= 12_500_000_000 {
        18
    } else if balance >= 6_250_000_000 {
        24
    } else {
        30
    }
}

/// The fee owed on a trade of `amount` units by a holder of `balance` units.
pub open spec fn fee_of(balance: u128, amount: u128) -> int {
    (amount as int * fee_rate(balance) as int) / (FEE_DENOMINATOR as int)
}

/// Relies on primitive_types::U256: `from(u128)` is exact, `*` and `/` are the
/// integer product and floor quotient (they panic only on a product beyond
/// 256 bits and on a zero divisor), and `as_u128` returns a value below 2^128
/// unchanged.
#[verifier::external_body]
fn mul_div_wide(a: u128, n: u128, d: u128) -> (r: u128)
    requires
        d > 0,
        n <= d,
    ensures
        r as int == (a as int * n as int) / (d as int),
{
    (U256::from(a) * U256::from(n) / U256::from(d)).as_u128()
}

/// The fee rate for a holder of `balance` units of the reference token.
pub fn fee_rate_for(balance: u128) -> (r: u128)
    ensures
        r == fee_rate(balance),
{
    if balance >= 100_000_000_000 {
        0
    } else if balance >= 50_000_000_000 {
        6
    } else if balance >= 25_000_000_000 {
        12
    } else if balance >= 12_500_000_000 {
        18
    } else if balance >= 6_250_000_000 {
        24
    } else {
        30
    }
}

/// The fee on a trade of `to_amount` units for a holder of
/// `user_butt_balance` units of the reference token: the amount times the
/// holder's rate over ten thousand, rounded down; nothing at the top tier.
pub fn calculate_fee(user_butt_balance: u128, to_amount: u128) -> (r: u128)
    ensures
        r as int == fee_of(user_butt_balance, to_amount),
{
    let nom = fee_rate_for(user_butt_balance);
    if nom == 0 {
        0
    } else {
        mul_div_wide(to_amount, nom, FEE_DENOMINATOR)
    }
}

/// A larger balance never pays a higher rate nor a higher fee, and a trade of
/// nothing costs nothing.
pub proof fn lemma_fee_non_increasing(b1: u128, b2: u128, amount: u128)
    requires
        b1 <= b2,
    ensures
        fee_rate(b2) <= fee_rate(b1),
        fee_of(b2, amount) <= fee_of(b1, amount),
        fee_of(b1, 0) == 0,
{
    let r1 = fee_rate(b1) as int;
    let r2 = fee_rate(b2) as int;
    let a = amount as int;
    assert(a * r2 <= a * r1) by (nonlinear_arith)
        requires
            r2 <= r1,
            a >= 0,
    ;
    assert((a * r2) / 10_000 <= (a * r1) / 10_000) by (nonlinear_arith)
        requires
            a * r2 <= a * r1,
    ;
}

/// The top tier starts exactly at one hundred billion units: there the fee is
/// nothing, one unit below it the rate is six parts per ten thousand.
pub proof fn lemma_fee_top_tier_boundary(amount: u128)
    ensures
        fee_of(100_000_000_000, amount) == 0,
        fee_of(99_999_999_999, amount) == (amount as int * 6) / 10_000,
{
}

} // verus!
