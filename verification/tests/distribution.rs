//! The proportional payout arithmetic: fee deduction, pro-rata splits,
//! rounding dust, and aggregation of repeated contributions.

use data_marketplace::fees::{compute_fee, MAX_PURCHASE_AMOUNT};
use data_marketplace::marketplace::DataMarketplaceContract;
use data_marketplace::types::PoolType;

fn pool_with_contributors(fee_bps: u32, contributors: &[u64]) -> (DataMarketplaceContract, u64) {
    let mut contract = DataMarketplaceContract::initialize(1, fee_bps);
    let pool_id = contract.create_data_pool(
        1,
        String::from("Pool"),
        String::from("A pool"),
        PoolType::MedicalResearch,
        10,
    );
    for (i, user) in contributors.iter().enumerate() {
        contract
            .contribute_data(*user, pool_id, format!("hash{}", i), 20 + i as u64)
            .unwrap();
    }
    (contract, pool_id)
}

#[test]
fn two_contributors_split_a_fee_adjusted_amount() {
    // Scenario: two contributors with one share each, feeBps = 500,
    // amount = 1000. Fee 50, distributable 950, 475 each, dust 0.
    let (mut contract, pool_id) = pool_with_contributors(500, &[11, 12]);
    contract
        .purchase_data_access(99, pool_id, 1000, 100, 50)
        .unwrap();

    let s1 = contract.get_user_revenue_shares(11);
    let s2 = contract.get_user_revenue_shares(12);
    assert_eq!(s1.len(), 1);
    assert_eq!(s2.len(), 1);
    assert_eq!(s1[0].amount, 475);
    assert_eq!(s2[0].amount, 475);
    assert!(!s1[0].claimed);
}

#[test]
fn rounding_dust_is_credited_to_nobody() {
    // Three equal contributors, no fee: 1000 splits into 333 + 333 + 333,
    // and the dust of 1 stays with the platform (strictly below the
    // number of shareholders).
    let (mut contract, pool_id) = pool_with_contributors(0, &[21, 22, 23]);
    contract
        .purchase_data_access(99, pool_id, 1000, 100, 50)
        .unwrap();

    let mut distributed: i128 = 0;
    for user in [21u64, 22, 23] {
        let shares = contract.get_user_revenue_shares(user);
        assert_eq!(shares.len(), 1);
        assert_eq!(shares[0].amount, 333);
        distributed += shares[0].amount;
    }
    assert_eq!(distributed, 999);
    assert!(1000 - distributed < 3);
}

#[test]
fn repeated_contributions_weigh_proportionally() {
    // One user holds two of three shares.
    let (mut contract, pool_id) = pool_with_contributors(0, &[31, 31, 32]);
    contract
        .purchase_data_access(99, pool_id, 900, 100, 50)
        .unwrap();

    let heavy = contract.get_user_revenue_shares(31);
    let light = contract.get_user_revenue_shares(32);
    // One record per user and purchase, with the aggregated cut.
    assert_eq!(heavy.len(), 1);
    assert_eq!(heavy[0].amount, 600);
    assert_eq!(light.len(), 1);
    assert_eq!(light[0].amount, 300);
}

#[test]
fn zero_payouts_mint_no_records() {
    // The distributable amount rounds down to zero for every contributor.
    let (mut contract, pool_id) = pool_with_contributors(0, &[41, 42, 43]);
    contract
        .purchase_data_access(99, pool_id, 2, 100, 50)
        .unwrap();

    assert_eq!(contract.get_user_revenue_shares(41).len(), 0);
    assert_eq!(contract.get_user_revenue_shares(42).len(), 0);
    assert_eq!(contract.get_user_revenue_shares(43).len(), 0);
    // The purchase still counts toward the pool's gross revenue.
    assert_eq!(contract.get_pool(pool_id).unwrap().total_revenue, 2);
}

#[test]
fn successive_purchases_accumulate_revenue() {
    let (mut contract, pool_id) = pool_with_contributors(0, &[51]);
    contract
        .purchase_data_access(99, pool_id, 100, 10, 50)
        .unwrap();
    contract
        .purchase_data_access(98, pool_id, 250, 10, 60)
        .unwrap();

    assert_eq!(contract.get_pool(pool_id).unwrap().total_revenue, 350);
    let shares = contract.get_user_revenue_shares(51);
    assert_eq!(shares.len(), 2);
    assert_eq!(shares[0].amount, 100);
    assert_eq!(shares[1].amount, 250);
}

#[test]
fn fee_is_a_rounded_down_basis_point_cut() {
    assert_eq!(compute_fee(1000, 500), 50);
    assert_eq!(compute_fee(1000, 0), 0);
    assert_eq!(compute_fee(1, 1000), 0);
    assert_eq!(compute_fee(10_000, 1), 1);
    assert_eq!(compute_fee(9_999, 1), 0);
    assert_eq!(compute_fee(12_345, 1000), 1_234);
}

#[test]
fn the_largest_amount_is_accepted() {
    let (mut contract, pool_id) = pool_with_contributors(1000, &[61]);
    contract
        .purchase_data_access(99, pool_id, MAX_PURCHASE_AMOUNT, 10, 50)
        .unwrap();

    // A 10% fee on the largest amount, rounded down; the single
    // contributor holds every share and receives the whole remainder.
    let fee = MAX_PURCHASE_AMOUNT / 10;
    let shares = contract.get_user_revenue_shares(61);
    assert_eq!(shares.len(), 1);
    assert_eq!(shares[0].amount, MAX_PURCHASE_AMOUNT - fee);
    assert_eq!(contract.claim_revenue(61), Ok(MAX_PURCHASE_AMOUNT - fee));
}

#[test]
fn fee_never_exceeds_the_amount() {
    for amount in [1i128, 2, 9, 10_000, 123_456_789] {
        for fee_bps in [0u32, 1, 250, 999, 1000] {
            let fee = compute_fee(amount, fee_bps);
            assert!(0 <= fee && fee <= amount);
        }
    }
}
