//! Claim settlement: a claim pays every unclaimed share at once, flips the
//! one-way flags, and a retry with nothing new accrued is refused.

use data_marketplace::marketplace::DataMarketplaceContract;
use data_marketplace::types::{MarketplaceError, PoolType};

fn single_share_of_475() -> (DataMarketplaceContract, u64) {
    let mut contract = DataMarketplaceContract::initialize(1, 500);
    let pool_id = contract.create_data_pool(
        1,
        String::from("Pool"),
        String::from("A pool"),
        PoolType::FertilityData,
        10,
    );
    contract
        .contribute_data(7, pool_id, String::from("h"), 20)
        .unwrap();
    contract
        .contribute_data(8, pool_id, String::from("h2"), 21)
        .unwrap();
    // 1000 less the 5% fee leaves 950; each contributor's cut is 475.
    contract
        .purchase_data_access(99, pool_id, 1000, 100, 30)
        .unwrap();
    (contract, pool_id)
}

#[test]
fn claim_pays_the_unclaimed_total_once() {
    // Scenario: a user with one unclaimed share of 475 claims 475; the
    // record flips to claimed; an immediate second claim has nothing.
    let (mut contract, _) = single_share_of_475();

    assert_eq!(contract.claim_revenue(7), Ok(475));
    let shares = contract.get_user_revenue_shares(7);
    assert_eq!(shares.len(), 1);
    assert!(shares[0].claimed);
    assert_eq!(shares[0].amount, 475);

    assert_eq!(
        contract.claim_revenue(7),
        Err(MarketplaceError::NothingToClaim)
    );
}

#[test]
fn claims_are_per_user() {
    let (mut contract, _) = single_share_of_475();

    assert_eq!(contract.claim_revenue(7), Ok(475));
    // The other contributor's share is untouched by the first claim.
    let other = contract.get_user_revenue_shares(8);
    assert_eq!(other.len(), 1);
    assert!(!other[0].claimed);
    assert_eq!(contract.claim_revenue(8), Ok(475));
}

#[test]
fn claim_sums_shares_across_pools() {
    let mut contract = DataMarketplaceContract::initialize(1, 0);
    let pool_a = contract.create_data_pool(
        1,
        String::from("A"),
        String::from("first"),
        PoolType::SymptomData,
        10,
    );
    let pool_b = contract.create_data_pool(
        1,
        String::from("B"),
        String::from("second"),
        PoolType::MarketTrends,
        11,
    );
    contract
        .contribute_data(5, pool_a, String::from("ha"), 20)
        .unwrap();
    contract
        .contribute_data(5, pool_b, String::from("hb"), 21)
        .unwrap();
    contract
        .purchase_data_access(99, pool_a, 300, 10, 30)
        .unwrap();
    contract
        .purchase_data_access(99, pool_b, 200, 10, 31)
        .unwrap();

    assert_eq!(contract.claim_revenue(5), Ok(500));
    assert_eq!(
        contract.claim_revenue(5),
        Err(MarketplaceError::NothingToClaim)
    );
}

#[test]
fn new_shares_accrued_after_a_claim_are_claimable() {
    let (mut contract, pool_id) = {
        let mut contract = DataMarketplaceContract::initialize(1, 0);
        let pool_id = contract.create_data_pool(
            1,
            String::from("Pool"),
            String::from("A pool"),
            PoolType::WellnessData,
            10,
        );
        contract
            .contribute_data(6, pool_id, String::from("h"), 20)
            .unwrap();
        (contract, pool_id)
    };
    contract
        .purchase_data_access(99, pool_id, 100, 10, 30)
        .unwrap();
    assert_eq!(contract.claim_revenue(6), Ok(100));

    // A later purchase mints a new unclaimed share; only that one is paid.
    contract
        .purchase_data_access(98, pool_id, 40, 10, 40)
        .unwrap();
    assert_eq!(contract.claim_revenue(6), Ok(40));
}

#[test]
fn claim_without_any_share_is_refused() {
    let mut contract = DataMarketplaceContract::initialize(1, 0);
    assert_eq!(
        contract.claim_revenue(12345),
        Err(MarketplaceError::NothingToClaim)
    );
}
