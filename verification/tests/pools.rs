//! Pool administration: the fee cap, deactivation and its lockout, and the
//! error taxonomy of every refused operation.

use data_marketplace::marketplace::DataMarketplaceContract;
use data_marketplace::types::{MarketplaceError, PoolType};

fn marketplace_with_pool() -> (DataMarketplaceContract, u64) {
    let mut contract = DataMarketplaceContract::initialize(1, 250);
    let pool_id = contract.create_data_pool(
        2,
        String::from("Pool"),
        String::from("A pool"),
        PoolType::SymptomData,
        10,
    );
    contract
        .contribute_data(3, pool_id, String::from("h"), 20)
        .unwrap();
    (contract, pool_id)
}

#[test]
fn fee_above_the_cap_is_refused() {
    // Scenario: the admin asks for 1001 basis points and is refused.
    let (mut contract, _) = marketplace_with_pool();
    assert_eq!(
        contract.set_marketplace_fee(1, 1001),
        Err(MarketplaceError::InvalidParameter)
    );
    // The cap itself is accepted.
    assert_eq!(contract.set_marketplace_fee(1, 1000), Ok(()));
}

#[test]
fn only_the_admin_sets_the_fee() {
    let (mut contract, _) = marketplace_with_pool();
    assert_eq!(
        contract.set_marketplace_fee(2, 100),
        Err(MarketplaceError::Unauthorized)
    );
}

#[test]
fn a_pool_without_contributors_distributes_nothing() {
    // Scenario: zero contributors, amount 1000, no fee: no revenue-share
    // records exist afterwards, and the pool's gross revenue still grows
    // by the full amount.
    let mut contract = DataMarketplaceContract::initialize(1, 0);
    let pool_id = contract.create_data_pool(
        2,
        String::from("Empty"),
        String::from("No contributors"),
        PoolType::MarketTrends,
        10,
    );
    let access = contract
        .purchase_data_access(99, pool_id, 1000, 100, 20)
        .unwrap();
    assert_eq!(access.buyer, 99);
    assert_eq!(contract.get_pool(pool_id).unwrap().total_revenue, 1000);
    assert_eq!(contract.get_user_revenue_shares(99).len(), 0);
    assert_eq!(
        contract.claim_revenue(99),
        Err(MarketplaceError::NothingToClaim)
    );
}

#[test]
fn deactivation_locks_the_pool_out() {
    // After a successful deactivation, contributing and purchasing are
    // refused as InvalidState.
    let (mut contract, pool_id) = marketplace_with_pool();
    assert_eq!(contract.deactivate_pool(2, pool_id), Ok(()));
    assert!(!contract.get_pool(pool_id).unwrap().is_active);

    assert_eq!(
        contract.contribute_data(3, pool_id, String::from("h2"), 30),
        Err(MarketplaceError::InvalidState)
    );
    assert_eq!(
        contract
            .purchase_data_access(99, pool_id, 1000, 100, 30)
            .unwrap_err(),
        MarketplaceError::InvalidState
    );
}

#[test]
fn deactivation_rights_are_owned() {
    let (mut contract, pool_id) = marketplace_with_pool();
    // A stranger may not deactivate; the creator and the admin may.
    assert_eq!(
        contract.deactivate_pool(77, pool_id),
        Err(MarketplaceError::Unauthorized)
    );
    assert_eq!(contract.deactivate_pool(2, pool_id), Ok(()));
    // Deactivating twice is a permitted no-op.
    assert_eq!(contract.deactivate_pool(1, pool_id), Ok(()));
    assert!(!contract.get_pool(pool_id).unwrap().is_active);
}

#[test]
fn missing_pools_are_not_found() {
    let (mut contract, _) = marketplace_with_pool();
    let unknown: u64 = 999;
    assert!(contract.get_pool(unknown).is_none());
    assert_eq!(
        contract.contribute_data(3, unknown, String::from("h"), 30),
        Err(MarketplaceError::NotFound)
    );
    assert_eq!(
        contract
            .purchase_data_access(99, unknown, 1000, 100, 30)
            .unwrap_err(),
        MarketplaceError::NotFound
    );
    assert_eq!(
        contract.deactivate_pool(1, unknown),
        Err(MarketplaceError::NotFound)
    );
}

#[test]
fn non_positive_amounts_are_refused() {
    let (mut contract, pool_id) = marketplace_with_pool();
    assert_eq!(
        contract
            .purchase_data_access(99, pool_id, 0, 100, 30)
            .unwrap_err(),
        MarketplaceError::InvalidParameter
    );
    assert_eq!(
        contract
            .purchase_data_access(99, pool_id, -5, 100, 30)
            .unwrap_err(),
        MarketplaceError::InvalidParameter
    );
    // A refused purchase wrote nothing.
    assert_eq!(contract.get_pool(pool_id).unwrap().total_revenue, 0);
}

#[test]
fn listing_shows_only_active_pools() {
    let (mut contract, pool_id) = marketplace_with_pool();
    let other = contract.create_data_pool(
        2,
        String::from("Other"),
        String::from("Stays active"),
        PoolType::WellnessData,
        11,
    );
    contract.deactivate_pool(1, pool_id).unwrap();

    let listed = contract.list_data_pools();
    assert_eq!(listed.len(), 1);
    assert_eq!(listed[0].id, other);
}

#[test]
fn expired_grants_stay_out_of_listings() {
    let (mut contract, pool_id) = marketplace_with_pool();
    contract
        .purchase_data_access(99, pool_id, 100, 50, 1_000)
        .unwrap();
    contract
        .purchase_data_access(99, pool_id, 100, 500, 1_000)
        .unwrap();

    // At 1049 both grants run; at 1050 the first has expired.
    assert_eq!(contract.get_user_data_accesses(99, 1_049).len(), 2);
    let later = contract.get_user_data_accesses(99, 1_050);
    assert_eq!(later.len(), 1);
    assert_eq!(later[0].expires_at, 1_500);
    // Another user sees nothing.
    assert_eq!(contract.get_user_data_accesses(98, 1_049).len(), 0);
}
