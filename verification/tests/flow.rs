//! The end-to-end marketplace flow: pool creation, contribution, purchase,
//! proportional distribution and claim settlement.

use data_marketplace::marketplace::DataMarketplaceContract;
use data_marketplace::types::PoolType;

#[test]
fn test_data_marketplace_flow() {
    let admin: u64 = 1;
    let user1: u64 = 2;
    let user2: u64 = 3;
    let buyer: u64 = 4;

    // Initialize contract with 5% marketplace fee
    let mut contract = DataMarketplaceContract::initialize(admin, 500);

    // Create a data pool
    let pool_id = contract.create_data_pool(
        admin,
        String::from("Menstrual Health Research"),
        String::from("Anonymized menstrual cycle data for research"),
        PoolType::MenstrualCycleData,
        1_000,
    );

    // User1 contributes data
    contract
        .contribute_data(user1, pool_id, String::from("hash123"), 1_010)
        .unwrap();

    // User2 contributes data
    contract
        .contribute_data(user2, pool_id, String::from("hash456"), 1_020)
        .unwrap();

    // Check user contributions
    let user1_contribs = contract.get_user_contributions(user1);
    assert_eq!(user1_contribs.len(), 1);

    // Buyer purchases access
    let amount: i128 = 1000;
    let access_duration: u64 = 86400 * 30; // 30 days

    let access = contract
        .purchase_data_access(buyer, pool_id, amount, access_duration, 2_000)
        .unwrap();
    assert_eq!(access.buyer, buyer);

    // Check buyer's access
    let buyer_accesses = contract.get_user_data_accesses(buyer, 2_000);
    assert_eq!(buyer_accesses.len(), 1);

    // Check revenue shares were created
    let user1_shares = contract.get_user_revenue_shares(user1);
    assert_eq!(user1_shares.len(), 1);

    let user2_shares = contract.get_user_revenue_shares(user2);
    assert_eq!(user2_shares.len(), 1);

    // Calculate expected revenue distribution
    // 1000 * 0.95 = 950 total to distribute
    // Each user should get 475
    assert_eq!(user1_shares[0].amount, 475);
    assert_eq!(user2_shares[0].amount, 475);

    // Claim revenue
    let claimed = contract.claim_revenue(user1).unwrap();
    assert_eq!(claimed, 475);

    // Check that share is now claimed
    let updated_user1_shares = contract.get_user_revenue_shares(user1);
    assert_eq!(updated_user1_shares[0].claimed, true);
}

#[test]
fn contribution_records_carry_their_inputs() {
    let mut contract = DataMarketplaceContract::initialize(9, 250);
    let pool_id = contract.create_data_pool(
        7,
        String::from("Sleep"),
        String::from("Sleep quality data"),
        PoolType::WellnessData,
        50,
    );
    contract
        .contribute_data(42, pool_id, String::from("abc123"), 60)
        .unwrap();

    let contribs = contract.get_user_contributions(42);
    assert_eq!(contribs.len(), 1);
    assert_eq!(contribs[0].user, 42);
    assert_eq!(contribs[0].pool_id, pool_id);
    assert_eq!(contribs[0].data_hash, "abc123");
    assert_eq!(contribs[0].timestamp, 60);
    assert_eq!(contribs[0].shares, 1);

    // The pool counted the contribution.
    let pool = contract.get_pool(pool_id).unwrap();
    assert_eq!(pool.total_contributors, 1);
}

#[test]
fn purchase_issues_time_bounded_grant() {
    let mut contract = DataMarketplaceContract::initialize(1, 0);
    let pool_id = contract.create_data_pool(
        5,
        String::from("Cycles"),
        String::from("Cycle data"),
        PoolType::MenstrualCycleData,
        100,
    );
    contract
        .contribute_data(6, pool_id, String::from("h1"), 110)
        .unwrap();

    let access = contract
        .purchase_data_access(8, pool_id, 500, 1_000, 2_000)
        .unwrap();
    assert_eq!(access.granted_at, 2_000);
    assert_eq!(access.expires_at, 3_000);
    assert_eq!(access.pool_id, pool_id);

    // Valid strictly before the expiry instant, gone from the listing at it.
    assert_eq!(contract.get_user_data_accesses(8, 2_999).len(), 1);
    assert_eq!(contract.get_user_data_accesses(8, 3_000).len(), 0);
    assert_eq!(contract.get_user_data_accesses(8, 4_000).len(), 0);
}

#[test]
fn pool_ids_are_fresh() {
    let mut contract = DataMarketplaceContract::initialize(1, 100);
    let a = contract.create_data_pool(
        2,
        String::from("A"),
        String::from("first"),
        PoolType::SymptomData,
        10,
    );
    let b = contract.create_data_pool(
        2,
        String::from("A"),
        String::from("same name, new pool"),
        PoolType::SymptomData,
        10,
    );
    assert_ne!(a, b);
    assert!(contract.get_pool(a).is_some());
    assert!(contract.get_pool(b).is_some());
}
