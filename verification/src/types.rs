//! The entities the engine accounts for: pools, contributions, purchases,
//! revenue shares and access grants, together with the error taxonomy.

use vstd::prelude::*;

verus! {

/// An account, as resolved by the hosting environment's authorization
/// provider. The engine only ever compares accounts for equality.
pub type AccountId = u64;

/// Identifier of a data pool; the engine issues these itself from a
/// monotonic counter, so they never collide.
pub type PoolId = u64;

/// The categories a data pool may advertise.
#[derive(Clone, Copy, PartialEq, Eq, Structural, Debug)]
pub enum PoolType {
    MenstrualCycleData,
    SymptomData,
    FertilityData,
    WellnessData,
    MedicalResearch,
    MarketTrends,
}

/// Why an operation was refused. Every mutating operation validates all of
/// its preconditions before performing any write, so an error guarantees
/// that no state changed.
#[derive(Clone, Copy, PartialEq, Eq, Structural, Debug)]
pub enum MarketplaceError {
    /// The named pool does not exist.
    NotFound,
    /// The pool exists but has been deactivated.
    InvalidState,
    /// The caller lacks the required relationship to the entity.
    Unauthorized,
    /// A non-positive amount, or a fee above the cap.
    InvalidParameter,
    /// A claim was attempted with a zero unclaimed balance.
    NothingToClaim,
}

/// A named collection that contributors add data to and buyers pay to
/// access.
#[derive(Debug)]
pub struct DataPool {
    pub id: PoolId,
    pub name: String,
    pub description: String,
    pub pool_type: PoolType,
    pub creator: AccountId,
    /// Count of contribution records for this pool (one share each).
    pub total_contributors: u32,
    /// Gross revenue ever paid into the pool; monotonically non-decreasing.
    pub total_revenue: i128,
    /// Transitions true to false once, never back.
    pub is_active: bool,
    pub created_at: u64,
}

impl Clone for DataPool {
    fn clone(&self) -> (r: Self)
        ensures
            r == *self,
    {
        DataPool {
            id: self.id,
            name: self.name.clone(),
            description: self.description.clone(),
            pool_type: self.pool_type,
            creator: self.creator,
            total_contributors: self.total_contributors,
            total_revenue: self.total_revenue,
            is_active: self.is_active,
            created_at: self.created_at,
        }
    }
}

/// One entry of the append-only contribution ledger. Immutable once
/// created; each contribution carries one share in the base model.
#[derive(Debug)]
pub struct DataContribution {
    pub user: AccountId,
    pub pool_id: PoolId,
    /// Hash of the contributed data; the data itself lives elsewhere.
    pub data_hash: String,
    pub timestamp: u64,
    /// Weight of this contribution when revenue is apportioned.
    pub shares: u32,
}

impl Clone for DataContribution {
    fn clone(&self) -> (r: Self)
        ensures
            r == *self,
    {
        DataContribution {
            user: self.user,
            pool_id: self.pool_id,
            data_hash: self.data_hash.clone(),
            timestamp: self.timestamp,
            shares: self.shares,
        }
    }
}

/// A buyer's payment for access to a pool. Immutable.
#[derive(Clone, Copy, PartialEq, Eq, Structural, Debug)]
pub struct DataPurchase {
    pub buyer: AccountId,
    pub pool_id: PoolId,
    pub amount: i128,
    pub timestamp: u64,
    pub access_expiry: u64,
}

/// A per-user, per-pool claimable earning generated by one purchase.
/// `claimed` flips false to true exactly once, never back.
#[derive(Clone, Copy, PartialEq, Eq, Structural, Debug)]
pub struct RevenueShare {
    pub user: AccountId,
    pub pool_id: PoolId,
    pub amount: i128,
    pub timestamp: u64,
    pub claimed: bool,
}

/// A time-bounded permission record issued to a buyer for a pool.
/// Immutable; validity is purely a function of `now < expires_at`.
#[derive(Clone, Copy, PartialEq, Eq, Structural, Debug)]
pub struct DataAccess {
    pub id: u64,
    pub buyer: AccountId,
    pub pool_id: PoolId,
    pub granted_at: u64,
    pub expires_at: u64,
    /// Opaque credential handed to the buyer; derived from the same
    /// counter as `id`, so it is unique per grant.
    pub api_key: u64,
}

} // verus!
