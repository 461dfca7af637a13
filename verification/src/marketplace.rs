//! The marketplace engine itself: pool bookkeeping, the contribution
//! ledger, fee-adjusted proportional payout, access issuance and claim
//! settlement, as one value that the hosting environment persists between
//! calls.
//!
//! Every operation is atomic: it validates all of its preconditions before
//! performing any write, so an error guarantees zero state mutation. The
//! caller has already been authenticated by the environment, and the
//! current time arrives as a plain argument.

use vstd::prelude::*;
use crate::access::active_accesses;
use crate::distribution::{
    distribution, lemma_distribution_conservation, lemma_filter_members, lemma_filter_none,
    lemma_sum_shares_all_one, lemma_sum_shares_nonneg, compute_revenue_shares, sum_amounts,
    sum_shares,
};
use crate::fees::{compute_fee, fee_of, MAX_FEE_BPS, MAX_PURCHASE_AMOUNT};
use crate::settlement::{
    lemma_claim_idempotent, lemma_unclaimed_total_take, settle_all, settle_record,
    unclaimed_total,
};
use crate::types::{
    AccountId, DataAccess, DataContribution, DataPool, DataPurchase, MarketplaceError, PoolId,
    PoolType, RevenueShare,
};

verus! {

/// The contributions recorded for one pool, oldest first.
pub open spec fn pool_contribs_of(cs: Seq<DataContribution>, pool_id: PoolId) -> Seq<
    DataContribution,
> {
    cs.filter(|c: DataContribution| c.pool_id == pool_id)
}

/// The contributions recorded for one user, oldest first.
pub open spec fn user_contribs_of(cs: Seq<DataContribution>, user: AccountId) -> Seq<
    DataContribution,
> {
    cs.filter(|c: DataContribution| c.user == user)
}

/// The revenue shares recorded for one user, oldest first.
pub open spec fn user_shares_of(ss: Seq<RevenueShare>, user: AccountId) -> Seq<RevenueShare> {
    ss.filter(|s: RevenueShare| s.user == user)
}

/// The pools that are still active, in creation order.
pub open spec fn active_pools_of(pools: Seq<DataPool>) -> Seq<DataPool> {
    pools.filter(|p: DataPool| p.is_active)
}

/// `pools` after deactivating the pool with identifier `pool_id`.
pub open spec fn pools_with_deactivated(pools: Seq<DataPool>, pool_id: PoolId) -> Seq<DataPool> {
    pools.map_values(
        |p: DataPool|
            if p.id == pool_id {
                DataPool { is_active: false, ..p }
            } else {
                p
            },
    )
}

/// `pools` after crediting `amount` of gross revenue to the pool with
/// identifier `pool_id`.
pub open spec fn pools_with_revenue(pools: Seq<DataPool>, pool_id: PoolId, amount: int) -> Seq<
    DataPool,
> {
    pools.map_values(
        |p: DataPool|
            if p.id == pool_id {
                DataPool { total_revenue: (p.total_revenue + amount) as i128, ..p }
            } else {
                p
            },
    )
}

/// `pools` after counting one more contributor on the pool with identifier
/// `pool_id`.
pub open spec fn pools_with_contributor(pools: Seq<DataPool>, pool_id: PoolId) -> Seq<DataPool> {
    pools.map_values(
        |p: DataPool|
            if p.id == pool_id {
                DataPool { total_contributors: (p.total_contributors + 1) as u32, ..p }
            } else {
                p
            },
    )
}

/// How a pool's ledger changes when one contribution is appended to the
/// global ledger: it lands at the end of its own pool's ledger and leaves
/// every other pool's ledger alone.
pub proof fn lemma_pool_contribs_push(
    cs: Seq<DataContribution>,
    c: DataContribution,
    pool_id: PoolId,
)
    ensures
        pool_contribs_of(cs.push(c), pool_id) == if c.pool_id == pool_id {
            pool_contribs_of(cs, pool_id).push(c)
        } else {
            pool_contribs_of(cs, pool_id)
        },
{
    reveal(Seq::filter);
    assert(cs.push(c).drop_last() =~= cs);
}

/// A pool no contribution names has an empty ledger.
pub proof fn lemma_pool_contribs_none(cs: Seq<DataContribution>, pool_id: PoolId)
    requires
        forall|i: int| 0 <= i < cs.len() ==> (#[trigger] cs[i]).pool_id != pool_id,
    ensures
        pool_contribs_of(cs, pool_id) == Seq::<DataContribution>::empty(),
{
    lemma_filter_none(cs, |c: DataContribution| c.pool_id == pool_id);
}

/// Every entry of a pool's ledger is an entry of the global ledger.
pub proof fn lemma_pool_contribs_members(cs: Seq<DataContribution>, pool_id: PoolId)
    ensures
        forall|j: int|
            0 <= j < pool_contribs_of(cs, pool_id).len() ==> cs.contains(
                #[trigger] pool_contribs_of(cs, pool_id)[j],
            ),
{
    lemma_filter_members(cs, |c: DataContribution| c.pool_id == pool_id);
}

/// The user-ledger analogue of `lemma_pool_contribs_push`.
pub proof fn lemma_user_contribs_push(
    cs: Seq<DataContribution>,
    c: DataContribution,
    user: AccountId,
)
    ensures
        user_contribs_of(cs.push(c), user) == if c.user == user {
            user_contribs_of(cs, user).push(c)
        } else {
            user_contribs_of(cs, user)
        },
{
    reveal(Seq::filter);
    assert(cs.push(c).drop_last() =~= cs);
}

/// The revenue-share analogue of `lemma_pool_contribs_push`.
pub proof fn lemma_user_shares_of_push(ss: Seq<RevenueShare>, s: RevenueShare, user: AccountId)
    ensures
        user_shares_of(ss.push(s), user) == if s.user == user {
            user_shares_of(ss, user).push(s)
        } else {
            user_shares_of(ss, user)
        },
{
    reveal(Seq::filter);
    assert(ss.push(s).drop_last() =~= ss);
}

/// The active-pool analogue of `lemma_pool_contribs_push`.
pub proof fn lemma_active_pools_push(pools: Seq<DataPool>, p: DataPool)
    ensures
        active_pools_of(pools.push(p)) == if p.is_active {
            active_pools_of(pools).push(p)
        } else {
            active_pools_of(pools)
        },
{
    reveal(Seq::filter);
    assert(pools.push(p).drop_last() =~= pools);
}

/// The whole engine state, as mathematics: every table a sequence, in
/// insertion order.
#[verifier::ext_equal]
pub ghost struct MarketplaceView {
    pub admin: AccountId,
    pub fee_bps: u32,
    pub pools: Seq<DataPool>,
    pub contributions: Seq<DataContribution>,
    pub purchases: Seq<DataPurchase>,
    pub revenue_shares: Seq<RevenueShare>,
    pub accesses: Seq<DataAccess>,
    pub next_pool_id: PoolId,
    pub next_access_id: u64,
}

impl MarketplaceView {
    /// Whether a pool with this identifier exists.
    pub open spec fn has_pool(self, pool_id: PoolId) -> bool {
        exists|i: int| 0 <= i < self.pools.len() && (#[trigger] self.pools[i]).id == pool_id
    }

    /// Where the pool with this identifier sits in the pool table.
    pub open spec fn pool_index(self, pool_id: PoolId) -> int {
        choose|i: int| 0 <= i < self.pools.len() && (#[trigger] self.pools[i]).id == pool_id
    }

    /// The pool with this identifier; meaningful only under `has_pool`.
    pub open spec fn pool(self, pool_id: PoolId) -> DataPool {
        self.pools[self.pool_index(pool_id)]
    }

    /// The contribution ledger of one pool.
    pub open spec fn pool_contributions(self, pool_id: PoolId) -> Seq<DataContribution> {
        pool_contribs_of(self.contributions, pool_id)
    }

    /// One user's contributions, across all pools.
    pub open spec fn user_contributions(self, user: AccountId) -> Seq<DataContribution> {
        user_contribs_of(self.contributions, user)
    }

    /// One user's revenue shares, across all pools.
    pub open spec fn user_revenue_shares(self, user: AccountId) -> Seq<RevenueShare> {
        user_shares_of(self.revenue_shares, user)
    }

    /// Total share weight of one pool's contributions.
    pub open spec fn pool_total_shares(self, pool_id: PoolId) -> int {
        sum_shares(self.pool_contributions(pool_id))
    }

    /// What a claim by `user` would pay out now.
    pub open spec fn unclaimed_balance(self, user: AccountId) -> int {
        unclaimed_total(self.revenue_shares, user)
    }

    /// The internal consistency every reachable engine state enjoys.
    pub open spec fn wf(self) -> bool {
        &&& self.fee_bps <= MAX_FEE_BPS
        &&& forall|i: int, j: int|
            0 <= i < self.pools.len() && 0 <= j < self.pools.len() && i != j
                ==> (#[trigger] self.pools[i]).id != (#[trigger] self.pools[j]).id
        &&& forall|i: int|
            0 <= i < self.pools.len() ==> (#[trigger] self.pools[i]).id < self.next_pool_id
        &&& forall|i: int|
            0 <= i < self.pools.len() ==> (#[trigger] self.pools[i]).total_contributors as int
                == self.pool_contributions(self.pools[i].id).len()
        &&& forall|i: int|
            0 <= i < self.pools.len() ==> (#[trigger] self.pools[i]).total_revenue >= 0
        &&& forall|i: int|
            0 <= i < self.contributions.len() ==> (#[trigger] self.contributions[i]).shares == 1
        &&& forall|i: int|
            0 <= i < self.contributions.len() ==> (#[trigger] self.contributions[i]).pool_id
                < self.next_pool_id
        &&& forall|i: int|
            0 <= i < self.revenue_shares.len() ==> (#[trigger] self.revenue_shares[i]).amount > 0
        &&& forall|i: int|
            0 <= i < self.accesses.len() ==> (#[trigger] self.accesses[i]).id
                < self.next_access_id
        &&& forall|i: int, j: int|
            0 <= i < self.accesses.len() && 0 <= j < self.accesses.len() && i != j
                ==> (#[trigger] self.accesses[i]).id != (#[trigger] self.accesses[j]).id
    }

    /// Why a contribution to `pool_id` would be refused, if it would be.
    pub open spec fn contribute_check(self, pool_id: PoolId) -> Option<MarketplaceError> {
        if !self.has_pool(pool_id) {
            Some(MarketplaceError::NotFound)
        } else if !self.pool(pool_id).is_active {
            Some(MarketplaceError::InvalidState)
        } else {
            None
        }
    }

    /// Why a purchase on `pool_id` of `amount` would be refused, if it
    /// would be.
    pub open spec fn purchase_check(self, pool_id: PoolId, amount: i128) -> Option<
        MarketplaceError,
    > {
        if !self.has_pool(pool_id) {
            Some(MarketplaceError::NotFound)
        } else if !self.pool(pool_id).is_active {
            Some(MarketplaceError::InvalidState)
        } else if amount <= 0 {
            Some(MarketplaceError::InvalidParameter)
        } else {
            None
        }
    }

    /// Why `caller` could not deactivate `pool_id`, if they could not.
    pub open spec fn deactivate_check(self, caller: AccountId, pool_id: PoolId) -> Option<
        MarketplaceError,
    > {
        if !self.has_pool(pool_id) {
            Some(MarketplaceError::NotFound)
        } else if caller != self.admin && caller != self.pool(pool_id).creator {
            Some(MarketplaceError::Unauthorized)
        } else {
            None
        }
    }

    /// Why `caller` could not set the fee to `fee_bps`, if they could not.
    pub open spec fn set_fee_check(self, caller: AccountId, fee_bps: u32) -> Option<
        MarketplaceError,
    > {
        if caller != self.admin {
            Some(MarketplaceError::Unauthorized)
        } else if fee_bps > MAX_FEE_BPS {
            Some(MarketplaceError::InvalidParameter)
        } else {
            None
        }
    }
}

/// A pool-table entry with a matching identifier is the entry the lookup
/// spec functions name, provided identifiers are unique.
pub proof fn lemma_pool_index(m: MarketplaceView, pool_id: PoolId, i: int)
    requires
        forall|i: int, j: int|
            0 <= i < m.pools.len() && 0 <= j < m.pools.len() && i != j
                ==> (#[trigger] m.pools[i]).id != (#[trigger] m.pools[j]).id,
        0 <= i < m.pools.len(),
        m.pools[i].id == pool_id,
    ensures
        m.has_pool(pool_id),
        m.pool_index(pool_id) == i,
        m.pool(pool_id) == m.pools[i],
{
    assert(m.has_pool(pool_id));
    let j = m.pool_index(pool_id);
    assert(0 <= j < m.pools.len() && m.pools[j].id == pool_id);
}

/// Deactivation lockout: once a pool is deactivated, contributing to it
/// and purchasing access to it are refused as `InvalidState`, whatever the
/// amount offered.
pub proof fn lemma_deactivation_lockout(m: MarketplaceView, pool_id: PoolId, amount: i128)
    requires
        m.wf(),
        m.has_pool(pool_id),
    ensures
        ({
            let after = MarketplaceView { pools: pools_with_deactivated(m.pools, pool_id), ..m };
            &&& after.contribute_check(pool_id) == Some(MarketplaceError::InvalidState)
            &&& after.purchase_check(pool_id, amount) == Some(MarketplaceError::InvalidState)
        }),
{
    let after = MarketplaceView { pools: pools_with_deactivated(m.pools, pool_id), ..m };
    let i = m.pool_index(pool_id);
    assert(0 <= i < m.pools.len() && m.pools[i].id == pool_id);
    assert(forall|j: int|
        0 <= j < after.pools.len() ==> (#[trigger] after.pools[j]).id == m.pools[j].id);
    lemma_pool_index(after, pool_id, i);
    assert(!after.pools[i].is_active);
}

/// The engine. The hosting environment constructs it once, persists it
/// between calls, and routes every authenticated call to one of the
/// methods below.
pub struct DataMarketplaceContract {
    admin: AccountId,
    marketplace_fee: u32,
    pools: Vec<DataPool>,
    contributions: Vec<DataContribution>,
    purchases: Vec<DataPurchase>,
    revenue_shares: Vec<RevenueShare>,
    accesses: Vec<DataAccess>,
    next_pool_id: PoolId,
    next_access_id: u64,
}

impl View for DataMarketplaceContract {
    type V = MarketplaceView;

    closed spec fn view(&self) -> MarketplaceView {
        MarketplaceView {
            admin: self.admin,
            fee_bps: self.marketplace_fee,
            pools: self.pools@,
            contributions: self.contributions@,
            purchases: self.purchases@,
            revenue_shares: self.revenue_shares@,
            accesses: self.accesses@,
            next_pool_id: self.next_pool_id,
            next_access_id: self.next_access_id,
        }
    }
}

impl DataMarketplaceContract {
    /// Sets up an empty marketplace under `admin`. The environment must
    /// have authenticated `admin`, and refuses a fee above the cap before
    /// calling.
    pub fn initialize(admin: AccountId, marketplace_fee: u32) -> (r: DataMarketplaceContract)
        requires
            marketplace_fee <= MAX_FEE_BPS,
        ensures
            r@.wf(),
            r@ == (MarketplaceView {
                admin,
                fee_bps: marketplace_fee,
                pools: Seq::<DataPool>::empty(),
                contributions: Seq::<DataContribution>::empty(),
                purchases: Seq::<DataPurchase>::empty(),
                revenue_shares: Seq::<RevenueShare>::empty(),
                accesses: Seq::<DataAccess>::empty(),
                next_pool_id: 0,
                next_access_id: 0,
            }),
    {
        let r = DataMarketplaceContract {
            admin,
            marketplace_fee,
            pools: Vec::new(),
            contributions: Vec::new(),
            purchases: Vec::new(),
            revenue_shares: Vec::new(),
            accesses: Vec::new(),
            next_pool_id: 0,
            next_access_id: 0,
        };
        proof {
            assert(r@ =~= (MarketplaceView {
                admin,
                fee_bps: marketplace_fee,
                pools: Seq::<DataPool>::empty(),
                contributions: Seq::<DataContribution>::empty(),
                purchases: Seq::<DataPurchase>::empty(),
                revenue_shares: Seq::<RevenueShare>::empty(),
                accesses: Seq::<DataAccess>::empty(),
                next_pool_id: 0,
                next_access_id: 0,
            }));
        }
        r
    }

    /// Creates a new data pool under `creator`, active, with no
    /// contributors and no revenue yet. The returned identifier is fresh:
    /// it collides with no existing pool.
    pub fn create_data_pool(
        &mut self,
        creator: AccountId,
        name: String,
        description: String,
        pool_type: PoolType,
        now: u64,
    ) -> (pool_id: PoolId)
        requires
            old(self)@.wf(),
            old(self)@.next_pool_id < u64::MAX,
        ensures
            final(self)@.wf(),
            pool_id == old(self)@.next_pool_id,
            !old(self)@.has_pool(pool_id),
            final(self)@.has_pool(pool_id),
            final(self)@ == (MarketplaceView {
                pools: old(self)@.pools.push(
                    (DataPool {
                        id: pool_id,
                        name,
                        description,
                        pool_type,
                        creator,
                        total_contributors: 0,
                        total_revenue: 0,
                        is_active: true,
                        created_at: now,
                    }),
                ),
                next_pool_id: (pool_id + 1) as u64,
                ..old(self)@
            }),
    {
        let ghost m = self@;
        let pool_id = self.next_pool_id;
        let pool = DataPool {
            id: pool_id,
            name,
            description,
            pool_type,
            creator,
            total_contributors: 0,
            total_revenue: 0,
            is_active: true,
            created_at: now,
        };
        self.pools.push(pool);
        self.next_pool_id = pool_id + 1;
        proof {
            assert(!m.has_pool(pool_id)) by {
                if m.has_pool(pool_id) {
                    let j = choose|j: int|
                        0 <= j < m.pools.len() && (#[trigger] m.pools[j]).id == pool_id;
                    assert(m.pools[j].id < pool_id);
                }
            }
            let ghost pools1 = self@.pools;
            assert(self@ =~= (MarketplaceView {
                pools: pools1,
                next_pool_id: (pool_id + 1) as u64,
                ..m
            }));
            lemma_pool_index(self@, pool_id, m.pools.len() as int);
            // the fresh pool's ledger is empty, every other ledger is untouched
            assert forall|i: int| 0 <= i < self@.pools.len() implies (
            #[trigger] self@.pools[i]).total_contributors as int == self@.pool_contributions(
                self@.pools[i].id,
            ).len() by {
                if i < m.pools.len() {
                    assert(self@.pools[i] == m.pools[i]);
                } else {
                    assert(forall|j: int|
                        0 <= j < m.contributions.len() ==> (
                        #[trigger] m.contributions[j]).pool_id != pool_id);
                    lemma_pool_contribs_none(m.contributions, pool_id);
                }
            }
        }
        pool_id
    }

    /// Finds the position of a pool in the pool table.
    #[verifier::loop_isolation(false)]
    fn find_pool(&self, pool_id: PoolId) -> (r: Option<usize>)
        requires
            self@.wf(),
        ensures
            match r {
                Some(idx) => {
                    &&& idx < self@.pools.len()
                    &&& self@.pools[idx as int].id == pool_id
                    &&& self@.has_pool(pool_id)
                    &&& self@.pool_index(pool_id) == idx as int
                    &&& self@.pool(pool_id) == self@.pools[idx as int]
                },
                None => !self@.has_pool(pool_id),
            },
    {
        let mut i: usize = 0;
        while i < self.pools.len()
            invariant
                0 <= i <= self@.pools.len(),
                forall|j: int| 0 <= j < i ==> (#[trigger] self@.pools[j]).id != pool_id,
            decreases self@.pools.len() - i,
        {
            if self.pools[i].id == pool_id {
                proof {
                    lemma_pool_index(self@, pool_id, i as int);
                }
                return Some(i);
            }
            i = i + 1;
        }
        proof {
            assert(!self@.has_pool(pool_id)) by {
                if self@.has_pool(pool_id) {
                    let j = choose|j: int|
                        0 <= j < self@.pools.len() && (#[trigger] self@.pools[j]).id == pool_id;
                    assert(self@.pools[j].id != pool_id);
                }
            }
        }
        None
    }

    /// Appends one contribution of `user` to the pool's ledger and counts
    /// one more contributor on the pool. Each contribution carries one
    /// share; the same user may contribute repeatedly, each time adding a
    /// share. A missing pool is refused as `NotFound`, an inactive one as
    /// `InvalidState`, and a refusal leaves the state untouched.
    pub fn contribute_data(
        &mut self,
        user: AccountId,
        pool_id: PoolId,
        data_hash: String,
        now: u64,
    ) -> (r: Result<(), MarketplaceError>)
        requires
            old(self)@.wf(),
            old(self)@.has_pool(pool_id) ==> old(self)@.pool(pool_id).total_contributors
                < u32::MAX,
        ensures
            final(self)@.wf(),
            match r {
                Ok(_) => {
                    &&& old(self)@.contribute_check(pool_id) is None
                    &&& final(self)@ == (MarketplaceView {
                        pools: pools_with_contributor(old(self)@.pools, pool_id),
                        contributions: old(self)@.contributions.push(
                            (DataContribution {
                                user,
                                pool_id,
                                data_hash,
                                timestamp: now,
                                shares: 1,
                            }),
                        ),
                        ..old(self)@
                    })
                },
                Err(e) => {
                    &&& old(self)@.contribute_check(pool_id) == Some(e)
                    &&& final(self)@ == old(self)@
                },
            },
    {
        let idx = match self.find_pool(pool_id) {
            Some(idx) => idx,
            None => {
                return Err(MarketplaceError::NotFound);
            },
        };
        if !self.pools[idx].is_active {
            return Err(MarketplaceError::InvalidState);
        }
        let ghost m = self@;
        let ghost c = DataContribution { user, pool_id, data_hash, timestamp: now, shares: 1 };
        let contribution = DataContribution {
            user,
            pool_id,
            data_hash,
            timestamp: now,
            shares: 1,
        };
        self.contributions.push(contribution);
        let total = self.pools[idx].total_contributors;
        let pool_ref = &mut self.pools[idx];
        pool_ref.total_contributors = total + 1;
        proof {
            assert(self@.pools =~= pools_with_contributor(m.pools, pool_id)) by {
                assert(forall|j: int|
                    0 <= j < m.pools.len() && j != idx ==> (#[trigger] m.pools[j]).id != pool_id);
            }
            assert(self@ =~= (MarketplaceView {
                pools: pools_with_contributor(m.pools, pool_id),
                contributions: m.contributions.push(c),
                ..m
            }));
            assert forall|i: int| 0 <= i < self@.pools.len() implies (
            #[trigger] self@.pools[i]).total_contributors as int == self@.pool_contributions(
                self@.pools[i].id,
            ).len() by {
                lemma_pool_contribs_push(m.contributions, c, m.pools[i].id);
                assert(self@.pools[i].id == m.pools[i].id);
                if m.pools[i].id != pool_id {
                    assert(self@.pools[i] == m.pools[i]);
                }
            }
        }
        Ok(())
    }

    /// Copies one pool's ledger out of the global contribution ledger.
    #[verifier::loop_isolation(false)]
    fn collect_pool_contributions(&self, pool_id: PoolId) -> (out: Vec<DataContribution>)
        ensures
            out@ == self@.pool_contributions(pool_id),
    {
        let mut out: Vec<DataContribution> = Vec::new();
        let mut i: usize = 0;
        while i < self.contributions.len()
            invariant
                0 <= i <= self@.contributions.len(),
                out@ == pool_contribs_of(self@.contributions.take(i as int), pool_id),
            decreases self@.contributions.len() - i,
        {
            proof {
                assert(self@.contributions.take(i + 1) =~= self@.contributions.take(
                    i as int,
                ).push(self@.contributions[i as int]));
                lemma_pool_contribs_push(
                    self@.contributions.take(i as int),
                    self@.contributions[i as int],
                    pool_id,
                );
            }
            if self.contributions[i].pool_id == pool_id {
                let c = self.contributions[i].clone();
                out.push(c);
            }
            i = i + 1;
        }
        proof {
            assert(self@.contributions.take(self@.contributions.len() as int)
                =~= self@.contributions);
        }
        out
    }

    /// The purchase and distribution engine. Records the buyer's payment
    /// against the pool, splits the fee-adjusted amount pro rata over the
    /// pool's contributors (each contributor whose rounded-down cut is
    /// positive receives one unclaimed revenue share), credits the gross
    /// amount to the pool's revenue, and issues a time-bounded access
    /// grant running from `now` for `access_duration`.
    ///
    /// A pool with no contributions distributes nothing; the whole
    /// fee-adjusted amount becomes dust, credited to nobody, and the
    /// purchase still counts toward the pool's revenue. A missing pool is
    /// refused as `NotFound`, an inactive one as `InvalidState`, a
    /// non-positive amount as `InvalidParameter`; a refusal leaves the
    /// state untouched.
    pub fn purchase_data_access(
        &mut self,
        buyer: AccountId,
        pool_id: PoolId,
        amount: i128,
        access_duration: u64,
        now: u64,
    ) -> (r: Result<DataAccess, MarketplaceError>)
        requires
            old(self)@.wf(),
            amount <= MAX_PURCHASE_AMOUNT,
            old(self)@.pool_total_shares(pool_id) * amount <= i128::MAX,
            old(self)@.has_pool(pool_id) ==> old(self)@.pool(pool_id).total_revenue + amount
                <= i128::MAX,
            now + access_duration <= u64::MAX,
            old(self)@.next_access_id < u64::MAX,
        ensures
            final(self)@.wf(),
            match r {
                Ok(access) => {
                    let m = old(self)@;
                    let distributable = amount - fee_of(amount as int, m.fee_bps as int);
                    let minted = distribution(
                        m.pool_contributions(pool_id),
                        distributable,
                        pool_id,
                        now,
                    );
                    &&& m.purchase_check(pool_id, amount) is None
                    &&& access == (DataAccess {
                        id: m.next_access_id,
                        buyer,
                        pool_id,
                        granted_at: now,
                        expires_at: (now + access_duration) as u64,
                        api_key: m.next_access_id,
                    })
                    &&& final(self)@ == (MarketplaceView {
                        pools: pools_with_revenue(m.pools, pool_id, amount as int),
                        purchases: m.purchases.push(
                            (DataPurchase {
                                buyer,
                                pool_id,
                                amount,
                                timestamp: now,
                                access_expiry: (now + access_duration) as u64,
                            }),
                        ),
                        revenue_shares: m.revenue_shares + minted,
                        accesses: m.accesses.push(access),
                        next_access_id: (m.next_access_id + 1) as u64,
                        ..m
                    })
                    &&& sum_amounts(minted) <= distributable
                    &&& m.pool_total_shares(pool_id) > 0 ==> distributable - sum_amounts(minted)
                        < m.pool_total_shares(pool_id)
                },
                Err(e) => {
                    &&& old(self)@.purchase_check(pool_id, amount) == Some(e)
                    &&& final(self)@ == old(self)@
                },
            },
    {
        let idx = match self.find_pool(pool_id) {
            Some(idx) => idx,
            None => {
                return Err(MarketplaceError::NotFound);
            },
        };
        if !self.pools[idx].is_active {
            return Err(MarketplaceError::InvalidState);
        }
        if amount <= 0 {
            return Err(MarketplaceError::InvalidParameter);
        }
        let ghost m = self@;
        // The fee is retained by the platform; the rest is distributable.
        let fee = compute_fee(amount, self.marketplace_fee);
        let distributable = amount - fee;
        // Split the distributable amount over the pool's contributors.
        let pool_contribs = self.collect_pool_contributions(pool_id);
        proof {
            lemma_pool_contribs_members(m.contributions, pool_id);
            assert forall|j: int| 0 <= j < pool_contribs@.len() implies (
            #[trigger] pool_contribs@[j]).shares == 1 by {
                assert(m.contributions.contains(pool_contribs@[j]));
                let i = choose|i: int|
                    0 <= i < m.contributions.len() && m.contributions[i] == pool_contribs@[j];
                assert(m.contributions[i].shares == 1);
            }
            lemma_sum_shares_all_one(pool_contribs@);
            lemma_sum_shares_nonneg(pool_contribs@);
            // the share product stays in range because the count does and
            // the distributable part never exceeds the gross amount
            assert(distributable as int * sum_shares(pool_contribs@) <= amount as int
                * sum_shares(pool_contribs@)) by {
                vstd::arithmetic::mul::lemma_mul_inequality(
                    distributable as int,
                    amount as int,
                    sum_shares(pool_contribs@),
                );
            }
            assert(amount as int * sum_shares(pool_contribs@) == m.pool_total_shares(pool_id)
                * amount) by {
                vstd::arithmetic::mul::lemma_mul_is_commutative(
                    amount as int,
                    sum_shares(pool_contribs@),
                );
            }
            assert(pool_contribs@.len() == m.pool(pool_id).total_contributors) by {
                lemma_pool_index(m, pool_id, idx as int);
            }
        }
        let new_shares = compute_revenue_shares(&pool_contribs, distributable, pool_id, now);
        proof {
            lemma_distribution_conservation(pool_contribs@, distributable as int, pool_id, now);
        }
        // Every precondition has held: commit the writes wholesale.
        let expiry = now + access_duration;
        self.purchases.push(
            DataPurchase { buyer, pool_id, amount, timestamp: now, access_expiry: expiry },
        );
        let mut new_shares = new_shares;
        self.revenue_shares.append(&mut new_shares);
        let cur = self.pools[idx].total_revenue;
        proof {
            lemma_pool_index(m, pool_id, idx as int);
        }
        let pool_ref = &mut self.pools[idx];
        pool_ref.total_revenue = cur + amount;
        let access_id = self.next_access_id;
        let access = DataAccess {
            id: access_id,
            buyer,
            pool_id,
            granted_at: now,
            expires_at: expiry,
            api_key: access_id,
        };
        self.accesses.push(access);
        self.next_access_id = access_id + 1;
        proof {
            let minted = distribution(
                m.pool_contributions(pool_id),
                distributable as int,
                pool_id,
                now,
            );
            assert(self@.pools =~= pools_with_revenue(m.pools, pool_id, amount as int)) by {
                assert(forall|j: int|
                    0 <= j < m.pools.len() && j != idx ==> (#[trigger] m.pools[j]).id != pool_id);
            }
            assert(self@ =~= (MarketplaceView {
                pools: pools_with_revenue(m.pools, pool_id, amount as int),
                purchases: m.purchases.push(
                    (DataPurchase {
                        buyer,
                        pool_id,
                        amount,
                        timestamp: now,
                        access_expiry: expiry,
                    }),
                ),
                revenue_shares: m.revenue_shares + minted,
                accesses: m.accesses.push(access),
                next_access_id: (m.next_access_id + 1) as u64,
                ..m
            }));
            // well-formedness: the ledgers and identifiers are untouched,
            // the minted records carry positive amounts
            assert forall|i: int| 0 <= i < self@.pools.len() implies (
            #[trigger] self@.pools[i]).total_contributors as int == self@.pool_contributions(
                self@.pools[i].id,
            ).len() by {
                assert(self@.pools[i].id == m.pools[i].id);
                assert(self@.pools[i].total_contributors == m.pools[i].total_contributors);
            }
            assert forall|i: int| 0 <= i < self@.revenue_shares.len() implies (
            #[trigger] self@.revenue_shares[i]).amount > 0 by {
                if i < m.revenue_shares.len() {
                    assert(self@.revenue_shares[i] == m.revenue_shares[i]);
                } else {
                    assert(self@.revenue_shares[i] == minted[i - m.revenue_shares.len()]);
                }
            }
        }
        Ok(access)
    }

    /// Pays `user` every unclaimed revenue share at once: returns the sum
    /// of the unclaimed amounts and flips each paid record's one-way
    /// `claimed` flag. With a zero unclaimed balance the claim is refused
    /// as `NothingToClaim` and nothing changes, so retrying is safe.
    #[verifier::loop_isolation(false)]
    pub fn claim_revenue(&mut self, user: AccountId) -> (r: Result<i128, MarketplaceError>)
        requires
            old(self)@.wf(),
            old(self)@.unclaimed_balance(user) <= i128::MAX,
        ensures
            final(self)@.wf(),
            match r {
                Ok(total) => {
                    &&& total as int == old(self)@.unclaimed_balance(user)
                    &&& total > 0
                    &&& final(self)@ == (MarketplaceView {
                        revenue_shares: settle_all(old(self)@.revenue_shares, user),
                        ..old(self)@
                    })
                    &&& final(self)@.unclaimed_balance(user) == 0
                    &&& forall|other: AccountId|
                        other != user ==> final(self)@.unclaimed_balance(other) == old(
                            self,
                        )@.unclaimed_balance(other)
                },
                Err(e) => {
                    &&& e == MarketplaceError::NothingToClaim
                    &&& old(self)@.unclaimed_balance(user) == 0
                    &&& final(self)@ == old(self)@
                },
            },
    {
        let ghost m = self@;
        let ghost ss = self@.revenue_shares;
        // Pass one, read-only: what the claim would pay.
        let mut total: i128 = 0;
        let mut i: usize = 0;
        while i < self.revenue_shares.len()
            invariant
                0 <= i <= ss.len(),
                total as int == unclaimed_total(ss.take(i as int), user),
            decreases ss.len() - i,
        {
            proof {
                assert(ss.take(i + 1).drop_last() =~= ss.take(i as int));
                assert(ss.take(i + 1).last() == ss[i as int]);
                lemma_unclaimed_total_take(ss, user, i + 1);
            }
            let rec = self.revenue_shares[i];
            if rec.user == user && !rec.claimed {
                total = total + rec.amount;
            }
            i = i + 1;
        }
        proof {
            assert(ss.take(ss.len() as int) =~= ss);
            lemma_unclaimed_total_take(ss, user, ss.len() as int);
        }
        if total == 0 {
            return Err(MarketplaceError::NothingToClaim);
        }
        // Pass two: settle. Every precondition has held, so the writes are
        // committed wholesale.
        let mut i: usize = 0;
        while i < self.revenue_shares.len()
            invariant
                0 <= i <= ss.len(),
                self@.revenue_shares.len() == ss.len(),
                forall|j: int|
                    0 <= j < i ==> self@.revenue_shares[j] == settle_record(ss[j], user),
                forall|j: int| i <= j < ss.len() ==> self@.revenue_shares[j] == ss[j],
                self@ == (MarketplaceView { revenue_shares: self@.revenue_shares, ..m }),
            decreases ss.len() - i,
        {
            let rec = self.revenue_shares[i];
            if rec.user == user && !rec.claimed {
                let elem = &mut self.revenue_shares[i];
                elem.claimed = true;
            }
            i = i + 1;
        }
        proof {
            assert(self@.revenue_shares =~= settle_all(ss, user));
            assert(self@ =~= (MarketplaceView { revenue_shares: settle_all(ss, user), ..m }));
            lemma_claim_idempotent(ss, user);
            assert forall|other: AccountId| other != user implies self@.unclaimed_balance(other)
                == m.unclaimed_balance(other) by {
                crate::settlement::lemma_settle_other_users(ss, user, other);
            }
            assert forall|i: int| 0 <= i < self@.revenue_shares.len() implies (
            #[trigger] self@.revenue_shares[i]).amount > 0 by {
                assert(self@.revenue_shares[i] == settle_record(ss[i], user));
            }
        }
        Ok(total)
    }

    /// Sets the marketplace fee. Only the admin may; a fee above the 10%
    /// cap is refused as `InvalidParameter`.
    pub fn set_marketplace_fee(&mut self, caller: AccountId, fee: u32) -> (r: Result<
        (),
        MarketplaceError,
    >)
        requires
            old(self)@.wf(),
        ensures
            final(self)@.wf(),
            match r {
                Ok(_) => {
                    &&& old(self)@.set_fee_check(caller, fee) is None
                    &&& final(self)@ == (MarketplaceView { fee_bps: fee, ..old(self)@ })
                },
                Err(e) => {
                    &&& old(self)@.set_fee_check(caller, fee) == Some(e)
                    &&& final(self)@ == old(self)@
                },
            },
    {
        if caller != self.admin {
            return Err(MarketplaceError::Unauthorized);
        }
        if fee > MAX_FEE_BPS {
            return Err(MarketplaceError::InvalidParameter);
        }
        self.marketplace_fee = fee;
        proof {
            assert(self@ =~= (MarketplaceView { fee_bps: fee, ..old(self)@ }));
        }
        Ok(())
    }

    /// Deactivates a pool: a one-way transition that only the admin or the
    /// pool's creator may take. Deactivating an already inactive pool is a
    /// permitted no-op, as deactivation is a plain state set.
    pub fn deactivate_pool(&mut self, caller: AccountId, pool_id: PoolId) -> (r: Result<
        (),
        MarketplaceError,
    >)
        requires
            old(self)@.wf(),
        ensures
            final(self)@.wf(),
            match r {
                Ok(_) => {
                    &&& old(self)@.deactivate_check(caller, pool_id) is None
                    &&& final(self)@ == (MarketplaceView {
                        pools: pools_with_deactivated(old(self)@.pools, pool_id),
                        ..old(self)@
                    })
                    &&& final(self)@.has_pool(pool_id)
                    &&& !final(self)@.pool(pool_id).is_active
                },
                Err(e) => {
                    &&& old(self)@.deactivate_check(caller, pool_id) == Some(e)
                    &&& final(self)@ == old(self)@
                },
            },
    {
        let idx = match self.find_pool(pool_id) {
            Some(idx) => idx,
            None => {
                return Err(MarketplaceError::NotFound);
            },
        };
        if caller != self.admin && caller != self.pools[idx].creator {
            return Err(MarketplaceError::Unauthorized);
        }
        let ghost m = self@;
        let pool_ref = &mut self.pools[idx];
        pool_ref.is_active = false;
        proof {
            assert(self@.pools =~= pools_with_deactivated(m.pools, pool_id)) by {
                assert(forall|j: int|
                    0 <= j < m.pools.len() && j != idx ==> (#[trigger] m.pools[j]).id != pool_id);
            }
            assert(self@ =~= (MarketplaceView {
                pools: pools_with_deactivated(m.pools, pool_id),
                ..m
            }));
            assert forall|i: int| 0 <= i < self@.pools.len() implies (
            #[trigger] self@.pools[i]).total_contributors as int == self@.pool_contributions(
                self@.pools[i].id,
            ).len() by {
                assert(self@.pools[i].id == m.pools[i].id);
                assert(self@.pools[i].total_contributors == m.pools[i].total_contributors);
            }
            lemma_pool_index(self@, pool_id, idx as int);
        }
        Ok(())
    }

    /// Lists the pools that are still active, in creation order.
    #[verifier::loop_isolation(false)]
    pub fn list_data_pools(&self) -> (out: Vec<DataPool>)
        ensures
            out@ == active_pools_of(self@.pools),
    {
        let mut out: Vec<DataPool> = Vec::new();
        let mut i: usize = 0;
        while i < self.pools.len()
            invariant
                0 <= i <= self@.pools.len(),
                out@ == active_pools_of(self@.pools.take(i as int)),
            decreases self@.pools.len() - i,
        {
            proof {
                assert(self@.pools.take(i + 1) =~= self@.pools.take(i as int).push(
                    self@.pools[i as int],
                ));
                lemma_active_pools_push(self@.pools.take(i as int), self@.pools[i as int]);
            }
            if self.pools[i].is_active {
                let p = self.pools[i].clone();
                out.push(p);
            }
            i = i + 1;
        }
        proof {
            assert(self@.pools.take(self@.pools.len() as int) =~= self@.pools);
        }
        out
    }

    /// Looks a pool up by identifier.
    pub fn get_pool(&self, pool_id: PoolId) -> (r: Option<DataPool>)
        requires
            self@.wf(),
        ensures
            match r {
                Some(p) => self@.has_pool(pool_id) && p == self@.pool(pool_id),
                None => !self@.has_pool(pool_id),
            },
    {
        match self.find_pool(pool_id) {
            Some(idx) => Some(self.pools[idx].clone()),
            None => None,
        }
    }

    /// Lists one user's contributions, oldest first, across all pools.
    #[verifier::loop_isolation(false)]
    pub fn get_user_contributions(&self, user: AccountId) -> (out: Vec<DataContribution>)
        ensures
            out@ == self@.user_contributions(user),
    {
        let mut out: Vec<DataContribution> = Vec::new();
        let mut i: usize = 0;
        while i < self.contributions.len()
            invariant
                0 <= i <= self@.contributions.len(),
                out@ == user_contribs_of(self@.contributions.take(i as int), user),
            decreases self@.contributions.len() - i,
        {
            proof {
                assert(self@.contributions.take(i + 1) =~= self@.contributions.take(
                    i as int,
                ).push(self@.contributions[i as int]));
                lemma_user_contribs_push(
                    self@.contributions.take(i as int),
                    self@.contributions[i as int],
                    user,
                );
            }
            if self.contributions[i].user == user {
                let c = self.contributions[i].clone();
                out.push(c);
            }
            i = i + 1;
        }
        proof {
            assert(self@.contributions.take(self@.contributions.len() as int)
                =~= self@.contributions);
        }
        out
    }

    /// Lists one user's revenue shares, oldest first, across all pools,
    /// claimed and unclaimed alike.
    #[verifier::loop_isolation(false)]
    pub fn get_user_revenue_shares(&self, user: AccountId) -> (out: Vec<RevenueShare>)
        ensures
            out@ == self@.user_revenue_shares(user),
    {
        let mut out: Vec<RevenueShare> = Vec::new();
        let mut i: usize = 0;
        while i < self.revenue_shares.len()
            invariant
                0 <= i <= self@.revenue_shares.len(),
                out@ == user_shares_of(self@.revenue_shares.take(i as int), user),
            decreases self@.revenue_shares.len() - i,
        {
            proof {
                assert(self@.revenue_shares.take(i + 1) =~= self@.revenue_shares.take(
                    i as int,
                ).push(self@.revenue_shares[i as int]));
                lemma_user_shares_of_push(
                    self@.revenue_shares.take(i as int),
                    self@.revenue_shares[i as int],
                    user,
                );
            }
            if self.revenue_shares[i].user == user {
                let s = self.revenue_shares[i];
                out.push(s);
            }
            i = i + 1;
        }
        proof {
            assert(self@.revenue_shares.take(self@.revenue_shares.len() as int)
                =~= self@.revenue_shares);
        }
        out
    }

    /// Lists the buyer's grants that are still valid at `now`. Expired
    /// grants stay in storage; they are only excluded from the listing,
    /// which never shows a grant with `expires_at <= now`.
    #[verifier::loop_isolation(false)]
    pub fn get_user_data_accesses(&self, user: AccountId, now: u64) -> (out: Vec<DataAccess>)
        ensures
            out@ == active_accesses(self@.accesses, user, now),
            forall|j: int|
                0 <= j < out@.len() ==> (#[trigger] out@[j]).expires_at > now && out@[j].buyer
                    == user,
    {
        let mut out: Vec<DataAccess> = Vec::new();
        let mut i: usize = 0;
        while i < self.accesses.len()
            invariant
                0 <= i <= self@.accesses.len(),
                out@ == active_accesses(self@.accesses.take(i as int), user, now),
            decreases self@.accesses.len() - i,
        {
            proof {
                assert(self@.accesses.take(i + 1) =~= self@.accesses.take(i as int).push(
                    self@.accesses[i as int],
                ));
                crate::access::lemma_active_accesses_push(
                    self@.accesses.take(i as int),
                    self@.accesses[i as int],
                    user,
                    now,
                );
            }
            if self.accesses[i].buyer == user && self.accesses[i].expires_at > now {
                let a = self.accesses[i];
                out.push(a);
            }
            i = i + 1;
        }
        proof {
            assert(self@.accesses.take(self@.accesses.len() as int) =~= self@.accesses);
            crate::access::lemma_expiry_filtering(self@.accesses, user, now);
        }
        out
    }
}

} // verus!
