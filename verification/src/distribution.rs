//! Proportional revenue distribution: aggregates contribution shares per
//! user and splits a distributable amount pro rata, rounding each payout
//! down. No remainder-redistribution pass is performed; the rounding dust
//! is credited to nobody.

use vstd::prelude::*;
use vstd::arithmetic::div_mod::{
    lemma_div_by_multiple, lemma_div_is_ordered, lemma_div_pos_is_pos, lemma_fundamental_div_mod,
    lemma_mod_division_less_than_divisor,
};
use vstd::arithmetic::mul::{
    lemma_mul_inequality, lemma_mul_inequality_converse, lemma_mul_is_commutative,
    lemma_mul_nonnegative, lemma_mul_strict_inequality_converse,
};
use crate::types::{AccountId, DataContribution, PoolId, RevenueShare};

verus! {

/// A filter keeps nothing when the predicate holds nowhere.
pub proof fn lemma_filter_none<A>(s: Seq<A>, pred: spec_fn(A) -> bool)
    requires
        forall|i: int| 0 <= i < s.len() ==> !pred(#[trigger] s[i]),
    ensures
        s.filter(pred) == Seq::<A>::empty(),
    decreases s.len(),
{
    reveal(Seq::filter);
    if s.len() > 0 {
        assert(forall|i: int| 0 <= i < s.len() - 1 ==> s.drop_last()[i] == s[i]);
        lemma_filter_none(s.drop_last(), pred);
        assert(!pred(s[s.len() - 1]));
    }
    assert(s.filter(pred) =~= Seq::<A>::empty());
}

/// Every element a filter keeps is an element of the original sequence.
pub proof fn lemma_filter_members<A>(s: Seq<A>, pred: spec_fn(A) -> bool)
    ensures
        forall|j: int|
            0 <= j < s.filter(pred).len() ==> s.contains(#[trigger] s.filter(pred)[j]),
    decreases s.len(),
{
    reveal(Seq::filter);
    if s.len() > 0 {
        lemma_filter_members(s.drop_last(), pred);
        let sub = s.drop_last().filter(pred);
        assert forall|j: int| 0 <= j < s.filter(pred).len() implies s.contains(
            #[trigger] s.filter(pred)[j],
        ) by {
            if j < sub.len() {
                assert(s.drop_last().contains(sub[j]));
                let i = choose|i: int| 0 <= i < s.len() - 1 && s.drop_last()[i] == sub[j];
                assert(s[i] == sub[j]);
            } else {
                assert(s.filter(pred)[j] == s.last());
                assert(s[s.len() - 1] == s.last());
            }
        }
    }
}

/// With every contribution weighing exactly one share, the total weight is
/// the number of contributions.
pub proof fn lemma_sum_shares_all_one(cs: Seq<DataContribution>)
    requires
        forall|i: int| 0 <= i < cs.len() ==> (#[trigger] cs[i]).shares == 1,
    ensures
        sum_shares(cs) == cs.len(),
    decreases cs.len(),
{
    if cs.len() > 0 {
        assert(forall|i: int| 0 <= i < cs.len() - 1 ==> cs.drop_last()[i] == cs[i]);
        lemma_sum_shares_all_one(cs.drop_last());
    }
}

/// Total weight of a sequence of contributions.
pub open spec fn sum_shares(cs: Seq<DataContribution>) -> int
    decreases cs.len(),
{
    if cs.len() == 0 {
        0
    } else {
        sum_shares(cs.drop_last()) + cs.last().shares
    }
}

/// Combined weight of `user`'s contributions within `cs`.
pub open spec fn user_shares(cs: Seq<DataContribution>, user: AccountId) -> int
    decreases cs.len(),
{
    if cs.len() == 0 {
        0
    } else {
        user_shares(cs.drop_last(), user) + if cs.last().user == user {
            cs.last().shares as int
        } else {
            0
        }
    }
}

/// Whether some contribution in `cs` belongs to `user`.
pub open spec fn has_contributor(cs: Seq<DataContribution>, user: AccountId) -> bool {
    exists|i: int| 0 <= i < cs.len() && cs[i].user == user
}

/// The distinct contributors of `cs`, each once, in order of first
/// contribution.
pub open spec fn distinct_users(cs: Seq<DataContribution>) -> Seq<AccountId>
    decreases cs.len(),
{
    if cs.len() == 0 {
        Seq::empty()
    } else {
        let rest = distinct_users(cs.drop_last());
        if rest.contains(cs.last().user) {
            rest
        } else {
            rest.push(cs.last().user)
        }
    }
}

/// The payout owed to a holder of `shares` out of `total` shares when
/// `distributable` is split pro rata, rounded down.
pub open spec fn payout_of(distributable: int, shares: int, total: int) -> int {
    distributable * shares / total
}

/// The revenue-share records minted for `users`, one candidate per user in
/// order, dropping every user whose payout rounds down to zero.
pub open spec fn payout_records(
    users: Seq<AccountId>,
    cs: Seq<DataContribution>,
    distributable: int,
    pool_id: PoolId,
    now: u64,
) -> Seq<RevenueShare>
    decreases users.len(),
{
    if users.len() == 0 {
        Seq::empty()
    } else {
        let rest = payout_records(users.drop_last(), cs, distributable, pool_id, now);
        let amt = payout_of(distributable, user_shares(cs, users.last()), sum_shares(cs));
        if amt > 0 {
            rest.push(
                RevenueShare {
                    user: users.last(),
                    pool_id,
                    amount: amt as i128,
                    timestamp: now,
                    claimed: false,
                },
            )
        } else {
            rest
        }
    }
}

/// Everything one purchase distributes over the contributions `cs` of a
/// pool: per distinct contributor, the pro-rata cut of `distributable`.
/// A pool without shares distributes nothing.
pub open spec fn distribution(
    cs: Seq<DataContribution>,
    distributable: int,
    pool_id: PoolId,
    now: u64,
) -> Seq<RevenueShare> {
    if sum_shares(cs) <= 0 {
        Seq::empty()
    } else {
        payout_records(distinct_users(cs), cs, distributable, pool_id, now)
    }
}

/// Sum of the amounts of a sequence of revenue-share records.
pub open spec fn sum_amounts(ss: Seq<RevenueShare>) -> int
    decreases ss.len(),
{
    if ss.len() == 0 {
        0
    } else {
        sum_amounts(ss.drop_last()) + ss.last().amount
    }
}

/// Combined weight of a given list of users' contributions.
pub open spec fn sum_user_shares(cs: Seq<DataContribution>, users: Seq<AccountId>) -> int
    decreases users.len(),
{
    if users.len() == 0 {
        0
    } else {
        sum_user_shares(cs, users.drop_last()) + user_shares(cs, users.last())
    }
}

/// How often `user` occurs in `users`.
pub open spec fn occurrences(users: Seq<AccountId>, user: AccountId) -> int
    decreases users.len(),
{
    if users.len() == 0 {
        0
    } else {
        occurrences(users.drop_last(), user) + if users.last() == user {
            1int
        } else {
            0int
        }
    }
}

/// The total weight of a sequence of contributions is never negative.
pub proof fn lemma_sum_shares_nonneg(cs: Seq<DataContribution>)
    ensures
        0 <= sum_shares(cs),
    decreases cs.len(),
{
    if cs.len() > 0 {
        lemma_sum_shares_nonneg(cs.drop_last());
    }
}

/// A prefix of a contribution sequence never carries more weight than the
/// whole sequence.
pub proof fn lemma_sum_shares_take_le(cs: Seq<DataContribution>, i: int)
    requires
        0 <= i <= cs.len(),
    ensures
        sum_shares(cs.take(i)) <= sum_shares(cs),
    decreases cs.len() - i,
{
    if i == cs.len() {
        assert(cs.take(i) =~= cs);
    } else {
        assert(cs.take(i + 1).drop_last() =~= cs.take(i));
        assert(cs.take(i + 1).last() == cs[i]);
        lemma_sum_shares_take_le(cs, i + 1);
    }
}

/// One user's weight lies between zero and the total weight.
pub proof fn lemma_user_shares_le(cs: Seq<DataContribution>, user: AccountId)
    ensures
        0 <= user_shares(cs, user) <= sum_shares(cs),
    decreases cs.len(),
{
    if cs.len() > 0 {
        lemma_user_shares_le(cs.drop_last(), user);
    }
}

/// A user without contributions in `cs` has no weight in `cs`.
pub proof fn lemma_user_shares_absent(cs: Seq<DataContribution>, user: AccountId)
    requires
        !has_contributor(cs, user),
    ensures
        user_shares(cs, user) == 0,
    decreases cs.len(),
{
    if cs.len() > 0 {
        assert(!has_contributor(cs.drop_last(), user)) by {
            if has_contributor(cs.drop_last(), user) {
                let i = choose|i: int|
                    0 <= i < cs.len() - 1 && cs.drop_last()[i].user == user;
                assert(cs[i].user == user);
            }
        }
        lemma_user_shares_absent(cs.drop_last(), user);
    }
}

/// A user whose every contribution weighs at least one share, and who has
/// contributed, carries at least one share in total.
pub proof fn lemma_user_shares_present(cs: Seq<DataContribution>, user: AccountId)
    requires
        has_contributor(cs, user),
        forall|i: int| 0 <= i < cs.len() ==> (#[trigger] cs[i]).shares >= 1,
    ensures
        user_shares(cs, user) >= 1,
    decreases cs.len(),
{
    if cs.last().user == user {
        lemma_user_shares_le(cs.drop_last(), user);
    } else {
        assert(has_contributor(cs.drop_last(), user)) by {
            let i = choose|i: int| 0 <= i < cs.len() && cs[i].user == user;
            assert(cs.drop_last()[i].user == user);
        }
        lemma_user_shares_present(cs.drop_last(), user);
    }
}

/// The distinct-contributor list has no duplicates and contains exactly
/// the users that contributed.
pub proof fn lemma_distinct_users(cs: Seq<DataContribution>)
    ensures
        distinct_users(cs).no_duplicates(),
        forall|u: AccountId| distinct_users(cs).contains(u) <==> has_contributor(cs, u),
    decreases cs.len(),
{
    if cs.len() > 0 {
        lemma_distinct_users(cs.drop_last());
        assert(forall|i: int|
            0 <= i < cs.len() - 1 ==> cs.drop_last()[i] == cs[i]);
        let rest = distinct_users(cs.drop_last());
        let du = distinct_users(cs);
        assert(forall|j: int| 0 <= j < rest.len() ==> du[j] == rest[j]);
        if !rest.contains(cs.last().user) {
            assert forall|i: int, j: int|
                0 <= i < du.len() && 0 <= j < du.len() && i != j implies du[i] != du[j] by {
                if i < du.len() - 1 && j < du.len() - 1 {
                    assert(rest[i] != rest[j]);
                } else if i < du.len() - 1 {
                    assert(!rest.contains(du[j]) && rest[i] == du[i]);
                } else {
                    assert(!rest.contains(du[i]) && rest[j] == du[j]);
                }
            }
        }
        assert forall|u: AccountId| has_contributor(cs, u) implies du.contains(u) by {
            let i = choose|i: int| 0 <= i < cs.len() && cs[i].user == u;
            if i < cs.len() - 1 {
                assert(cs.drop_last()[i].user == u);
                assert(has_contributor(cs.drop_last(), u));
                let j = choose|j: int| 0 <= j < rest.len() && rest[j] == u;
                assert(du[j] == u);
            } else {
                if rest.contains(u) {
                    let j = choose|j: int| 0 <= j < rest.len() && rest[j] == u;
                    assert(du[j] == u);
                } else {
                    assert(du.last() == u);
                }
            }
        }
        assert forall|u: AccountId| du.contains(u) implies has_contributor(cs, u) by {
            if rest.contains(u) {
                assert(has_contributor(cs.drop_last(), u));
                let i = choose|i: int| 0 <= i < cs.len() - 1 && cs.drop_last()[i].user == u;
                assert(cs[i].user == u);
            } else {
                let j = choose|j: int| 0 <= j < du.len() && du[j] == u;
                if j < rest.len() {
                    assert(rest[j] == u);
                    assert(rest.contains(u));
                }
                assert(u == cs.last().user);
                assert(cs[cs.len() - 1].user == u);
            }
        }
    }
}

/// In a duplicate-free list every user occurs at most once; occurrence is
/// one exactly when the list contains the user.
pub proof fn lemma_occurrences_no_dup(users: Seq<AccountId>, user: AccountId)
    requires
        users.no_duplicates(),
    ensures
        occurrences(users, user) == if users.contains(user) {
            1int
        } else {
            0int
        },
    decreases users.len(),
{
    if users.len() > 0 {
        assert(users.drop_last().no_duplicates());
        lemma_occurrences_no_dup(users.drop_last(), user);
        assert(forall|i: int|
            0 <= i < users.len() - 1 ==> users.drop_last()[i] == users[i]);
        if users.last() == user {
            assert(!users.drop_last().contains(user));
            assert(users[users.len() - 1] == user);
        } else {
            if users.drop_last().contains(user) {
                let i = choose|i: int|
                    0 <= i < users.len() - 1 && users.drop_last()[i] == user;
                assert(users[i] == user);
            } else if users.contains(user) {
                let i = choose|i: int| 0 <= i < users.len() && users[i] == user;
                assert(users.drop_last()[i] == user);
            }
        }
    }
}

/// Appending one contribution adds its weight to the listed users' total
/// once per occurrence of the contributor in the list.
pub proof fn lemma_sum_user_shares_push(
    cs: Seq<DataContribution>,
    c: DataContribution,
    users: Seq<AccountId>,
)
    ensures
        sum_user_shares(cs.push(c), users) == sum_user_shares(cs, users) + occurrences(
            users,
            c.user,
        ) * (c.shares as int),
    decreases users.len(),
{
    if users.len() > 0 {
        lemma_sum_user_shares_push(cs, c, users.drop_last());
        assert(cs.push(c).drop_last() =~= cs);
        assert(user_shares(cs.push(c), users.last()) == user_shares(cs, users.last())
            + if c.user == users.last() {
            c.shares as int
        } else {
            0
        });
        let occ = occurrences(users.drop_last(), c.user);
        assert((occ + 1) * (c.shares as int) == occ * (c.shares as int) + c.shares)
            by (nonlinear_arith);
    } else {
        assert(occurrences(users, c.user) * (c.shares as int) == 0);
    }
}

/// Grouping the ledger by contributor conserves weight: the distinct
/// contributors' weights add up to the total weight.
pub proof fn lemma_group_shares(cs: Seq<DataContribution>)
    ensures
        sum_user_shares(cs, distinct_users(cs)) == sum_shares(cs),
    decreases cs.len(),
{
    if cs.len() > 0 {
        let init = cs.drop_last();
        let c = cs.last();
        lemma_group_shares(init);
        lemma_distinct_users(init);
        assert(cs =~= init.push(c));
        let du = distinct_users(init);
        lemma_occurrences_no_dup(du, c.user);
        if du.contains(c.user) {
            lemma_sum_user_shares_push(init, c, du);
        } else {
            lemma_sum_user_shares_push(init, c, du);
            assert(!has_contributor(init, c.user));
            lemma_user_shares_absent(init, c.user);
            assert(du.push(c.user).drop_last() =~= du);
            assert(user_shares(cs, c.user) == c.shares as int);
        }
    }
}

/// Each listed user's weight of at least one share forces the group total
/// to be at least the number of listed users.
pub proof fn lemma_sum_user_shares_min(cs: Seq<DataContribution>, users: Seq<AccountId>)
    requires
        forall|j: int| 0 <= j < users.len() ==> user_shares(cs, #[trigger] users[j]) >= 1,
    ensures
        sum_user_shares(cs, users) >= users.len(),
    decreases users.len(),
{
    if users.len() > 0 {
        assert(forall|j: int|
            0 <= j < users.len() - 1 ==> users.drop_last()[j] == users[j]);
        lemma_sum_user_shares_min(cs, users.drop_last());
    }
}

/// Bounds on one pro-rata payout batch: scaled by the total share count
/// `S`, the amounts paid sum to at most `distributable` times the covered
/// weight, and fall short of it by less than one `S - 1` per user; every
/// minted record is an unclaimed record of this pool, stamped `now`, with
/// a positive amount of at most `distributable`.
pub proof fn lemma_payout_records_bounds(
    users: Seq<AccountId>,
    cs: Seq<DataContribution>,
    distributable: int,
    pool_id: PoolId,
    now: u64,
)
    requires
        0 <= distributable <= i128::MAX,
        sum_shares(cs) > 0,
    ensures
        ({
            let recs = payout_records(users, cs, distributable, pool_id, now);
            let total = sum_shares(cs);
            &&& 0 <= sum_amounts(recs)
            &&& total * sum_amounts(recs) <= distributable * sum_user_shares(cs, users)
            &&& distributable * sum_user_shares(cs, users) - users.len() * (total - 1) <= total
                * sum_amounts(recs)
            &&& recs.len() <= users.len()
            &&& forall|j: int|
                0 <= j < recs.len() ==> {
                    &&& (#[trigger] recs[j]).pool_id == pool_id
                    &&& recs[j].timestamp == now
                    &&& !recs[j].claimed
                    &&& 0 < recs[j].amount <= distributable
                }
        }),
    decreases users.len(),
{
    let recs = payout_records(users, cs, distributable, pool_id, now);
    let total = sum_shares(cs);
    if users.len() == 0 {
        assert(distributable * sum_user_shares(cs, users) == 0) by {
            lemma_mul_is_commutative(distributable, 0);
        }
        assert(total * sum_amounts(recs) == 0) by {
            lemma_mul_is_commutative(total, 0);
        }
    } else {
        let prev_users = users.drop_last();
        let u = users.last();
        lemma_payout_records_bounds(prev_users, cs, distributable, pool_id, now);
        let prev = payout_records(prev_users, cs, distributable, pool_id, now);
        let s = user_shares(cs, u);
        let amt = payout_of(distributable, s, total);
        lemma_user_shares_le(cs, u);
        lemma_mul_nonnegative(distributable, s);
        lemma_div_pos_is_pos(distributable * s, total);
        // amt <= distributable, because s <= total
        lemma_mul_inequality(s, total, distributable);
        lemma_mul_is_commutative(s, distributable);
        lemma_mul_is_commutative(total, distributable);
        lemma_div_is_ordered(distributable * s, distributable * total, total);
        lemma_div_by_multiple(distributable, total);
        // total * amt == distributable * s - (distributable * s) % total
        lemma_fundamental_div_mod(distributable * s, total);
        lemma_mod_division_less_than_divisor(distributable * s, total);
        // distribute the grouped sums
        assert(sum_user_shares(cs, users) == sum_user_shares(cs, prev_users) + s);
        assert(distributable * (sum_user_shares(cs, prev_users) + s) == distributable
            * sum_user_shares(cs, prev_users) + distributable * s) by {
            vstd::arithmetic::mul::lemma_mul_is_distributive_add(
                distributable,
                sum_user_shares(cs, prev_users),
                s,
            );
        }
        if amt > 0 {
            assert(recs =~= prev.push(
                RevenueShare {
                    user: u,
                    pool_id,
                    amount: amt as i128,
                    timestamp: now,
                    claimed: false,
                },
            ));
            assert(sum_amounts(recs) == sum_amounts(prev) + amt) by {
                assert(recs.drop_last() =~= prev);
            }
            assert(total * (sum_amounts(prev) + amt) == total * sum_amounts(prev) + total * amt)
                by {
                vstd::arithmetic::mul::lemma_mul_is_distributive_add(
                    total,
                    sum_amounts(prev),
                    amt,
                );
            }
        } else {
            // the payout rounded down to zero, so distributable * s < total
            assert(distributable * s < total) by {
                if distributable * s >= total {
                    lemma_div_is_ordered(total, distributable * s, total);
                    vstd::arithmetic::div_mod::lemma_div_by_self(total);
                }
            }
        }
        let pk = prev_users.len() as int;
        assert((pk + 1) * (total - 1) == pk * (total - 1) + (total - 1)) by (nonlinear_arith);
        assert(users.len() as int == pk + 1);
    }
}

/// Distribution conservation: a purchase never distributes more than the
/// distributable amount, and when the pool has shares the rounding dust
/// falls strictly below the number of distinct contributors, which is at
/// most the total share count. Every minted record is unclaimed, carries
/// the pool and timestamp of the purchase, and a positive amount.
pub proof fn lemma_distribution_conservation(
    cs: Seq<DataContribution>,
    distributable: int,
    pool_id: PoolId,
    now: u64,
)
    requires
        0 <= distributable <= i128::MAX,
        forall|i: int| 0 <= i < cs.len() ==> (#[trigger] cs[i]).shares >= 1,
    ensures
        ({
            let recs = distribution(cs, distributable, pool_id, now);
            &&& 0 <= sum_amounts(recs) <= distributable
            &&& sum_shares(cs) > 0 ==> distributable - sum_amounts(recs) < distinct_users(
                cs,
            ).len() <= sum_shares(cs)
            &&& forall|j: int|
                0 <= j < recs.len() ==> {
                    &&& (#[trigger] recs[j]).pool_id == pool_id
                    &&& recs[j].timestamp == now
                    &&& !recs[j].claimed
                    &&& 0 < recs[j].amount <= distributable
                }
        }),
{
    let recs = distribution(cs, distributable, pool_id, now);
    let total = sum_shares(cs);
    lemma_sum_shares_nonneg(cs);
    if total > 0 {
        let du = distinct_users(cs);
        let k = du.len() as int;
        lemma_payout_records_bounds(du, cs, distributable, pool_id, now);
        lemma_group_shares(cs);
        lemma_distinct_users(cs);
        // sum_amounts(recs) <= distributable
        assert(total * sum_amounts(recs) <= distributable * total) by {
            lemma_mul_is_commutative(distributable, total);
        }
        lemma_mul_is_commutative(sum_amounts(recs), total);
        lemma_mul_is_commutative(distributable, total);
        lemma_mul_inequality_converse(sum_amounts(recs), distributable, total);
        // the group total is positive, so there is at least one contributor
        assert(k >= 1);
        // every distinct contributor carries at least one share
        assert forall|j: int| 0 <= j < du.len() implies user_shares(
            cs,
            #[trigger] du[j],
        ) >= 1 by {
            assert(du.contains(du[j]));
            lemma_user_shares_present(cs, du[j]);
        }
        lemma_sum_user_shares_min(cs, du);
        // dust < k: total * (distributable - sum) <= k * (total - 1) < k * total
        assert(total * (distributable - sum_amounts(recs)) <= k * (total - 1)) by {
            vstd::arithmetic::mul::lemma_mul_is_distributive_sub(
                total,
                distributable,
                sum_amounts(recs),
            );
            lemma_mul_is_commutative(total, distributable);
        }
        assert(k * (total - 1) < k * total) by {
            vstd::arithmetic::mul::lemma_mul_is_distributive_sub(k, total, 1);
            lemma_mul_is_commutative(k, total);
        }
        lemma_mul_is_commutative(distributable - sum_amounts(recs), total);
        lemma_mul_is_commutative(k, total);
        lemma_mul_strict_inequality_converse(distributable - sum_amounts(recs), k, total);
    }
}

/// Computes the revenue-share records one purchase mints over the
/// contributions `contribs` of a pool: shares are aggregated per distinct
/// contributor (in order of first contribution), and each contributor with
/// a positive rounded-down cut of `distributable` receives one unclaimed
/// record stamped `now`.
#[verifier::loop_isolation(false)]
pub fn compute_revenue_shares(
    contribs: &Vec<DataContribution>,
    distributable: i128,
    pool_id: PoolId,
    now: u64,
) -> (out: Vec<RevenueShare>)
    requires
        0 <= distributable,
        sum_shares(contribs@) <= u32::MAX,
        distributable * sum_shares(contribs@) <= i128::MAX,
    ensures
        out@ == distribution(contribs@, distributable as int, pool_id, now),
{
    let ghost cs = contribs@;
    // Pass one: the total share count of the pool.
    let mut total: u32 = 0;
    let mut i: usize = 0;
    while i < contribs.len()
        invariant
            0 <= i <= cs.len(),
            total == sum_shares(cs.take(i as int)),
        decreases cs.len() - i,
    {
        proof {
            assert(cs.take(i + 1).drop_last() =~= cs.take(i as int));
            assert(cs.take(i + 1).last() == cs[i as int]);
            lemma_sum_shares_take_le(cs, i + 1);
        }
        total = total + contribs[i].shares;
        i = i + 1;
    }
    proof {
        assert(cs.take(cs.len() as int) =~= cs);
    }
    if total == 0 {
        // No contributors yet: the whole amount becomes dust.
        let out: Vec<RevenueShare> = Vec::new();
        proof {
            assert(out@ =~= distribution(cs, distributable as int, pool_id, now));
        }
        return out;
    }
    // Pass two: aggregate shares per distinct user, in order of first
    // contribution.
    let mut agg_users: Vec<AccountId> = Vec::new();
    let mut agg_shares: Vec<u32> = Vec::new();
    let mut i: usize = 0;
    while i < contribs.len()
        invariant
            0 <= i <= cs.len(),
            agg_users@ == distinct_users(cs.take(i as int)),
            agg_shares@.len() == agg_users@.len(),
            forall|j: int|
                0 <= j < agg_users@.len() ==> (#[trigger] agg_shares@[j]) as int == user_shares(
                    cs.take(i as int),
                    agg_users@[j],
                ),
        decreases cs.len() - i,
    {
        let ghost prefix = cs.take(i as int);
        let ghost prefix1 = cs.take(i + 1);
        let c_user = contribs[i].user;
        let c_shares = contribs[i].shares;
        proof {
            assert(prefix1.drop_last() =~= prefix);
            assert(prefix1.last() == cs[i as int]);
            lemma_distinct_users(prefix);
            lemma_sum_shares_take_le(cs, i + 1);
        }
        // Look the user up among those already seen.
        let mut k: usize = 0;
        while k < agg_users.len() && agg_users[k] != c_user
            invariant
                0 <= k <= agg_users@.len(),
                forall|j: int| 0 <= j < k ==> (#[trigger] agg_users@[j]) != c_user,
            decreases agg_users@.len() - k,
        {
            k = k + 1;
        }
        if k < agg_users.len() {
            // Seen before: its aggregate grows by this contribution.
            proof {
                assert(agg_users@[k as int] == c_user);
                assert(distinct_users(prefix).contains(c_user));
                assert(distinct_users(prefix1) == distinct_users(prefix));
                lemma_user_shares_le(prefix1, c_user);
                assert(user_shares(prefix1, c_user) == user_shares(prefix, c_user)
                    + c_shares as int);
            }
            let s = agg_shares[k];
            agg_shares[k] = s + c_shares;
            proof {
                lemma_distinct_users(prefix1);
                assert forall|j: int| 0 <= j < agg_users@.len() implies (
                #[trigger] agg_shares@[j]) as int == user_shares(prefix1, agg_users@[j]) by {
                    if j != k {
                        assert(agg_users@[j] != c_user) by {
                            assert(distinct_users(prefix).no_duplicates());
                        }
                        assert(user_shares(prefix1, agg_users@[j]) == user_shares(
                            prefix,
                            agg_users@[j],
                        ));
                    }
                }
            }
        } else {
            // First contribution of this user.
            proof {
                assert(!distinct_users(prefix).contains(c_user)) by {
                    if distinct_users(prefix).contains(c_user) {
                        let j = choose|j: int|
                            0 <= j < agg_users@.len() && agg_users@[j] == c_user;
                        assert(agg_users@[j] != c_user);
                    }
                }
                assert(!has_contributor(prefix, c_user));
                lemma_user_shares_absent(prefix, c_user);
                assert(distinct_users(prefix1) == distinct_users(prefix).push(c_user));
            }
            agg_users.push(c_user);
            agg_shares.push(c_shares);
            proof {
                assert forall|j: int| 0 <= j < agg_users@.len() implies (
                #[trigger] agg_shares@[j]) as int == user_shares(prefix1, agg_users@[j]) by {
                    if j < agg_users@.len() - 1 {
                        assert(user_shares(prefix1, agg_users@[j]) == user_shares(
                            prefix,
                            agg_users@[j],
                        ));
                    } else {
                        assert(agg_users@[j] == c_user);
                    }
                }
            }
        }
        i = i + 1;
    }
    proof {
        assert(cs.take(cs.len() as int) =~= cs);
    }
    // Pass three: one record per contributor whose cut is positive.
    let mut out: Vec<RevenueShare> = Vec::new();
    let mut j: usize = 0;
    while j < agg_users.len()
        invariant
            0 <= j <= agg_users@.len(),
            out@ == payout_records(
                agg_users@.take(j as int),
                cs,
                distributable as int,
                pool_id,
                now,
            ),
        decreases agg_users@.len() - j,
    {
        let s = agg_shares[j];
        let u = agg_users[j];
        proof {
            lemma_user_shares_le(cs, u);
            lemma_mul_nonnegative(distributable as int, user_shares(cs, u));
            lemma_mul_inequality(s as int, total as int, distributable as int);
            lemma_mul_is_commutative(s as int, distributable as int);
            lemma_mul_is_commutative(total as int, distributable as int);
            lemma_div_pos_is_pos(distributable as int * s as int, total as int);
            lemma_div_is_ordered(
                distributable as int * s as int,
                distributable as int * total as int,
                total as int,
            );
            lemma_div_by_multiple(distributable as int, total as int);
        }
        // The pro-rata cut, rounded down. Signed division is not available
        // in executable code, so the quotient is taken over `u128`.
        let prod: u128 = (distributable as u128) * (s as u128);
        let q: u128 = prod / (total as u128);
        let amt: i128 = q as i128;
        proof {
            assert(amt as int == payout_of(distributable as int, user_shares(cs, u), sum_shares(
                cs,
            )));
            assert(agg_users@.take(j + 1).drop_last() =~= agg_users@.take(j as int));
            assert(agg_users@.take(j + 1).last() == agg_users@[j as int]);
        }
        if amt > 0 {
            out.push(
                RevenueShare { user: u, pool_id, amount: amt, timestamp: now, claimed: false },
            );
        }
        j = j + 1;
    }
    proof {
        assert(agg_users@.take(agg_users@.len() as int) =~= agg_users@);
    }
    out
}

} // verus!
