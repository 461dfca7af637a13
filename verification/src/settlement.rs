//! Claim settlement: the claimed/unclaimed bookkeeping of revenue shares.
//! A claim pays a user every unclaimed share at once and flips each paid
//! record's one-way `claimed` flag.

use vstd::prelude::*;
use crate::types::{AccountId, RevenueShare};

verus! {

/// `share` after a claim by `user`: the claim flips the flag of the
/// user's own records and leaves every other record alone.
pub open spec fn settle_record(share: RevenueShare, user: AccountId) -> RevenueShare {
    if share.user == user {
        RevenueShare { claimed: true, ..share }
    } else {
        share
    }
}

/// The whole share table after a claim by `user`.
pub open spec fn settle_all(ss: Seq<RevenueShare>, user: AccountId) -> Seq<RevenueShare> {
    Seq::new(ss.len(), |i: int| settle_record(ss[i], user))
}

/// What a claim by `user` pays out: the sum of the user's unclaimed
/// amounts.
pub open spec fn unclaimed_total(ss: Seq<RevenueShare>, user: AccountId) -> int
    decreases ss.len(),
{
    if ss.len() == 0 {
        0
    } else {
        unclaimed_total(ss.drop_last(), user) + if ss.last().user == user && !ss.last().claimed {
            ss.last().amount as int
        } else {
            0
        }
    }
}

/// The unclaimed balance is never negative when every recorded amount is
/// positive, and a prefix of the table never holds more of it than the
/// whole table.
pub proof fn lemma_unclaimed_total_take(ss: Seq<RevenueShare>, user: AccountId, i: int)
    requires
        0 <= i <= ss.len(),
        forall|j: int| 0 <= j < ss.len() ==> (#[trigger] ss[j]).amount > 0,
    ensures
        0 <= unclaimed_total(ss.take(i), user) <= unclaimed_total(ss, user),
    decreases ss.len() - i,
{
    lemma_unclaimed_total_nonneg(ss.take(i), user, ss);
    if i == ss.len() {
        assert(ss.take(i) =~= ss);
    } else {
        assert(ss.take(i + 1).drop_last() =~= ss.take(i));
        assert(ss.take(i + 1).last() == ss[i]);
        lemma_unclaimed_total_take(ss, user, i + 1);
    }
}

/// Helper: the unclaimed balance of a prefix is non-negative when the
/// full table's amounts are positive.
proof fn lemma_unclaimed_total_nonneg(
    prefix: Seq<RevenueShare>,
    user: AccountId,
    ss: Seq<RevenueShare>,
)
    requires
        prefix.len() <= ss.len(),
        forall|j: int| 0 <= j < prefix.len() ==> prefix[j] == ss[j],
        forall|j: int| 0 <= j < ss.len() ==> (#[trigger] ss[j]).amount > 0,
    ensures
        0 <= unclaimed_total(prefix, user),
    decreases prefix.len(),
{
    if prefix.len() > 0 {
        assert(forall|j: int|
            0 <= j < prefix.len() - 1 ==> prefix.drop_last()[j] == prefix[j]);
        lemma_unclaimed_total_nonneg(prefix.drop_last(), user, ss);
        assert(prefix.last() == ss[prefix.len() - 1]);
    }
}

/// Claim idempotence: once a claim by `user` has settled the table, the
/// user's unclaimed balance is zero, so an immediate second claim with no
/// new shares accrued in between has nothing to pay.
pub proof fn lemma_claim_idempotent(ss: Seq<RevenueShare>, user: AccountId)
    ensures
        unclaimed_total(settle_all(ss, user), user) == 0,
    decreases ss.len(),
{
    let settled = settle_all(ss, user);
    if ss.len() > 0 {
        lemma_claim_idempotent(ss.drop_last(), user);
        assert(settled.drop_last() =~= settle_all(ss.drop_last(), user));
        assert(settled.last() == settle_record(ss.last(), user));
    } else {
        assert(settled.len() == 0);
    }
}

/// Settling for one user does not touch any other user's records or
/// balance.
pub proof fn lemma_settle_other_users(ss: Seq<RevenueShare>, user: AccountId, other: AccountId)
    requires
        other != user,
    ensures
        unclaimed_total(settle_all(ss, user), other) == unclaimed_total(ss, other),
    decreases ss.len(),
{
    let settled = settle_all(ss, user);
    if ss.len() > 0 {
        lemma_settle_other_users(ss.drop_last(), user, other);
        assert(settled.drop_last() =~= settle_all(ss.drop_last(), user));
        assert(settled.last() == settle_record(ss.last(), user));
    }
}

} // verus!
