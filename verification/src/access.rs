//! Access grants: time-bounded credentials issued per purchase. A grant is
//! valid exactly while `now < expires_at`; expired grants stay in storage
//! and are only excluded from listings.

use vstd::prelude::*;
use crate::types::{AccountId, DataAccess};

verus! {

/// The grants a listing for `user` shows at time `now`: the user's own
/// grants that have not expired, in the order they were issued.
pub open spec fn active_accesses(
    accesses: Seq<DataAccess>,
    user: AccountId,
    now: u64,
) -> Seq<DataAccess> {
    accesses.filter(|a: DataAccess| a.buyer == user && a.expires_at > now)
}

/// How a listing changes when one grant is appended to the store: it shows
/// up at the end exactly when it belongs to `user` and has not expired.
pub proof fn lemma_active_accesses_push(
    accesses: Seq<DataAccess>,
    a: DataAccess,
    user: AccountId,
    now: u64,
)
    ensures
        active_accesses(accesses.push(a), user, now) == if a.buyer == user && a.expires_at > now {
            active_accesses(accesses, user, now).push(a)
        } else {
            active_accesses(accesses, user, now)
        },
{
    reveal(Seq::filter);
    assert(accesses.push(a).drop_last() =~= accesses);
}

/// Expiry filtering: a listing of active accesses never includes a grant
/// with `expires_at <= now`, nor a grant belonging to someone else.
pub proof fn lemma_expiry_filtering(accesses: Seq<DataAccess>, user: AccountId, now: u64)
    ensures
        forall|j: int|
            0 <= j < active_accesses(accesses, user, now).len() ==> {
                &&& (#[trigger] active_accesses(accesses, user, now)[j]).expires_at > now
                &&& active_accesses(accesses, user, now)[j].buyer == user
            },
{
    let active = active_accesses(accesses, user, now);
    assert forall|j: int| 0 <= j < active.len() implies (#[trigger] active[j]).expires_at > now
        && active[j].buyer == user by {
        accesses.lemma_filter_pred(|a: DataAccess| a.buyer == user && a.expires_at > now, j);
    }
}

} // verus!
