//! The access contract's entry points.
//!
//! `append_urefs` pairs the i-th capability with the (N-1-i)-th account:
//! capabilities are consumed in forward order while accounts are consumed
//! from the tail. The reverse pairing is a visible behavioural contract of
//! the deployed protocol and is preserved bit for bit.

use vstd::prelude::*;

use crate::cap::{AccountId, CapModel, Capability};
use crate::error::Error;
use crate::state::{acct_views, cap_views, ContractState};

verus! {

/// The capabilities that one `append_urefs` call adds to the record of
/// account `a`: capability `i` goes to the account at position `N-1-i`,
/// so the contribution to `a` collects, in consumption order, each
/// capability whose reverse-paired account is `a`.
pub open spec fn appended_to(urefs: Seq<CapModel>, users: Seq<Seq<u8>>, a: Seq<u8>) -> Seq<
    CapModel,
>
    decreases urefs.len(),
{
    if urefs.len() == 0 {
        Seq::empty()
    } else {
        let head: Seq<CapModel> = if users.last() == a {
            seq![urefs[0]]
        } else {
            Seq::empty()
        };
        head + appended_to(urefs.drop_first(), users.drop_last(), a)
    }
}

/// Whether a sequence of account keys is pairwise distinct.
pub open spec fn distinct_accounts(users: Seq<Seq<u8>>) -> bool {
    forall|i: int, j: int| 0 <= i < j < users.len() ==> users[i] != users[j]
}

/// An account that is not in the list receives nothing from a call.
pub proof fn lemma_appended_to_absent(urefs: Seq<CapModel>, users: Seq<Seq<u8>>, a: Seq<u8>)
    requires
        urefs.len() == users.len(),
        !users.contains(a),
    ensures
        appended_to(urefs, users, a) == Seq::<CapModel>::empty(),
    decreases urefs.len(),
{
    if urefs.len() > 0 {
        assert(users.last() != a) by {
            if users.last() == a {
                assert(users[users.len() - 1] == a);
            }
        }
        assert(!users.drop_last().contains(a)) by {
            if users.drop_last().contains(a) {
                let k = choose|k: int|
                    0 <= k < users.drop_last().len() && users.drop_last()[k] == a;
                assert(users[k] == a);
            }
        }
        lemma_appended_to_absent(urefs.drop_first(), users.drop_last(), a);
        assert(appended_to(urefs, users, a) =~= Seq::<CapModel>::empty());
    }
}

/// The reverse pairing law: when the listed accounts are pairwise distinct,
/// the account at position `i` receives exactly the capability at position
/// `N-1-i`, and nothing else.
pub proof fn lemma_reverse_pairing(urefs: Seq<CapModel>, users: Seq<Seq<u8>>, i: int)
    requires
        urefs.len() == users.len(),
        distinct_accounts(users),
        0 <= i < users.len(),
    ensures
        appended_to(urefs, users, users[i]) == seq![urefs[users.len() - 1 - i]],
    decreases urefs.len(),
{
    let n = users.len() as int;
    if i == n - 1 {
        assert(users.last() == users[i]);
        assert(!users.drop_last().contains(users[i])) by {
            if users.drop_last().contains(users[i]) {
                let k = choose|k: int|
                    0 <= k < users.drop_last().len() && users.drop_last()[k] == users[i];
                assert(users[k] == users[n - 1]);
            }
        }
        lemma_appended_to_absent(urefs.drop_first(), users.drop_last(), users[i]);
        assert(appended_to(urefs, users, users[i]) =~= seq![urefs[0]]);
    } else {
        assert(users.last() != users[i]);
        assert(distinct_accounts(users.drop_last())) by {
            assert forall|k: int, m: int| 0 <= k < m < users.drop_last().len() implies users.drop_last()[k]
                != users.drop_last()[m] by {
                assert(users[k] != users[m]);
            }
        }
        assert(users.drop_last()[i] == users[i]);
        lemma_reverse_pairing(urefs.drop_first(), users.drop_last(), i);
        assert(urefs.drop_first()[n - 2 - i] == urefs[n - 1 - i]);
        assert(appended_to(urefs, users, users[i]) =~= seq![urefs[n - 1 - i]]);
    }
}

/// The group-gated append entry point: requires one capability per listed
/// account (else it fails with the length-mismatch code and changes
/// nothing), then records each capability under its reverse-paired
/// account's key, extending existing records in insertion order.
pub fn append_urefs(
    state: &mut ContractState,
    urefs: Vec<Capability>,
    account_pubkeys: Vec<AccountId>,
) -> (r: Result<(), Error>)
    requires
        old(state).wf(),
        forall|i: int| 0 <= i < urefs@.len() ==> (#[trigger] urefs@[i])@.wf(),
        forall|i: int| 0 <= i < account_pubkeys@.len() ==> (#[trigger] account_pubkeys@[i]).wf(),
    ensures
        urefs@.len() != account_pubkeys@.len() ==> r == Err::<(), Error>(Error::LengthMismatch)
            && *final(state) == *old(state),
        urefs@.len() == account_pubkeys@.len() ==> r == Ok::<(), Error>(()),
        urefs@.len() == account_pubkeys@.len() ==> final(state).wf(),
        urefs@.len() == account_pubkeys@.len() ==> forall|a: Seq<u8>|
            #[trigger] final(state).caps_of(a) == old(state).caps_of(a) + appended_to(
                cap_views(urefs@),
                acct_views(account_pubkeys@),
                a,
            ),
        urefs@.len() == account_pubkeys@.len() ==> forall|a: Seq<u8>|
            #[trigger] final(state).contains_account(a) <==> (old(state).contains_account(a)
                || acct_views(account_pubkeys@).contains(a)),
        urefs@.len() == account_pubkeys@.len() && distinct_accounts(acct_views(account_pubkeys@))
            && (forall|i: int|
            0 <= i < account_pubkeys@.len() ==> !old(state).contains_account(
                #[trigger] acct_views(account_pubkeys@)[i],
            )) ==> final(state).num_accounts() == old(state).num_accounts()
            + account_pubkeys@.len(),
{
    if urefs.len() != account_pubkeys.len() {
        return Err(Error::LengthMismatch);
    }
    let ghost all_u: Seq<CapModel> = cap_views(urefs@);
    let ghost all_a: Seq<Seq<u8>> = acct_views(account_pubkeys@);
    let ghost precond: bool = distinct_accounts(all_a) && (forall|k: int|
        0 <= k < all_a.len() ==> !old(state).contains_account(#[trigger] all_a[k]));
    let n = urefs.len();
    let mut users = account_pubkeys;
    let mut i: usize = 0;
    proof {
        assert(urefs@.skip(0) =~= urefs@);
        assert(acct_views(users@) =~= all_a.take(n as int));
    }
    while i < n
        invariant
            n == urefs@.len(),
            all_u == cap_views(urefs@),
            all_a.len() == n,
            i <= n,
            users@.len() == n - i,
            acct_views(users@) == all_a.take(n - i),
            forall|k: int| 0 <= k < urefs@.len() ==> (#[trigger] urefs@[k])@.wf(),
            forall|k: int| 0 <= k < users@.len() ==> (#[trigger] users@[k]).wf(),
            precond == (distinct_accounts(all_a) && (forall|k: int|
                0 <= k < all_a.len() ==> !old(state).contains_account(#[trigger] all_a[k]))),
            state.wf(),
            forall|a: Seq<u8>|
                #[trigger] state.caps_of(a) + appended_to(
                    cap_views(urefs@.skip(i as int)),
                    acct_views(users@),
                    a,
                ) == old(state).caps_of(a) + appended_to(all_u, all_a, a),
            forall|a: Seq<u8>|
                (#[trigger] state.contains_account(a) || acct_views(users@).contains(a)) <==> (old(
                    state,
                ).contains_account(a) || all_a.contains(a)),
            precond ==> state.num_accounts() == old(state).num_accounts() + i,
            precond ==> forall|a: Seq<u8>|
                #[trigger] state.contains_account(a) <==> (old(state).contains_account(a)
                    || all_a.skip(n - i).contains(a)),
        decreases n - i,
    {
        let ghost pre: ContractState = *state;
        let ghost rem_u: Seq<CapModel> = cap_views(urefs@.skip(i as int));
        let ghost rem_a: Seq<Seq<u8>> = acct_views(users@);
        let cap = urefs[i].duplicate();
        let user = users.pop().unwrap();
        proof {
            assert(user@ == rem_a.last());
            assert(rem_a.last() == all_a[n - i - 1]);
            assert(acct_views(users@) =~= rem_a.drop_last());
            assert(rem_a.drop_last() =~= all_a.take(n - i - 1));
            assert(rem_u[0] == cap@);
            assert(cap_views(urefs@.skip(i + 1)) =~= rem_u.drop_first());
        }
        state.append_one(&user, cap);
        proof {
            // The step consumed exactly the head of the remaining work.
            assert forall|a: Seq<u8>|
                #[trigger] state.caps_of(a) + appended_to(
                    cap_views(urefs@.skip(i + 1)),
                    acct_views(users@),
                    a,
                ) == old(state).caps_of(a) + appended_to(all_u, all_a, a) by {
                let tail = appended_to(rem_u.drop_first(), rem_a.drop_last(), a);
                assert(appended_to(rem_u, rem_a, a) == (if rem_a.last() == a {
                    seq![rem_u[0]]
                } else {
                    Seq::<CapModel>::empty()
                }) + tail);
                if a == user@ {
                    assert(state.caps_of(a) == pre.caps_of(a).push(cap@));
                    assert(pre.caps_of(a).push(cap@) + tail =~= pre.caps_of(a) + (seq![cap@]
                        + tail));
                } else {
                    assert(state.caps_of(a) == pre.caps_of(a));
                    assert(Seq::<CapModel>::empty() + tail =~= tail);
                }
            }
            // Membership bookkeeping.
            assert forall|a: Seq<u8>| #[trigger] rem_a.contains(a) <==> (rem_a.drop_last().contains(
                a,
            ) || a == user@) by {
                if rem_a.contains(a) {
                    let k = choose|k: int| 0 <= k < rem_a.len() && rem_a[k] == a;
                    if k < rem_a.len() - 1 {
                        assert(rem_a.drop_last()[k] == a);
                    }
                }
                if rem_a.drop_last().contains(a) {
                    let k = choose|k: int|
                        0 <= k < rem_a.drop_last().len() && rem_a.drop_last()[k] == a;
                    assert(rem_a[k] == a);
                }
                if a == user@ {
                    assert(rem_a[rem_a.len() - 1] == a);
                }
            }
            if precond {
                // The processed suffix grew by exactly this account.
                assert forall|a: Seq<u8>| #[trigger] all_a.skip(n - i - 1).contains(a) <==> (
                all_a.skip(n - i).contains(a) || a == user@) by {
                    if all_a.skip(n - i - 1).contains(a) {
                        let k = choose|k: int|
                            0 <= k < all_a.skip(n - i - 1).len() && #[trigger] all_a.skip(
                                n - i - 1,
                            )[k] == a;
                        if k > 0 {
                            assert(all_a.skip(n - i)[k - 1] == a);
                        } else {
                            assert(all_a[n - i - 1] == a);
                        }
                    }
                    if all_a.skip(n - i).contains(a) {
                        let k = choose|k: int|
                            0 <= k < all_a.skip(n - i).len() && #[trigger] all_a.skip(n - i)[k]
                                == a;
                        assert(all_a.skip(n - i - 1)[k + 1] == a);
                    }
                    if a == user@ {
                        assert(all_a.skip(n - i - 1)[0] == a);
                    }
                }
                // The account was fresh, so the record count grew by one.
                assert(user@ == all_a[n - i - 1]);
                assert(!old(state).contains_account(all_a[n - i - 1]));
                assert(!all_a.skip(n - i).contains(user@)) by {
                    if all_a.skip(n - i).contains(user@) {
                        let k = choose|k: int|
                            0 <= k < all_a.skip(n - i).len() && #[trigger] all_a.skip(n - i)[k]
                                == user@;
                        assert(all_a[n - i + k] == all_a[n - i - 1]);
                        assert(n - i - 1 < n - i + k < n);
                        assert(all_a[n - i - 1] != all_a[n - i + k]);
                    }
                }
                assert(!pre.contains_account(user@));
            }
        }
        i += 1;
    }
    proof {
        assert forall|a: Seq<u8>| #[trigger] state.caps_of(a) == old(state).caps_of(a)
            + appended_to(all_u, all_a, a) by {
            assert(appended_to(cap_views(urefs@.skip(n as int)), acct_views(users@), a)
                == Seq::<CapModel>::empty());
            assert(state.caps_of(a) + Seq::<CapModel>::empty() =~= state.caps_of(a));
        }
        assert forall|a: Seq<u8>| #[trigger] state.contains_account(a) <==> (old(
            state,
        ).contains_account(a) || all_a.contains(a)) by {
            assert(!acct_views(users@).contains(a)) by {
                if acct_views(users@).contains(a) {
                    let k = choose|k: int|
                        0 <= k < acct_views(users@).len() && acct_views(users@)[k] == a;
                }
            }
        }
    }
    Ok(())
}

/// The public retrieval entry point: returns the caller's recorded
/// capabilities in insertion order, or fails with the no-capabilities code
/// when the caller's record is absent or empty.
pub fn retrieve_urefs(state: &ContractState, caller: &AccountId) -> (r: Result<
    Vec<Capability>,
    Error,
>)
    requires
        state.wf(),
    ensures
        match r {
            Ok(v) => state.caps_of(caller@).len() > 0 && cap_views(v@) == state.caps_of(caller@)
                && (forall|j: int| 0 <= j < v@.len() ==> (#[trigger] v@[j])@.wf()),
            Err(e) => e == Error::NoCapabilities && state.caps_of(caller@).len() == 0,
        },
{
    let v = state.caps_for(caller);
    proof {
        assert(cap_views(v@).len() == v@.len());
    }
    if v.len() == 0 {
        Err(Error::NoCapabilities)
    } else {
        Ok(v)
    }
}

/// The group-gated probe entry point: always fails with the distinguished
/// sentinel code, so a probe transaction can tell "I hold a group
/// capability" (this code comes back) from "I do not" (the host denies
/// access before the body runs).
pub fn group_access_only() -> (r: Result<(), Error>)
    ensures
        r == Err::<(), Error>(Error::GroupAccessSentinel),
{
    Err(Error::GroupAccessSentinel)
}

} // verus!
