//! The installer session's decisions.
//!
//! The host mints the admin group's capabilities (one per intended user plus
//! one the installer retains) and assigns the contract and package handles;
//! those acts happen at the host boundary. Everything the installer decides
//! about them — how many capabilities to mint, which one to retain, how to
//! seed the per-user index by the self-call, and under which names to
//! publish the handles — is here.

use vstd::prelude::*;
use vstd::string::StringExecFns;

use crate::access::{append_urefs, appended_to, distinct_accounts, lemma_reverse_pairing};
use crate::cap::{AccountId, Capability};
use crate::error::Error;
use crate::state::{acct_views, cap_views, ContractState};

verus! {

/// The number of admin-group capabilities minted for `user_count` users:
/// one per user, plus the one the installer retains. The host takes the
/// group cardinality as a single byte.
pub fn admin_group_size(user_count: usize) -> (n: u8)
    requires
        user_count <= 254,
    ensures
        n == user_count + 1,
{
    (user_count + 1) as u8
}

/// The label of the admin group created under the contract package.
pub fn group_label() -> (s: String)
    ensures
        s@ == "group_label"@,
{
    String::from_str("group_label")
}

/// The installer's named key holding the retained group capability.
pub fn group_uref_key() -> (s: String)
    ensures
        s@ == "group_uref"@,
{
    String::from_str("group_uref")
}

/// The installer's named key holding the access contract's handle.
pub fn contract_key() -> (s: String)
    ensures
        s@ == "account_access_contract"@,
{
    String::from_str("account_access_contract")
}

/// The installer's named key holding the contract package's handle.
pub fn package_key() -> (s: String)
    ensures
        s@ == "account_access_contract_package"@,
{
    String::from_str("account_access_contract_package")
}

/// One entry-point declaration of the access contract: its name, and
/// whether the admin group gates it.
pub struct EntryPointDecl {
    /// The entry point's name.
    pub name: String,
    /// Whether callers must hold an admin-group capability.
    pub group_gated: bool,
}

/// The entry points the installer declares, in declaration order: the
/// group-gated append, the public retrieval, and the group-gated probe.
pub fn entry_point_table() -> (t: Vec<EntryPointDecl>)
    ensures
        t@.len() == 3,
        t@[0].name@ == "append_urefs"@ && t@[0].group_gated,
        t@[1].name@ == "retrieve_urefs"@ && !t@[1].group_gated,
        t@[2].name@ == "group_access_only"@ && t@[2].group_gated,
{
    let mut t: Vec<EntryPointDecl> = Vec::new();
    t.push(EntryPointDecl { name: String::from_str("append_urefs"), group_gated: true });
    t.push(EntryPointDecl { name: String::from_str("retrieve_urefs"), group_gated: false });
    t.push(EntryPointDecl { name: String::from_str("group_access_only"), group_gated: true });
    t
}

/// What the installer leaves behind: the seeded contract state, and the one
/// admin-group capability it retains under its `group_uref` named key.
pub struct InstallOutcome {
    /// The access contract's per-user index after the seeding self-call.
    pub state: ContractState,
    /// The minted capability the installer keeps for itself.
    pub retained: Capability,
}

/// Splits the freshly minted admin group into the capability the installer
/// retains — the first one returned — and the ones it distributes, in
/// minting order.
pub fn split_minted(minted: Vec<Capability>) -> (r: (Capability, Vec<Capability>))
    requires
        minted@.len() >= 1,
    ensures
        r.0 == minted@[0],
        r.1@ == minted@.drop_first(),
{
    let mut group = minted;
    let retained = group.remove(0);
    proof {
        assert(group@ =~= minted@.drop_first());
    }
    (retained, group)
}

/// Seeds the access contract from a freshly minted admin group: retains the
/// first minted capability and records the rest, one per listed account, by
/// the reverse-paired `append_urefs` self-call. Fails with the
/// length-mismatch code — leaving no state behind — unless exactly one
/// capability per user remains after the retained one.
pub fn install(account_pubkeys: Vec<AccountId>, minted: Vec<Capability>) -> (r: Result<
    InstallOutcome,
    Error,
>)
    requires
        minted@.len() >= 1,
        forall|i: int| 0 <= i < account_pubkeys@.len() ==> (#[trigger] account_pubkeys@[i]).wf(),
        forall|i: int| 0 <= i < minted@.len() ==> (#[trigger] minted@[i])@.wf(),
    ensures
        r is Ok <==> minted@.len() == account_pubkeys@.len() + 1,
        r matches Err(e) ==> e == Error::LengthMismatch,
        r matches Ok(out) ==> out.retained@ == minted@[0]@,
        r matches Ok(out) ==> out.state.wf(),
        r matches Ok(out) ==> forall|a: Seq<u8>|
            #[trigger] out.state.caps_of(a) == appended_to(
                cap_views(minted@.drop_first()),
                acct_views(account_pubkeys@),
                a,
            ),
        r matches Ok(out) ==> forall|a: Seq<u8>|
            #[trigger] out.state.contains_account(a) <==> acct_views(account_pubkeys@).contains(a),
        (r is Ok && distinct_accounts(acct_views(account_pubkeys@))) ==> r->Ok_0.state.num_accounts()
            == account_pubkeys@.len(),
        (r is Ok && distinct_accounts(acct_views(account_pubkeys@))) ==> forall|i: int|
            0 <= i < account_pubkeys@.len() ==> #[trigger] r->Ok_0.state.caps_of(
                acct_views(account_pubkeys@)[i],
            ) == seq![cap_views(minted@)[minted@.len() - 1 - i]],
{
    let ghost users_v: Seq<Seq<u8>> = acct_views(account_pubkeys@);
    let (retained, group) = split_minted(minted);
    proof {
        assert(cap_views(group@) =~= cap_views(minted@.drop_first()));
        assert forall|i: int| 0 <= i < group@.len() implies (#[trigger] group@[i])@.wf() by {
            assert(group@[i] == minted@[i + 1]);
        }
    }
    let mut state = ContractState::new();
    let ghost empty_state: ContractState = state;
    match append_urefs(&mut state, group, account_pubkeys) {
        Ok(_) => {
            proof {
                assert forall|a: Seq<u8>| #[trigger] state.caps_of(a) == appended_to(
                    cap_views(minted@.drop_first()),
                    users_v,
                    a,
                ) by {
                    assert(empty_state.caps_of(a) == Seq::<crate::cap::CapModel>::empty());
                    assert(Seq::<crate::cap::CapModel>::empty() + appended_to(
                        cap_views(minted@.drop_first()),
                        users_v,
                        a,
                    ) =~= appended_to(cap_views(minted@.drop_first()), users_v, a));
                }
                if distinct_accounts(users_v) {
                    assert forall|k: int|
                        0 <= k < users_v.len() implies !empty_state.contains_account(
                        #[trigger] users_v[k],
                    ) by {}
                    assert(state.num_accounts() == account_pubkeys@.len());
                    // Each account holds exactly its reverse-paired capability.
                    assert forall|i: int| 0 <= i < users_v.len() implies #[trigger] state.caps_of(
                        users_v[i],
                    ) == seq![cap_views(minted@)[minted@.len() - 1 - i]] by {
                        lemma_reverse_pairing(
                            cap_views(minted@.drop_first()),
                            users_v,
                            i,
                        );
                        assert(cap_views(minted@.drop_first())[users_v.len() - 1 - i] == cap_views(
                            minted@,
                        )[minted@.len() - 1 - i]);
                    }
                }
            }
            Ok(InstallOutcome { state, retained })
        },
        Err(e) => Err(e),
    }
}

} // verus!
