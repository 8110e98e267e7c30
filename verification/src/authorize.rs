//! The authorizer session's decisions.
//!
//! A user runs the authorizer to claim the capabilities the access contract
//! has recorded for it and to persist each one in the user's own account
//! namespace, under the capability's canonical textual form as the key
//! name. The host performs the retrieval call and the named-key writes; the
//! checks and the chosen names are decided — and verified — here.

use vstd::prelude::*;

use crate::access::retrieve_urefs;
use crate::cap::{cap_name_of, AccountId, Capability};
use crate::error::Error;
use crate::state::{cap_views, ContractState};

verus! {

/// One named-key entry the authorizer installs in the caller's account:
/// the claimed capability under its canonical textual name.
pub struct NamedKey {
    /// The key name: the capability's canonical textual form.
    pub name: String,
    /// The claimed capability itself.
    pub cap: Capability,
}

/// The authorizer's handling of the sequence the contract returned: an
/// empty claim fails with the empty-claim code, the host's sentinel "zero"
/// capability fails with the zero-capability code, and otherwise every
/// returned capability is scheduled for storage under its canonical
/// textual name, in the returned order.
pub fn claim_capabilities(returned: Vec<Capability>) -> (r: Result<Vec<NamedKey>, Error>)
    requires
        forall|i: int| 0 <= i < returned@.len() ==> (#[trigger] returned@[i])@.wf(),
    ensures
        returned@.len() == 0 ==> r == Err::<Vec<NamedKey>, Error>(Error::EmptyClaim),
        (returned@.len() > 0 && (exists|i: int|
            0 <= i < returned@.len() && (#[trigger] returned@[i])@.is_zero())) ==> r == Err::<
            Vec<NamedKey>,
            Error,
        >(Error::ZeroCapability),
        (returned@.len() > 0 && (forall|i: int|
            0 <= i < returned@.len() ==> !(#[trigger] returned@[i])@.is_zero())) ==> r is Ok,
        r matches Ok(ks) ==> {
            &&& returned@.len() > 0
            &&& ks@.len() == returned@.len()
            &&& forall|i: int|
                0 <= i < ks@.len() ==> (#[trigger] ks@[i]).cap@ == returned@[i]@
            &&& forall|i: int|
                0 <= i < ks@.len() ==> (#[trigger] ks@[i]).name@ == cap_name_of(
                    returned@[i]@.addr,
                    returned@[i]@.rights,
                )
        },
{
    if returned.len() == 0 {
        return Err(Error::EmptyClaim);
    }
    let mut out: Vec<NamedKey> = Vec::new();
    let mut i: usize = 0;
    while i < returned.len()
        invariant
            i <= returned@.len(),
            returned@.len() > 0,
            forall|k: int| 0 <= k < returned@.len() ==> (#[trigger] returned@[k])@.wf(),
            out@.len() == i,
            forall|k: int| 0 <= k < i ==> !(#[trigger] returned@[k])@.is_zero(),
            forall|k: int| 0 <= k < i ==> (#[trigger] out@[k]).cap@ == returned@[k]@,
            forall|k: int|
                0 <= k < i ==> (#[trigger] out@[k]).name@ == cap_name_of(
                    returned@[k]@.addr,
                    returned@[k]@.rights,
                ),
        decreases returned@.len() - i,
    {
        if returned[i].is_zero() {
            proof {
                assert(returned@[i as int]@.is_zero());
            }
            return Err(Error::ZeroCapability);
        }
        let name = returned[i].render_name();
        let cap = returned[i].duplicate();
        out.push(NamedKey { name, cap });
        i += 1;
    }
    Ok(out)
}

/// The whole authorizer session over a given contract state: retrieve the
/// caller's recorded capabilities, then claim them. A caller with no
/// recorded capabilities fails with the no-capabilities code — the
/// authorizer's own empty-claim check is never reached, because the
/// contract refuses such a caller first.
pub fn run_authorizer(state: &ContractState, caller: &AccountId) -> (r: Result<
    Vec<NamedKey>,
    Error,
>)
    requires
        state.wf(),
    ensures
        state.caps_of(caller@).len() == 0 ==> r == Err::<Vec<NamedKey>, Error>(
            Error::NoCapabilities,
        ),
        (state.caps_of(caller@).len() > 0 && (exists|i: int|
            0 <= i < state.caps_of(caller@).len() && (#[trigger] state.caps_of(
                caller@,
            )[i]).is_zero())) ==> r == Err::<Vec<NamedKey>, Error>(Error::ZeroCapability),
        (state.caps_of(caller@).len() > 0 && (forall|i: int|
            0 <= i < state.caps_of(caller@).len() ==> !(#[trigger] state.caps_of(
                caller@,
            )[i]).is_zero())) ==> r is Ok,
        r matches Ok(ks) ==> {
            &&& state.caps_of(caller@).len() > 0
            &&& ks@.len() == state.caps_of(caller@).len()
            &&& forall|i: int|
                0 <= i < ks@.len() ==> (#[trigger] ks@[i]).cap@ == state.caps_of(caller@)[i]
            &&& forall|i: int|
                0 <= i < ks@.len() ==> (#[trigger] ks@[i]).name@ == cap_name_of(
                    state.caps_of(caller@)[i].addr,
                    state.caps_of(caller@)[i].rights,
                )
        },
{
    match retrieve_urefs(state, caller) {
        Err(e) => Err(e),
        Ok(v) => {
            let ghost caps = state.caps_of(caller@);
            proof {
                assert(cap_views(v@).len() == v@.len());
                assert forall|i: int| 0 <= i < v@.len() implies (#[trigger] v@[i])@ == caps[i] by {
                    assert(cap_views(v@)[i] == v@[i]@);
                }
            }
            claim_capabilities(v)
        },
    }
}

} // verus!
