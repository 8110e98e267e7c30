//! End-to-end scenarios for the capability-distribution protocol: install,
//! append, retrieve, claim, and the distinguished error codes.

use account_access::{
    admin_group_size, append_urefs, claim_capabilities, contract_key, entry_point_table,
    group_access_only, group_label, group_uref_key, install, package_key, retrieve_urefs,
    run_authorizer, split_minted, AccountId, Capability, ContractState, Error,
};

fn acct(tag: u8) -> AccountId {
    let mut bytes = vec![0u8; 32];
    bytes[31] = tag;
    AccountId::new(bytes)
}

fn cap(tag: u8, rights: u8) -> Capability {
    let mut bytes = vec![0u8; 32];
    bytes[0] = tag;
    Capability::new(bytes, rights)
}

fn cap_eq(a: &Capability, b: &Capability) -> bool {
    a.addr == b.addr && a.rights == b.rights
}

#[test]
fn error_codes() {
    assert_eq!(Error::NoCapabilities.code(), 1);
    assert_eq!(Error::EmptyClaim.code(), 2);
    assert_eq!(Error::LengthMismatch.code(), 3);
    assert_eq!(Error::ZeroCapability.code(), 4);
    assert_eq!(Error::GroupAccessSentinel.code(), 777);
}

#[test]
fn group_access_only_sentinel() {
    let r = group_access_only();
    match r {
        Err(e) => assert_eq!(e.code(), 777),
        Ok(()) => panic!("the probe must always fail"),
    }
}

#[test]
fn admin_group_size_is_users_plus_one() {
    assert_eq!(admin_group_size(1), 2);
    assert_eq!(admin_group_size(2), 3);
    assert_eq!(admin_group_size(254), 255);
}

#[test]
fn installer_key_names() {
    assert_eq!(group_label(), "group_label");
    assert_eq!(group_uref_key(), "group_uref");
    assert_eq!(contract_key(), "account_access_contract");
    assert_eq!(package_key(), "account_access_contract_package");
}

#[test]
fn install_single_user() {
    // One user: the admin group holds two capabilities; the first minted
    // one is retained and the other is recorded for the user.
    let u1 = acct(1);
    let c0 = cap(10, 7);
    let c1 = cap(11, 7);
    let out = install(vec![acct(1)], vec![cap(10, 7), cap(11, 7)]).unwrap();
    assert!(cap_eq(&out.retained, &c0));
    let got = retrieve_urefs(&out.state, &u1).unwrap();
    assert_eq!(got.len(), 1);
    assert!(cap_eq(&got[0], &c1));
}

#[test]
fn split_minted_retains_first() {
    let (retained, distribute) = split_minted(vec![cap(10, 7), cap(11, 7), cap(12, 7)]);
    assert!(cap_eq(&retained, &cap(10, 7)));
    assert_eq!(distribute.len(), 2);
    assert!(cap_eq(&distribute[0], &cap(11, 7)));
    assert!(cap_eq(&distribute[1], &cap(12, 7)));
}

#[test]
fn install_two_users_reverse_pairing() {
    // The first minted capability is retained; the remaining [c1, c2] are
    // consumed in forward order while accounts are consumed from the tail,
    // so u2 receives c1 and u1 receives c2.
    let u1 = acct(1);
    let u2 = acct(2);
    let c0 = cap(10, 7);
    let c1 = cap(11, 7);
    let c2 = cap(12, 7);
    let out = install(
        vec![acct(1), acct(2)],
        vec![cap(10, 7), cap(11, 7), cap(12, 7)],
    )
    .unwrap();
    assert!(cap_eq(&out.retained, &c0));
    let got1 = retrieve_urefs(&out.state, &u1).unwrap();
    assert_eq!(got1.len(), 1);
    assert!(cap_eq(&got1[0], &c2));
    let got2 = retrieve_urefs(&out.state, &u2).unwrap();
    assert_eq!(got2.len(), 1);
    assert!(cap_eq(&got2[0], &c1));
}

#[test]
fn install_length_mismatch() {
    // Two users but only one distributable capability after the retained
    // one: the seeding self-call fails with the length-mismatch code.
    let r = install(vec![acct(1), acct(2)], vec![cap(10, 7), cap(11, 7)]);
    match r {
        Err(e) => assert_eq!(e.code(), 3),
        Ok(_) => panic!("the seeding call must fail"),
    }
}

#[test]
fn append_length_mismatch_changes_nothing() {
    // One capability against two accounts fails with code 3 and leaves
    // every record as it was.
    let u1 = acct(1);
    let u2 = acct(2);
    let out = install(
        vec![acct(1), acct(2)],
        vec![cap(10, 7), cap(11, 7), cap(12, 7)],
    )
    .unwrap();
    let mut state = out.state;
    let r = append_urefs(&mut state, vec![cap(20, 7)], vec![acct(1), acct(2)]);
    match r {
        Err(e) => assert_eq!(e.code(), 3),
        Ok(()) => panic!("mismatched lengths must fail"),
    }
    let got1 = retrieve_urefs(&state, &u1).unwrap();
    assert_eq!(got1.len(), 1);
    assert!(cap_eq(&got1[0], &cap(12, 7)));
    let got2 = retrieve_urefs(&state, &u2).unwrap();
    assert_eq!(got2.len(), 1);
    assert!(cap_eq(&got2[0], &cap(11, 7)));
}

#[test]
fn append_grows_in_insertion_order() {
    // Repeated appends for the same account extend its record in insertion
    // order; there is no deduplication.
    let u1 = acct(1);
    let mut state = ContractState::new();
    append_urefs(&mut state, vec![cap(10, 7)], vec![acct(1)]).unwrap();
    append_urefs(&mut state, vec![cap(11, 7)], vec![acct(1)]).unwrap();
    append_urefs(&mut state, vec![cap(10, 7)], vec![acct(1)]).unwrap();
    let got = retrieve_urefs(&state, &u1).unwrap();
    assert_eq!(got.len(), 3);
    assert!(cap_eq(&got[0], &cap(10, 7)));
    assert!(cap_eq(&got[1], &cap(11, 7)));
    assert!(cap_eq(&got[2], &cap(10, 7)));
}

#[test]
fn retrieve_unseeded_fails_with_code_1() {
    let state = ContractState::new();
    match retrieve_urefs(&state, &acct(9)) {
        Err(e) => assert_eq!(e.code(), 1),
        Ok(_) => panic!("an unseeded account has nothing to retrieve"),
    }
}

#[test]
fn authorizer_unseeded_fails_with_code_1() {
    // The contract refuses an unseeded caller with code 1; the authorizer's
    // own empty-claim check (code 2) is never reached.
    let out = install(vec![acct(1)], vec![cap(10, 7), cap(11, 7)]).unwrap();
    match run_authorizer(&out.state, &acct(3)) {
        Err(e) => assert_eq!(e.code(), 1),
        Ok(_) => panic!("an unseeded caller must be refused"),
    }
}

#[test]
fn authorizer_claims_under_canonical_names() {
    // After the two-user install, the authorizer for the first user claims
    // exactly [c2] and names it with the host's canonical rendering.
    let u1 = acct(1);
    let out = install(
        vec![acct(1), acct(2)],
        vec![cap(10, 7), cap(11, 7), cap(12, 7)],
    )
    .unwrap();
    let keys = run_authorizer(&out.state, &u1).unwrap();
    assert_eq!(keys.len(), 1);
    assert!(cap_eq(&keys[0].cap, &cap(12, 7)));
    assert_eq!(keys[0].name, cap(12, 7).render_name());
}

#[test]
fn entry_point_table_declarations() {
    let table = entry_point_table();
    assert_eq!(table.len(), 3);
    assert_eq!(table[0].name, "append_urefs");
    assert!(table[0].group_gated);
    assert_eq!(table[1].name, "retrieve_urefs");
    assert!(!table[1].group_gated);
    assert_eq!(table[2].name, "group_access_only");
    assert!(table[2].group_gated);
}

#[test]
fn render_name_is_the_host_rendering() {
    // The library's canonical textual form is exactly what the host's own
    // type renders for the same address and rights.
    let c = cap(11, 7);
    let mut addr = [0u8; 32];
    addr.copy_from_slice(&c.addr);
    let host = casper_types::URef::new(
        addr,
        casper_types::AccessRights::from_bits(c.rights).unwrap(),
    );
    assert_eq!(c.render_name(), host.to_string());
    // And it is a genuine rendering, not the raw bytes handed back.
    assert_ne!(c.render_name(), String::from_utf8_lossy(&c.addr));
}

#[test]
fn render_name_exact_form() {
    // The rendering is the fixed prefix, the lowercase hex of the address
    // (high nibble first), the separator, the rights name, and the
    // closing parenthesis.
    let expected = format!("URef(0b{}, READ_ADD_WRITE)", "00".repeat(31));
    assert_eq!(cap(11, 7).render_name(), expected);
    let zero = Capability::new(vec![0u8; 32], 0);
    assert_eq!(
        zero.render_name(),
        format!("URef({}, NONE)", "00".repeat(32))
    );
}

#[test]
fn claim_of_empty_sequence_fails_with_code_2() {
    match claim_capabilities(Vec::new()) {
        Err(e) => assert_eq!(e.code(), 2),
        Ok(_) => panic!("an empty claim must fail"),
    }
}

#[test]
fn claim_with_zero_capability_fails_with_code_4() {
    let zero = Capability::new(vec![0u8; 32], 0);
    match claim_capabilities(vec![cap(10, 7), zero]) {
        Err(e) => assert_eq!(e.code(), 4),
        Ok(_) => panic!("the sentinel capability must be refused"),
    }
}

#[test]
fn claim_names_every_capability() {
    let caps = vec![cap(10, 1), cap(11, 5), cap(12, 7)];
    let keys = claim_capabilities(vec![cap(10, 1), cap(11, 5), cap(12, 7)]).unwrap();
    assert_eq!(keys.len(), 3);
    for (k, c) in keys.iter().zip(caps.iter()) {
        assert!(cap_eq(&k.cap, c));
        assert_eq!(k.name, c.render_name());
    }
}
