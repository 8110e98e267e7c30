//! Capability distribution for a group-gated contract: an installer mints one
//! admin-group capability per user, the access contract records each user's
//! capabilities under its account key, and an authorizer session lets a user
//! claim its recorded capabilities into its own named-key table.

mod access;
mod authorize;
mod cap;
mod error;
mod install;
mod state;

pub use access::{
    append_urefs, appended_to, distinct_accounts, group_access_only, lemma_appended_to_absent,
    lemma_reverse_pairing, retrieve_urefs,
};
pub use authorize::{claim_capabilities, run_authorizer, NamedKey};
pub use cap::{
    cap_name_of, hex_digit, hex_of, lemma_cap_name_injective, lemma_hex_len, rights_name,
    AccountId, AccountModel, CapModel, Capability, ADDR_LEN,
};
pub use error::Error;
pub use install::{
    admin_group_size, contract_key, entry_point_table, group_label, group_uref_key, install,
    package_key, split_minted, EntryPointDecl, InstallOutcome,
};
pub use state::{acct_views, cap_views, ContractState};
