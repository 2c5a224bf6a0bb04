//! A registry of claims: opaque byte strings that an identified account
//! registers, revokes, or hands over to another account.

mod claim;
mod lemmas;
mod registry;

pub use claim::{bytes_equal, BoundedClaim};
pub use registry::{
    create_step, keys_within, revoke_step, transfer_step, AccountId, BlockNumber, Config, Error,
    Event, Pallet, Record,
};
pub use lemmas::{
    after, lemma_create_twice_refused, lemma_only_owner_acts, lemma_revoke_frees_claim,
    lemma_steps_keep_keys_within, lemma_too_long_refused, lemma_transfer_moves_ownership,
};
