use vstd::prelude::*;

use crate::registry::{
    create_step, keys_within, revoke_step, transfer_step, AccountId, BlockNumber, Error, Record,
};

verus! {

/// The contents after an operation: the new map on success, the old one on refusal.
pub open spec fn after(step: Result<Map<Seq<u8>, Record>, Error>, m: Map<Seq<u8>, Record>) -> Map<
    Seq<u8>,
    Record,
> {
    match step {
        Ok(n) => n,
        Err(_) => m,
    }
}

/// Each operation keeps every stored claim within the bound, whether it succeeds or not.
pub proof fn lemma_steps_keep_keys_within(
    m: Map<Seq<u8>, Record>,
    max: nat,
    caller: AccountId,
    claim: Seq<u8>,
    receiver: AccountId,
    now: BlockNumber,
)
    requires
        keys_within(m, max),
    ensures
        keys_within(after(create_step(m, max, caller, claim, now), m), max),
        keys_within(after(revoke_step(m, max, caller, claim), m), max),
        keys_within(after(transfer_step(m, caller, claim, receiver, now), m), max),
{
}

/// A second `create` of a claim that fits the bound is refused as already there,
/// whoever makes either call, and leaves the contents as the first call left them.
pub proof fn lemma_create_twice_refused(
    m: Map<Seq<u8>, Record>,
    max: nat,
    first: AccountId,
    second: AccountId,
    claim: Seq<u8>,
    t1: BlockNumber,
    t2: BlockNumber,
)
    requires
        claim.len() <= max,
    ensures
        ({
            let m1 = after(create_step(m, max, first, claim, t1), m);
            &&& create_step(m1, max, second, claim, t2) == Err::<Map<Seq<u8>, Record>, Error>(
                Error::ProofAlreadyExists,
            )
            &&& after(create_step(m1, max, second, claim, t2), m1) == m1
        }),
{
}

/// Only the holder of a claim may revoke it or hand it over: anyone else is refused
/// as not the owner, and nothing changes.
pub proof fn lemma_only_owner_acts(
    m: Map<Seq<u8>, Record>,
    max: nat,
    claim: Seq<u8>,
    other: AccountId,
    receiver: AccountId,
    now: BlockNumber,
)
    requires
        keys_within(m, max),
        m.contains_key(claim),
        m[claim].owner != other,
    ensures
        revoke_step(m, max, other, claim) == Err::<Map<Seq<u8>, Record>, Error>(
            Error::NotClaimOwner,
        ),
        transfer_step(m, other, claim, receiver, now) == Err::<Map<Seq<u8>, Record>, Error>(
            Error::NotClaimOwner,
        ),
        after(revoke_step(m, max, other, claim), m) == m,
        after(transfer_step(m, other, claim, receiver, now), m) == m,
{
}

/// A claim longer than the bound is refused as too long by `create` and by `revoke`,
/// whatever the contents and the caller.
pub proof fn lemma_too_long_refused(
    m: Map<Seq<u8>, Record>,
    max: nat,
    caller: AccountId,
    claim: Seq<u8>,
    now: BlockNumber,
)
    requires
        claim.len() > max,
    ensures
        create_step(m, max, caller, claim, now) == Err::<Map<Seq<u8>, Record>, Error>(
            Error::ClaimTooLong,
        ),
        revoke_step(m, max, caller, claim) == Err::<Map<Seq<u8>, Record>, Error>(
            Error::ClaimTooLong,
        ),
{
}

/// After a successful `revoke` the claim is gone, and anyone may `create` it again.
pub proof fn lemma_revoke_frees_claim(
    m: Map<Seq<u8>, Record>,
    max: nat,
    holder: AccountId,
    claim: Seq<u8>,
    next: AccountId,
    now: BlockNumber,
)
    requires
        revoke_step(m, max, holder, claim) is Ok,
    ensures
        ({
            let m1 = after(revoke_step(m, max, holder, claim), m);
            &&& !m1.contains_key(claim)
            &&& create_step(m1, max, next, claim, now) is Ok
            &&& m1 == m.remove(claim)
        }),
{
}

/// After a successful hand-over from one account to another, the claim is still
/// there under the same key, held by the receiver since the transfer's ordinal,
/// and the former holder can neither revoke it nor hand it over.
pub proof fn lemma_transfer_moves_ownership(
    m: Map<Seq<u8>, Record>,
    max: nat,
    from: AccountId,
    claim: Seq<u8>,
    to: AccountId,
    now: BlockNumber,
    next: AccountId,
    later: BlockNumber,
)
    requires
        keys_within(m, max),
        transfer_step(m, from, claim, to, now) is Ok,
        from != to,
    ensures
        ({
            let m1 = after(transfer_step(m, from, claim, to, now), m);
            &&& m1.contains_key(claim)
            &&& m1[claim] == Record { owner: to, registered_at: now }
            &&& m1.dom() == m.dom()
            &&& revoke_step(m1, max, from, claim) == Err::<Map<Seq<u8>, Record>, Error>(
                Error::NotClaimOwner,
            )
            &&& transfer_step(m1, from, claim, next, later) == Err::<Map<Seq<u8>, Record>, Error>(
                Error::NotClaimOwner,
            )
        }),
{
    let m1 = after(transfer_step(m, from, claim, to, now), m);
    assert(m1.dom() =~= m.dom());
}

} // verus!
