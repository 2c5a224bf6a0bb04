use vstd::prelude::*;

use crate::claim::{bytes_equal, BoundedClaim};

verus! {

/// Identifies an account that holds claims; the caller's identity is checked
/// before it reaches the registry.
pub type AccountId = u64;

/// The ordinal (block height) at which a record was written.
pub type BlockNumber = u64;

/// What a registry is built with, fixed for its lifetime.
#[derive(Clone, Copy, Debug, PartialEq, Eq, Structural)]
pub struct Config {
    /// The longest claim, in bytes, that the registry accepts.
    pub max_claim_length: u32,
}

/// Who holds a claim, and since when.
#[derive(Clone, Copy, Debug, PartialEq, Eq, Structural)]
pub struct Record {
    pub owner: AccountId,
    pub registered_at: BlockNumber,
}

/// What a successful operation reports.
#[derive(Clone, Debug, PartialEq, Eq)]
pub enum Event {
    /// The account registered the claim.
    ClaimCreated(AccountId, Vec<u8>),
    /// The account gave the claim up.
    ClaimRevoked(AccountId, Vec<u8>),
    /// The first account handed the claim over to the second.
    ClaimTransferred(AccountId, Vec<u8>, AccountId),
}

/// Why an operation was refused; a refused operation changes nothing.
#[derive(Clone, Copy, Debug, PartialEq, Eq, Structural)]
pub enum Error {
    /// The claim is longer than the registry's bound.
    ClaimTooLong,
    /// The claim is registered already.
    ProofAlreadyExists,
    /// The claim is not registered.
    ClaimNotExist,
    /// The caller does not hold the claim.
    NotClaimOwner,
}

impl Event {
    pub open spec fn is_created(self, who: AccountId, claim: Seq<u8>) -> bool {
        self matches Event::ClaimCreated(w, c) && w == who && c@ == claim
    }

    pub open spec fn is_revoked(self, who: AccountId, claim: Seq<u8>) -> bool {
        self matches Event::ClaimRevoked(w, c) && w == who && c@ == claim
    }

    pub open spec fn is_transferred(self, from: AccountId, claim: Seq<u8>, to: AccountId) -> bool {
        self matches Event::ClaimTransferred(f, c, t) && f == from && c@ == claim && t == to
    }
}

/// The outcome of `create` on the registry's contents `m`: the new contents, or the refusal.
pub open spec fn create_step(
    m: Map<Seq<u8>, Record>,
    max: nat,
    caller: AccountId,
    claim: Seq<u8>,
    now: BlockNumber,
) -> Result<Map<Seq<u8>, Record>, Error> {
    if claim.len() > max {
        Err(Error::ClaimTooLong)
    } else if m.contains_key(claim) {
        Err(Error::ProofAlreadyExists)
    } else {
        Ok(m.insert(claim, Record { owner: caller, registered_at: now }))
    }
}

/// The outcome of `revoke` on the registry's contents `m`.
pub open spec fn revoke_step(
    m: Map<Seq<u8>, Record>,
    max: nat,
    caller: AccountId,
    claim: Seq<u8>,
) -> Result<Map<Seq<u8>, Record>, Error> {
    if claim.len() > max {
        Err(Error::ClaimTooLong)
    } else if !m.contains_key(claim) {
        Err(Error::ClaimNotExist)
    } else if m[claim].owner != caller {
        Err(Error::NotClaimOwner)
    } else {
        Ok(m.remove(claim))
    }
}

/// The outcome of `transfer` on the registry's contents `m`.
pub open spec fn transfer_step(
    m: Map<Seq<u8>, Record>,
    caller: AccountId,
    claim: Seq<u8>,
    receiver: AccountId,
    now: BlockNumber,
) -> Result<Map<Seq<u8>, Record>, Error> {
    if !m.contains_key(claim) {
        Err(Error::ClaimNotExist)
    } else if m[claim].owner != caller {
        Err(Error::NotClaimOwner)
    } else {
        Ok(m.insert(claim, Record { owner: receiver, registered_at: now }))
    }
}

/// Every key of `m` is at most `max` bytes long.
pub open spec fn keys_within(m: Map<Seq<u8>, Record>, max: nat) -> bool {
    forall|k: Seq<u8>| #[trigger] m.contains_key(k) ==> k.len() <= max
}

/// The claim registry: a map from claim bytes to the record of who holds them.
pub struct Pallet {
    max_claim_length: u32,
    keys: Vec<BoundedClaim>,
    records: Vec<Record>,
    contents: Ghost<Map<Seq<u8>, Record>>,
}

impl View for Pallet {
    type V = Map<Seq<u8>, Record>;

    closed spec fn view(&self) -> Map<Seq<u8>, Record> {
        self.contents@
    }
}

impl Pallet {
    /// The longest claim the registry accepts.
    pub closed spec fn max_len(&self) -> nat {
        self.max_claim_length as nat
    }

    /// The stored keys and records line up with the map, and no key is stored twice.
    pub closed spec fn wf(&self) -> bool {
        &&& self.keys.len() == self.records.len()
        &&& forall|i: int|
            0 <= i < self.keys.len() ==> {
                &&& self.contents@.contains_key(#[trigger] self.keys@[i]@)
                &&& self.contents@[self.keys@[i]@] == self.records@[i]
            }
        &&& forall|k: Seq<u8>|
            #[trigger] self.contents@.contains_key(k) ==> exists|i: int|
                0 <= i < self.keys.len() && #[trigger] self.keys@[i]@ == k
        &&& forall|i: int, j: int|
            0 <= i < self.keys.len() && 0 <= j < self.keys.len() && i != j
                ==> #[trigger] self.keys@[i]@ != #[trigger] self.keys@[j]@
        &&& keys_within(self.contents@, self.max_len())
    }

    /// An empty registry with the bound of `config`.
    pub fn new(config: Config) -> (r: Pallet)
        ensures
            r.wf(),
            r@ == Map::<Seq<u8>, Record>::empty(),
            r.max_len() == config.max_claim_length,
    {
        Pallet {
            max_claim_length: config.max_claim_length,
            keys: Vec::new(),
            records: Vec::new(),
            contents: Ghost(Map::empty()),
        }
    }

    /// The position at which `claim` is stored, if it is.
    fn find(&self, claim: &Vec<u8>) -> (r: Option<usize>)
        requires
            self.wf(),
        ensures
            r matches Some(i) ==> i < self.keys.len() && self.keys@[i as int]@ == claim@,
            r is None <==> !self@.contains_key(claim@),
    {
        let n = self.keys.len();
        let mut i: usize = 0;
        while i < n
            invariant
                self.wf(),
                n == self.keys.len(),
                i <= n,
                forall|j: int| 0 <= j < i ==> self.keys@[j]@ != claim@,
            decreases n - i,
        {
            if bytes_equal(self.keys[i].as_bytes(), claim) {
                return Some(i);
            }
            i = i + 1;
        }
        None
    }

    /// Every stored claim is within the registry's bound.
    pub proof fn lemma_keys_within(&self)
        requires
            self.wf(),
        ensures
            keys_within(self@, self.max_len()),
    {
    }

    /// The longest claim the registry accepts.
    pub fn max_claim_length(&self) -> (r: u32)
        ensures
            r == self.max_len(),
    {
        self.max_claim_length
    }

    /// The record of `claim`, if it is registered.
    pub fn get(&self, claim: &Vec<u8>) -> (r: Option<Record>)
        requires
            self.wf(),
        ensures
            r == (if self@.contains_key(claim@) {
                Some(self@[claim@])
            } else {
                None::<Record>
            }),
    {
        match self.find(claim) {
            Some(i) => Some(self.records[i]),
            None => None,
        }
    }

    /// Whether `claim` is registered.
    pub fn contains_key(&self, claim: &Vec<u8>) -> (r: bool)
        requires
            self.wf(),
        ensures
            r == self@.contains_key(claim@),
    {
        self.find(claim).is_some()
    }

    /// How many claims are registered.
    pub fn len(&self) -> (r: usize)
        requires
            self.wf(),
        ensures
            r == self@.len(),
    {
        proof {
            self.lemma_len();
        }
        self.keys.len()
    }

    /// Whether no claim is registered.
    pub fn is_empty(&self) -> (r: bool)
        requires
            self.wf(),
        ensures
            r == (self@.len() == 0),
    {
        proof {
            self.lemma_len();
        }
        self.keys.len() == 0
    }

    /// The map holds exactly the stored keys, so it has as many entries as they are.
    proof fn lemma_len(&self)
        requires
            self.wf(),
        ensures
            self@.dom().finite(),
            self@.len() == self.keys.len(),
    {
        let ks = self.keys@.map_values(|k: BoundedClaim| k@);
        assert forall|i: int, j: int| 0 <= i < ks.len() && 0 <= j < ks.len() && i != j implies ks[i]
            != ks[j] by {
            assert(self.keys@[i]@ != self.keys@[j]@);
        }
        assert(ks.no_duplicates());
        assert forall|k: Seq<u8>| #[trigger] ks.contains(k) == self@.dom().contains(k) by {
            if ks.contains(k) {
                let i = choose|i: int| 0 <= i < ks.len() && ks[i] == k;
                assert(self.keys@[i]@ == k);
            }
            if self@.dom().contains(k) {
                let i = choose|i: int| 0 <= i < self.keys.len() && #[trigger] self.keys@[i]@ == k;
                assert(ks[i] == k);
            }
        }
        assert(ks.to_set() =~= self@.dom());
        ks.unique_seq_to_set();
    }

    /// Registers `claim` as held by `caller` from ordinal `now`.
    pub fn create_claim(&mut self, caller: AccountId, claim: Vec<u8>, now: BlockNumber) -> (r:
        Result<Event, Error>)
        requires
            old(self).wf(),
        ensures
            final(self).wf(),
            final(self).max_len() == old(self).max_len(),
            (match create_step(old(self)@, old(self).max_len(), caller, claim@, now) {
                Ok(m) => final(self)@ == m && (r matches Ok(e) && e.is_created(caller, claim@)),
                Err(e) => final(self)@ == old(self)@ && r == Err::<Event, Error>(e),
            }),
    {
        let key = match BoundedClaim::try_new(claim, self.max_claim_length) {
            Ok(k) => k,
            Err(_) => return Err(Error::ClaimTooLong),
        };
        if self.find(key.as_bytes()).is_some() {
            return Err(Error::ProofAlreadyExists);
        }
        let record = Record { owner: caller, registered_at: now };
        let reported = key.as_bytes().clone();
        proof {
            assert(reported@ =~= key@);
        }
        let ghost before = self.keys@;
        self.keys.push(key);
        self.records.push(record);
        self.contents = Ghost(self.contents@.insert(claim@, record));
        proof {
            let n = before.len() as int;
            assert(self.keys@[n]@ == claim@);
            assert forall|k: Seq<u8>| #[trigger] self.contents@.contains_key(k) implies exists|i: int|
                0 <= i < self.keys.len() && #[trigger] self.keys@[i]@ == k by {
                if k == claim@ {
                    assert(self.keys@[n]@ == k);
                } else {
                    let i = choose|i: int| 0 <= i < before.len() && #[trigger] before[i]@ == k;
                    assert(self.keys@[i]@ == k);
                }
            }
            assert forall|i: int, j: int|
                0 <= i < self.keys.len() && 0 <= j < self.keys.len() && i != j
                    implies #[trigger] self.keys@[i]@ != #[trigger] self.keys@[j]@ by {
                if i < n && j < n {
                    assert(before[i] == self.keys@[i]);
                    assert(before[j] == self.keys@[j]);
                } else if i < n {
                    assert(before[i] == self.keys@[i]);
                    assert(old(self).contents@.contains_key(before[i]@));
                } else {
                    assert(before[j] == self.keys@[j]);
                    assert(old(self).contents@.contains_key(before[j]@));
                }
            }
        }
        Ok(Event::ClaimCreated(caller, reported))
    }

    /// Removes `claim`, provided that `caller` holds it.
    pub fn revoke_claim(&mut self, caller: AccountId, claim: Vec<u8>) -> (r: Result<Event, Error>)
        requires
            old(self).wf(),
        ensures
            final(self).wf(),
            final(self).max_len() == old(self).max_len(),
            (match revoke_step(old(self)@, old(self).max_len(), caller, claim@) {
                Ok(m) => final(self)@ == m && (r matches Ok(e) && e.is_revoked(caller, claim@)),
                Err(e) => final(self)@ == old(self)@ && r == Err::<Event, Error>(e),
            }),
    {
        if claim.len() > self.max_claim_length as usize {
            return Err(Error::ClaimTooLong);
        }
        let i = match self.find(&claim) {
            Some(i) => i,
            None => return Err(Error::ClaimNotExist),
        };
        if self.records[i].owner != caller {
            return Err(Error::NotClaimOwner);
        }
        let ghost before = self.keys@;
        let ghost before_records = self.records@;
        self.keys.remove(i);
        self.records.remove(i);
        self.contents = Ghost(self.contents@.remove(claim@));
        proof {
            let n = before.len() as int;
            let ii = i as int;
            assert forall|j: int| 0 <= j < self.keys.len() implies {
                &&& self.contents@.contains_key(#[trigger] self.keys@[j]@)
                &&& self.contents@[self.keys@[j]@] == self.records@[j]
            } by {
                let o = if j < ii { j } else { j + 1 };
                assert(self.keys@[j] == before[o]);
                assert(self.records@[j] == before_records[o]);
                assert(before[o]@ != before[ii]@);
            }
            assert forall|k: Seq<u8>| #[trigger] self.contents@.contains_key(k) implies exists|j: int|
                0 <= j < self.keys.len() && #[trigger] self.keys@[j]@ == k by {
                let o = choose|o: int| 0 <= o < n && #[trigger] before[o]@ == k;
                assert(o != ii);
                if o < ii {
                    assert(self.keys@[o]@ == k);
                } else {
                    assert(self.keys@[o - 1]@ == k);
                }
            }
            assert forall|a: int, b: int|
                0 <= a < self.keys.len() && 0 <= b < self.keys.len() && a != b
                    implies #[trigger] self.keys@[a]@ != #[trigger] self.keys@[b]@ by {
                let oa = if a < ii { a } else { a + 1 };
                let ob = if b < ii { b } else { b + 1 };
                assert(self.keys@[a] == before[oa]);
                assert(self.keys@[b] == before[ob]);
            }
        }
        Ok(Event::ClaimRevoked(caller, claim))
    }

    /// Hands `claim` over from `caller`, who must hold it, to `receiver` at ordinal `now`.
    /// The key stays where it is: only its record changes.
    pub fn transfer_claim(
        &mut self,
        caller: AccountId,
        claim: Vec<u8>,
        receiver: AccountId,
        now: BlockNumber,
    ) -> (r: Result<Event, Error>)
        requires
            old(self).wf(),
        ensures
            final(self).wf(),
            final(self).max_len() == old(self).max_len(),
            (match transfer_step(old(self)@, caller, claim@, receiver, now) {
                Ok(m) => final(self)@ == m && (r matches Ok(e) && e.is_transferred(
                    caller,
                    claim@,
                    receiver,
                )),
                Err(e) => final(self)@ == old(self)@ && r == Err::<Event, Error>(e),
            }),
    {
        let i = match self.find(&claim) {
            Some(i) => i,
            None => return Err(Error::ClaimNotExist),
        };
        if self.records[i].owner != caller {
            return Err(Error::NotClaimOwner);
        }
        let record = Record { owner: receiver, registered_at: now };
        let ghost before_records = self.records@;
        self.records.set(i, record);
        self.contents = Ghost(self.contents@.insert(claim@, record));
        proof {
            let ii = i as int;
            assert forall|j: int| 0 <= j < self.keys.len() implies {
                &&& self.contents@.contains_key(#[trigger] self.keys@[j]@)
                &&& self.contents@[self.keys@[j]@] == self.records@[j]
            } by {
                if j != ii {
                    assert(self.records@[j] == before_records[j]);
                    assert(self.keys@[j]@ != self.keys@[ii]@);
                }
            }
        }
        Ok(Event::ClaimTransferred(caller, claim, receiver))
    }
}

} // verus!
