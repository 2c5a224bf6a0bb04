use poe::{bytes_equal, BoundedClaim, Config, Error, Event, Pallet, Record};

const ALICE: u64 = 1;
const BOB: u64 = 2;
const CAROL: u64 = 3;

fn registry(max: u32) -> Pallet {
    Pallet::new(Config { max_claim_length: max })
}

fn hello() -> Vec<u8> {
    b"hello".to_vec()
}

#[test]
fn create_registers_claim() {
    let mut p = registry(10);
    let r = p.create_claim(ALICE, hello(), 1);
    assert_eq!(r, Ok(Event::ClaimCreated(ALICE, hello())));
    assert_eq!(p.get(&hello()), Some(Record { owner: ALICE, registered_at: 1 }));
    assert_eq!(p.len(), 1);
}

#[test]
fn create_existing_claim_is_refused() {
    let mut p = registry(10);
    p.create_claim(ALICE, hello(), 1).unwrap();
    assert_eq!(p.create_claim(BOB, hello(), 2), Err(Error::ProofAlreadyExists));
    assert_eq!(p.get(&hello()), Some(Record { owner: ALICE, registered_at: 1 }));
    assert_eq!(p.len(), 1);
}

#[test]
fn create_twice_by_same_caller_is_refused() {
    let mut p = registry(10);
    p.create_claim(ALICE, hello(), 1).unwrap();
    assert_eq!(p.create_claim(ALICE, hello(), 1), Err(Error::ProofAlreadyExists));
    assert_eq!(p.get(&hello()), Some(Record { owner: ALICE, registered_at: 1 }));
}

#[test]
fn revoke_by_other_account_is_refused() {
    let mut p = registry(10);
    p.create_claim(ALICE, hello(), 1).unwrap();
    assert_eq!(p.revoke_claim(BOB, hello()), Err(Error::NotClaimOwner));
    assert_eq!(p.get(&hello()), Some(Record { owner: ALICE, registered_at: 1 }));
}

#[test]
fn transfer_by_other_account_is_refused() {
    let mut p = registry(10);
    p.create_claim(ALICE, hello(), 1).unwrap();
    assert_eq!(p.transfer_claim(BOB, hello(), CAROL, 4), Err(Error::NotClaimOwner));
    assert_eq!(p.get(&hello()), Some(Record { owner: ALICE, registered_at: 1 }));
}

#[test]
fn revoke_by_owner_empties_registry() {
    let mut p = registry(10);
    p.create_claim(ALICE, hello(), 1).unwrap();
    assert_eq!(p.revoke_claim(BOB, hello()), Err(Error::NotClaimOwner));
    assert_eq!(p.revoke_claim(ALICE, hello()), Ok(Event::ClaimRevoked(ALICE, hello())));
    assert_eq!(p.get(&hello()), None);
    assert!(p.is_empty());
    assert_eq!(p.len(), 0);
}

#[test]
fn create_too_long_is_refused() {
    let mut p = registry(10);
    assert_eq!(p.create_claim(ALICE, b"this-is-too-long".to_vec(), 1), Err(Error::ClaimTooLong));
    assert!(p.is_empty());
}

#[test]
fn revoke_too_long_is_refused() {
    let mut p = registry(10);
    assert_eq!(p.revoke_claim(ALICE, b"this-is-too-long".to_vec()), Err(Error::ClaimTooLong));
}

#[test]
fn too_long_wins_over_other_failures() {
    let mut p = registry(3);
    p.create_claim(ALICE, b"abc".to_vec(), 1).unwrap();
    // Absent and too long: the length is reported.
    assert_eq!(p.revoke_claim(BOB, b"abcd".to_vec()), Err(Error::ClaimTooLong));
    assert_eq!(p.create_claim(BOB, b"abcd".to_vec(), 1), Err(Error::ClaimTooLong));
}

#[test]
fn claim_of_exactly_max_length_is_accepted() {
    let mut p = registry(5);
    assert!(p.create_claim(ALICE, hello(), 1).is_ok());
    assert_eq!(p.create_claim(ALICE, b"hello!".to_vec(), 1), Err(Error::ClaimTooLong));
}

#[test]
fn empty_claim_is_accepted() {
    let mut p = registry(10);
    assert_eq!(p.create_claim(ALICE, Vec::new(), 3), Ok(Event::ClaimCreated(ALICE, Vec::new())));
    assert_eq!(p.get(&Vec::new()), Some(Record { owner: ALICE, registered_at: 3 }));
}

#[test]
fn zero_bound_accepts_only_empty_claim() {
    let mut p = registry(0);
    assert_eq!(p.create_claim(ALICE, b"k".to_vec(), 1), Err(Error::ClaimTooLong));
    assert!(p.create_claim(ALICE, Vec::new(), 1).is_ok());
}

#[test]
fn revoke_absent_claim_is_refused() {
    let mut p = registry(10);
    assert_eq!(p.revoke_claim(ALICE, hello()), Err(Error::ClaimNotExist));
}

#[test]
fn transfer_absent_claim_is_refused() {
    let mut p = registry(10);
    assert_eq!(p.transfer_claim(ALICE, hello(), BOB, 2), Err(Error::ClaimNotExist));
    // A key longer than the bound can never be stored, so it is simply absent.
    assert_eq!(
        p.transfer_claim(ALICE, b"this-is-too-long".to_vec(), BOB, 2),
        Err(Error::ClaimNotExist)
    );
    assert!(p.is_empty());
}

#[test]
fn revoke_then_create_again() {
    let mut p = registry(10);
    p.create_claim(ALICE, hello(), 1).unwrap();
    p.revoke_claim(ALICE, hello()).unwrap();
    assert!(!p.contains_key(&hello()));
    assert_eq!(p.create_claim(BOB, hello(), 7), Ok(Event::ClaimCreated(BOB, hello())));
    assert_eq!(p.get(&hello()), Some(Record { owner: BOB, registered_at: 7 }));
}

#[test]
fn transfer_moves_ownership() {
    let mut p = registry(10);
    let k = b"k".to_vec();
    p.create_claim(ALICE, k.clone(), 1).unwrap();
    assert_eq!(
        p.transfer_claim(ALICE, k.clone(), BOB, 5),
        Ok(Event::ClaimTransferred(ALICE, k.clone(), BOB))
    );
    assert_eq!(p.get(&k), Some(Record { owner: BOB, registered_at: 5 }));
    assert_eq!(p.revoke_claim(ALICE, k.clone()), Err(Error::NotClaimOwner));
    assert_eq!(p.revoke_claim(BOB, k.clone()), Ok(Event::ClaimRevoked(BOB, k.clone())));
    assert!(p.is_empty());
}

#[test]
fn former_owner_cannot_transfer_back() {
    let mut p = registry(10);
    let k = b"k".to_vec();
    p.create_claim(ALICE, k.clone(), 1).unwrap();
    p.transfer_claim(ALICE, k.clone(), BOB, 5).unwrap();
    assert_eq!(p.transfer_claim(ALICE, k.clone(), ALICE, 6), Err(Error::NotClaimOwner));
    assert_eq!(p.get(&k), Some(Record { owner: BOB, registered_at: 5 }));
}

#[test]
fn transfer_leaves_other_claims_alone() {
    let mut p = registry(10);
    p.create_claim(ALICE, b"a".to_vec(), 1).unwrap();
    p.create_claim(ALICE, b"b".to_vec(), 2).unwrap();
    p.create_claim(CAROL, b"c".to_vec(), 3).unwrap();
    p.transfer_claim(ALICE, b"b".to_vec(), BOB, 9).unwrap();
    assert_eq!(p.get(&b"a".to_vec()), Some(Record { owner: ALICE, registered_at: 1 }));
    assert_eq!(p.get(&b"b".to_vec()), Some(Record { owner: BOB, registered_at: 9 }));
    assert_eq!(p.get(&b"c".to_vec()), Some(Record { owner: CAROL, registered_at: 3 }));
    assert_eq!(p.len(), 3);
}

#[test]
fn revoke_in_the_middle_keeps_the_rest() {
    let mut p = registry(10);
    p.create_claim(ALICE, b"a".to_vec(), 1).unwrap();
    p.create_claim(BOB, b"b".to_vec(), 2).unwrap();
    p.create_claim(CAROL, b"c".to_vec(), 3).unwrap();
    p.revoke_claim(BOB, b"b".to_vec()).unwrap();
    assert_eq!(p.get(&b"a".to_vec()), Some(Record { owner: ALICE, registered_at: 1 }));
    assert_eq!(p.get(&b"b".to_vec()), None);
    assert_eq!(p.get(&b"c".to_vec()), Some(Record { owner: CAROL, registered_at: 3 }));
    assert_eq!(p.len(), 2);
}

#[test]
fn keys_are_compared_exactly() {
    let mut p = registry(10);
    p.create_claim(ALICE, b"ab".to_vec(), 1).unwrap();
    assert!(p.create_claim(BOB, b"abc".to_vec(), 1).is_ok());
    assert!(p.create_claim(BOB, b"a".to_vec(), 1).is_ok());
    assert!(p.create_claim(BOB, b"ba".to_vec(), 1).is_ok());
    assert_eq!(p.len(), 4);
    assert_eq!(p.get(&b"ab".to_vec()), Some(Record { owner: ALICE, registered_at: 1 }));
}

#[test]
fn max_claim_length_is_kept() {
    let p = registry(42);
    assert_eq!(p.max_claim_length(), 42);
    assert!(p.is_empty());
}

#[test]
fn bounded_claim_checks_length() {
    let c = BoundedClaim::try_new(hello(), 5).unwrap();
    assert_eq!(c.len(), 5);
    assert_eq!(c.as_bytes(), &hello());
    assert_eq!(c.into_bytes(), hello());
    assert_eq!(BoundedClaim::try_new(hello(), 4).err(), Some(hello()));
}

#[test]
fn bytes_equal_compares_contents() {
    assert!(bytes_equal(&hello(), &hello()));
    assert!(!bytes_equal(&hello(), &b"hellp".to_vec()));
    assert!(!bytes_equal(&hello(), &b"hell".to_vec()));
    assert!(bytes_equal(&Vec::new(), &Vec::new()));
}
