use kitties::poe::{Error, Event, Pallet};

const MAX_CLAIM_LENGTH: u32 = 10;
const BLOCK: u32 = 0;

#[test]
fn create_claim_works() {
    let mut p = Pallet::new(MAX_CLAIM_LENGTH);
    let claim = vec![0, 1];
    assert_eq!(p.create_claim(1, claim.clone(), BLOCK), Ok(Event::ClaimCreated(1, claim.clone())));
    assert_eq!(p.proofs(&claim), Some((1, BLOCK)));

    let claim2 = vec![0, 1];
    assert_eq!(p.create_claim(1, claim2.clone(), BLOCK), Err(Error::ProofAlreadyExist));
    assert_eq!(p.proofs(&claim), Some((1, BLOCK)));
}

#[test]
fn revoke_claim() {
    let mut p = Pallet::new(MAX_CLAIM_LENGTH);
    let claim = vec![0, 1];
    assert!(p.create_claim(1, claim.clone(), BLOCK).is_ok());
    assert_eq!(p.proofs(&claim), Some((1, BLOCK)));
    assert_eq!(p.revoke_claim(1, claim.clone()), Ok(Event::ClaimRevoked(1, claim.clone())));
    assert_eq!(p.revoke_claim(1, claim.clone()), Err(Error::ClaimNotExist));
    assert_eq!(p.proofs(&claim), None);
}

#[test]
fn transfer_claim_works() {
    let mut p = Pallet::new(MAX_CLAIM_LENGTH);
    let claim = vec![0, 1, 3, 4];
    assert!(p.create_claim(1, claim.clone(), BLOCK).is_ok());
    assert_eq!(p.transfer_claim(1, claim.clone(), 2, BLOCK), Ok(()));
}

#[test]
fn transfer_claim_failed() {
    let mut p = Pallet::new(MAX_CLAIM_LENGTH);
    let claim = vec![0, 1, 3, 4];
    assert_eq!(p.transfer_claim(1, claim.clone(), 2, BLOCK), Err(Error::ClaimNotExist));
    assert!(p.create_claim(1, claim.clone(), BLOCK).is_ok());
    assert_eq!(p.transfer_claim(3, claim.clone(), 2, BLOCK), Err(Error::NotClaimOwner));
    assert_eq!(p.proofs(&claim), Some((1, BLOCK)));
}

#[test]
fn transferred_claim_has_new_holder_and_block() {
    let mut p = Pallet::new(MAX_CLAIM_LENGTH);
    let claim = vec![9, 8, 7];
    p.create_claim(1, claim.clone(), 3).unwrap();
    p.transfer_claim(1, claim.clone(), 2, 7).unwrap();
    assert_eq!(p.proofs(&claim), Some((2, 7)));
    assert_eq!(p.revoke_claim(1, claim.clone()), Err(Error::NotClaimOwner));
    assert_eq!(p.revoke_claim(2, claim.clone()), Ok(Event::ClaimRevoked(2, claim.clone())));
}

#[test]
fn claims_longer_than_maximum_are_refused() {
    let mut p = Pallet::new(MAX_CLAIM_LENGTH);
    let long = vec![1u8; 11];
    assert_eq!(p.create_claim(1, long.clone(), BLOCK), Err(Error::ClaimTooLong));
    assert_eq!(p.revoke_claim(1, long.clone()), Err(Error::ClaimTooLong));
    assert_eq!(p.transfer_claim(1, long.clone(), 2, BLOCK), Err(Error::ClaimTooLong));
    let exact = vec![1u8; 10];
    assert!(p.create_claim(1, exact.clone(), BLOCK).is_ok());
}

#[test]
fn revoking_one_claim_keeps_the_others() {
    let mut p = Pallet::new(MAX_CLAIM_LENGTH);
    p.create_claim(1, vec![1], 1).unwrap();
    p.create_claim(2, vec![2], 2).unwrap();
    p.create_claim(3, vec![3], 3).unwrap();
    p.revoke_claim(1, vec![1]).unwrap();
    assert_eq!(p.proofs(&vec![1]), None);
    assert_eq!(p.proofs(&vec![2]), Some((2, 2)));
    assert_eq!(p.proofs(&vec![3]), Some((3, 3)));
}
