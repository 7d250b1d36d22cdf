use kitties::{
    breed_bits, crossover, dna_payload, gen_dna, gen_gender, AccountData, Balances, Entropy, Error,
    Event, Gender, Pallet,
};

const ALICE: u64 = 1;
const BOB: u64 = 2;
const CAROL: u64 = 3;
const STAKE: u128 = 10;

fn entropy(tag: u8, block_number: u32) -> Entropy {
    Entropy {
        dna_seed: [tag; 32],
        gender_seed: [tag.wrapping_add(1); 32],
        extrinsic_index: Some(1),
        block_number,
    }
}

fn setup(max: u32) -> (Pallet, Balances) {
    let p = Pallet::new(max, STAKE);
    let mut b = Balances::new();
    b.deposit(ALICE, 1000).unwrap();
    b.deposit(BOB, 1000).unwrap();
    (p, b)
}

#[test]
fn crossover_takes_mask_bits_from_first_parent() {
    let r = crossover(&[0x0F; 16], &[0xFF; 16], &[0x00; 16]);
    assert_eq!(r, [0x0F; 16]);
}

#[test]
fn crossover_mixes_each_byte() {
    assert_eq!(breed_bits(0b1010_1010, 0b1111_0000, 0b0000_1111), 0b1010_0101);
    let mut mask = [0u8; 16];
    mask[3] = 0xFF;
    let r = crossover(&mask, &[0x11; 16], &[0x22; 16]);
    let mut expected = [0x22u8; 16];
    expected[3] = 0x11;
    assert_eq!(r, expected);
}

#[test]
fn payload_encodes_seed_index_and_block() {
    let v = dna_payload(&[7; 32], Some(3), 258);
    let mut expected = vec![7u8; 32];
    expected.extend_from_slice(&[3, 0, 0, 0, 2, 1, 0, 0]);
    assert_eq!(v, expected);
    let w = dna_payload(&[7; 32], None, 0x0403_0201);
    assert_eq!(&w[32..], &[0, 0, 0, 0, 1, 2, 3, 4]);
}

#[test]
fn dna_is_a_digest_of_the_payload() {
    let e = entropy(5, 9);
    let d = gen_dna(&e);
    assert_eq!(d, gen_dna(&e));
    assert_ne!(d, gen_dna(&entropy(5, 10)));
    assert_ne!(d, gen_dna(&Entropy { extrinsic_index: None, ..e }));
    assert_ne!(&d[..], &dna_payload(&e.dna_seed, e.extrinsic_index, e.block_number)[..16]);
}

#[test]
fn gender_follows_first_byte_parity() {
    assert_eq!(gen_gender(&[4; 32]), Gender::Male);
    assert_eq!(gen_gender(&[5; 32]), Gender::Female);
}

#[test]
fn create_reserves_stake_and_appends_id() {
    let (mut p, mut b) = setup(5);
    let e = entropy(1, 1);
    assert_eq!(p.create_kitty(&mut b, ALICE, &e), Ok(Event::Created(ALICE, 0)));
    assert_eq!(p.last_kitty_id(), 1);
    assert_eq!(p.kitties_owned(ALICE), vec![0]);
    let k = p.kitties(0).unwrap();
    assert_eq!(k.owner, ALICE);
    assert_eq!(k.price, None);
    assert_eq!(k.dna, gen_dna(&e));
    assert_eq!(k.gender, gen_gender(&e.gender_seed));
    assert_eq!(b.account_data(ALICE), AccountData { free: 990, reserved: 10 });
    assert_eq!(p.create_kitty(&mut b, ALICE, &e), Ok(Event::Created(ALICE, 1)));
    assert_eq!(p.kitties_owned(ALICE), vec![0, 1]);
    assert_eq!(p.last_kitty_id(), 2);
}

#[test]
fn create_without_funds_fails() {
    let (mut p, mut b) = setup(5);
    assert_eq!(p.create_kitty(&mut b, CAROL, &entropy(1, 1)), Err(Error::NotEnoughBalance));
    assert_eq!(p.last_kitty_id(), 0);
    assert_eq!(p.kitties(0), None);
}

#[test]
fn create_beyond_cap_changes_nothing() {
    let (mut p, mut b) = setup(2);
    let e = entropy(1, 1);
    p.create_kitty(&mut b, ALICE, &e).unwrap();
    p.create_kitty(&mut b, ALICE, &e).unwrap();
    let before = b.account_data(ALICE);
    assert_eq!(p.create_kitty(&mut b, ALICE, &e), Err(Error::ExceedMaxKittyOwned));
    assert_eq!(p.last_kitty_id(), 2);
    assert_eq!(p.kitties(2), None);
    assert_eq!(p.kitties_owned(ALICE), vec![0, 1]);
    assert_eq!(b.account_data(ALICE), before);
    assert_eq!(p.mint(ALICE, None, None, &e), Err(Error::ExceedMaxKittyOwned));
}

#[test]
fn mint_uses_given_dna_and_gender() {
    let mut p = Pallet::new(3, STAKE);
    let id = p.mint(BOB, Some([9; 16]), Some(Gender::Female), &entropy(2, 2)).unwrap();
    assert_eq!(id, 0);
    let k = p.get_kitty(0).unwrap();
    assert_eq!(k.dna, [9; 16]);
    assert_eq!(k.gender, Gender::Female);
    assert_eq!(k.owner, BOB);
    assert_eq!(p.get_kitty(1), Err(Error::KittyNotExist));
    assert_eq!(p.is_kitty_owner(0, BOB), Ok(true));
    assert_eq!(p.is_kitty_owner(0, ALICE), Ok(false));
    assert_eq!(p.is_kitty_owner(4, ALICE), Err(Error::KittyNotExist));
}

#[test]
fn set_price_lists_and_delists() {
    let (mut p, mut b) = setup(5);
    p.create_kitty(&mut b, ALICE, &entropy(1, 1)).unwrap();
    assert_eq!(p.set_price(ALICE, 0, Some(50)), Ok(Event::PriceSet(ALICE, 0, Some(50))));
    assert_eq!(p.kitties(0).unwrap().price, Some(50));
    assert_eq!(p.set_price(ALICE, 0, None), Ok(Event::PriceSet(ALICE, 0, None)));
    assert_eq!(p.kitties(0).unwrap().price, None);
    assert_eq!(p.set_price(BOB, 0, Some(1)), Err(Error::NotKittyOwner));
    assert_eq!(p.set_price(ALICE, 7, Some(1)), Err(Error::KittyNotExist));
    assert_eq!(p.kitties(0).unwrap().price, None);
}

#[test]
fn transfer_moves_kitty_and_stake() {
    let (mut p, mut b) = setup(5);
    let e = entropy(1, 1);
    p.create_kitty(&mut b, ALICE, &e).unwrap();
    p.create_kitty(&mut b, ALICE, &e).unwrap();
    p.create_kitty(&mut b, ALICE, &e).unwrap();
    p.set_price(ALICE, 0, Some(5)).unwrap();
    assert_eq!(p.transfer(&mut b, ALICE, BOB, 0), Ok(Event::Transferred(ALICE, BOB, 0)));
    assert_eq!(p.kitties_owned(ALICE), vec![2, 1]);
    assert_eq!(p.kitties_owned(BOB), vec![0]);
    let k = p.kitties(0).unwrap();
    assert_eq!(k.owner, BOB);
    assert_eq!(k.price, None);
    assert_eq!(b.account_data(ALICE), AccountData { free: 980, reserved: 20 });
    assert_eq!(b.account_data(BOB), AccountData { free: 990, reserved: 10 });
}

#[test]
fn transfer_to_self_fails_without_change() {
    let (mut p, mut b) = setup(5);
    p.create_kitty(&mut b, ALICE, &entropy(1, 1)).unwrap();
    let ledger_before = b.account_data(ALICE);
    assert_eq!(p.transfer(&mut b, ALICE, ALICE, 0), Err(Error::TransferToSelf));
    assert_eq!(p.kitties_owned(ALICE), vec![0]);
    assert_eq!(p.kitties(0).unwrap().owner, ALICE);
    assert_eq!(b.account_data(ALICE), ledger_before);
}

#[test]
fn transfer_errors() {
    let (mut p, mut b) = setup(1);
    let e = entropy(1, 1);
    p.create_kitty(&mut b, ALICE, &e).unwrap();
    p.create_kitty(&mut b, BOB, &e).unwrap();
    assert_eq!(p.transfer(&mut b, BOB, CAROL, 0), Err(Error::NotKittyOwner));
    assert_eq!(p.transfer(&mut b, ALICE, CAROL, 9), Err(Error::KittyNotExist));
    assert_eq!(p.transfer(&mut b, ALICE, BOB, 0), Err(Error::ExceedMaxKittyOwned));
    assert_eq!(p.transfer(&mut b, ALICE, CAROL, 0), Err(Error::NotEnoughBalance));
    assert_eq!(p.kitties(0).unwrap().owner, ALICE);
    assert_eq!(b.account_data(ALICE), AccountData { free: 990, reserved: 10 });
}

#[test]
fn buy_at_ask_price_succeeds() {
    let (mut p, mut b) = setup(5);
    p.create_kitty(&mut b, ALICE, &entropy(1, 1)).unwrap();
    p.set_price(ALICE, 0, Some(100)).unwrap();
    assert_eq!(p.buy_kitty(&mut b, BOB, 0, 100), Ok(Event::Bought(BOB, ALICE, 0, 100)));
    assert_eq!(b.account_data(BOB), AccountData { free: 890, reserved: 10 });
    assert_eq!(b.account_data(ALICE), AccountData { free: 1100, reserved: 0 });
    assert_eq!(p.kitties_owned(ALICE), Vec::<u32>::new());
    assert_eq!(p.kitties_owned(BOB), vec![0]);
    let k = p.kitties(0).unwrap();
    assert_eq!(k.owner, BOB);
    assert_eq!(k.price, None);
}

#[test]
fn buy_above_ask_pays_the_bid() {
    let (mut p, mut b) = setup(5);
    p.create_kitty(&mut b, ALICE, &entropy(1, 1)).unwrap();
    p.set_price(ALICE, 0, Some(100)).unwrap();
    assert_eq!(p.buy_kitty(&mut b, BOB, 0, 150), Ok(Event::Bought(BOB, ALICE, 0, 150)));
    assert_eq!(b.free_balance(BOB), 840);
    assert_eq!(b.free_balance(ALICE), 1150);
}

#[test]
fn buy_errors() {
    let (mut p, mut b) = setup(5);
    p.create_kitty(&mut b, ALICE, &entropy(1, 1)).unwrap();
    assert_eq!(p.buy_kitty(&mut b, BOB, 3, 100), Err(Error::KittyNotExist));
    assert_eq!(p.buy_kitty(&mut b, ALICE, 0, 100), Err(Error::BuyerIsKittyOwner));
    assert_eq!(p.buy_kitty(&mut b, BOB, 0, 100), Err(Error::KittyNotForSale));
    p.set_price(ALICE, 0, Some(100)).unwrap();
    assert_eq!(p.buy_kitty(&mut b, BOB, 0, 99), Err(Error::KittyBidPriceTooLow));
    // the free balance must exceed the bid plus the stake
    assert_eq!(p.buy_kitty(&mut b, BOB, 0, 990), Err(Error::NotEnoughBalance));
    assert_eq!(p.buy_kitty(&mut b, BOB, 0, u128::MAX), Err(Error::NotEnoughBalance));
    assert_eq!(p.kitties(0).unwrap().owner, ALICE);
    assert_eq!(b.account_data(BOB), AccountData { free: 1000, reserved: 0 });
}

#[test]
fn buy_into_full_list_fails() {
    let (mut p, mut b) = setup(1);
    let e = entropy(1, 1);
    p.create_kitty(&mut b, ALICE, &e).unwrap();
    p.create_kitty(&mut b, BOB, &e).unwrap();
    p.set_price(ALICE, 0, Some(1)).unwrap();
    assert_eq!(p.buy_kitty(&mut b, BOB, 0, 1), Err(Error::ExceedMaxKittyOwned));
}

#[test]
fn buy_that_would_overflow_seller_fails() {
    let mut p = Pallet::new(5, STAKE);
    let mut b = Balances::new();
    b.deposit(ALICE, u128::MAX - 5).unwrap();
    b.deposit(BOB, 1000).unwrap();
    p.create_kitty(&mut b, ALICE, &entropy(1, 1)).unwrap();
    p.set_price(ALICE, 0, Some(6)).unwrap();
    assert_eq!(p.buy_kitty(&mut b, BOB, 0, 6), Err(Error::BalanceOverflow));
    assert_eq!(p.kitties(0).unwrap().owner, ALICE);
}

#[test]
fn breed_mints_crossover_of_parents() {
    let (mut p, mut b) = setup(5);
    assert_eq!(p.create_kitty(&mut b, ALICE, &entropy(1, 1)), Ok(Event::Created(ALICE, 0)));
    assert_eq!(p.create_kitty(&mut b, ALICE, &entropy(2, 2)), Ok(Event::Created(ALICE, 1)));
    let e = entropy(3, 3);
    assert_eq!(p.breed_kitty(&mut b, ALICE, 0, 1, &e), Ok(Event::BredSuccess(ALICE, 2, 0, 1)));
    let dna0 = p.kitties(0).unwrap().dna;
    let dna1 = p.kitties(1).unwrap().dna;
    let child = p.kitties(2).unwrap();
    assert_eq!(child.owner, ALICE);
    assert_eq!(child.price, None);
    assert_eq!(child.dna, crossover(&gen_dna(&e), &dna0, &dna1));
    assert_eq!(child.gender, gen_gender(&e.gender_seed));
    assert_eq!(p.breed_dna(0, 1, &e), Ok(child.dna));
    assert_eq!(p.kitties_owned(ALICE), vec![0, 1, 2]);
    assert_eq!(b.account_data(ALICE), AccountData { free: 970, reserved: 30 });
}

#[test]
fn breed_errors() {
    let (mut p, mut b) = setup(2);
    let e = entropy(1, 1);
    p.create_kitty(&mut b, ALICE, &e).unwrap();
    p.create_kitty(&mut b, BOB, &e).unwrap();
    assert_eq!(p.breed_kitty(&mut b, ALICE, 0, 1, &e), Err(Error::NotKittyOwner));
    assert_eq!(p.breed_kitty(&mut b, ALICE, 0, 5, &e), Err(Error::KittyNotExist));
    assert_eq!(p.breed_dna(0, 5, &e), Err(Error::KittyNotExist));
    p.create_kitty(&mut b, ALICE, &e).unwrap();
    assert_eq!(p.breed_kitty(&mut b, ALICE, 0, 2, &e), Err(Error::ExceedMaxKittyOwned));
    assert_eq!(p.breed_kitty(&mut b, CAROL, 0, 2, &e), Err(Error::NotKittyOwner));
    assert_eq!(b.account_data(ALICE), AccountData { free: 980, reserved: 20 });
    assert_eq!(p.last_kitty_id(), 3);
}

#[test]
fn ledger_operations() {
    let mut b = Balances::new();
    assert_eq!(b.deposit(ALICE, 100), Ok(()));
    assert_eq!(b.deposit(ALICE, u128::MAX), Err(Error::BalanceOverflow));
    assert_eq!(b.reserve(ALICE, 101), Err(Error::NotEnoughBalance));
    assert_eq!(b.reserve(ALICE, 40), Ok(()));
    assert_eq!(b.account_data(ALICE), AccountData { free: 60, reserved: 40 });
    assert_eq!(b.unreserve(ALICE, 50), 10);
    assert_eq!(b.reserved_balance(ALICE), 0);
    assert_eq!(b.free_balance(ALICE), 100);
    assert_eq!(b.transfer(ALICE, BOB, 100), Err(Error::NotEnoughBalance));
    assert_eq!(b.transfer(ALICE, BOB, 99), Ok(()));
    assert_eq!(b.free_balance(ALICE), 1);
    assert_eq!(b.free_balance(BOB), 99);
    b.deposit(CAROL, u128::MAX).unwrap();
    assert_eq!(b.transfer(BOB, CAROL, 1), Err(Error::BalanceOverflow));
}
