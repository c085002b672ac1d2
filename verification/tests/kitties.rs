//! The five ledger scenarios: minting, transferring, breeding, listing and
//! purchasing, each driven through the public operations.

use kitties::{Config, Error, Event, Pallet};

/// Accounts 0, 1 and 2 start with 200, 300 and 400; the reservation fee is 4
/// and the liveness floor 1.
fn new_test_ext() -> Pallet {
    let mut p = Pallet::new(Config { reservation_fee: 4, existential_deposit: 1 });
    p.set_balance(0, 200);
    p.set_balance(1, 300);
    p.set_balance(2, 400);
    p
}

fn seed() -> [u8; 32] {
    [0u8; 32]
}

#[test]
fn create_kitties_work() {
    let mut p = new_test_ext();
    assert!(p.create(0, &seed(), None).is_ok());
    assert_eq!(p.free_balance(0), 196);
    assert_eq!(p.owner(0), Some(0));
    assert_eq!(p.kitties_count().unwrap(), 1);
    assert_eq!(p.kittybabies(0)[0], 0);
}

#[test]
fn transfer_kitty_work() {
    let mut p = new_test_ext();
    assert!(p.create(0, &seed(), None).is_ok());
    assert_eq!(p.kittybabies(0)[0], 0);
    assert!(p.transfer(0, 1, 0).is_ok());
    assert_eq!(p.kittybabies(0).len(), 0);
    assert_eq!(p.kittybabies(1)[0], 0);
    assert_eq!(p.transfer(0, 1, 0), Err(Error::NotOwner));
    assert_eq!(p.owner(0), Some(1));
}

#[test]
fn breed_kitty_work() {
    let mut p = new_test_ext();
    assert!(p.create(0, &seed(), None).is_ok());
    assert!(p.create(0, &seed(), None).is_ok());
    assert!(p.breed(0, 0, 1, &seed(), None).is_ok());
    assert_eq!(p.owner(2), Some(0));
    assert_eq!(p.kittybabies(0).len(), 3);
    assert_eq!(p.kittybabies(0)[2], 2);
    assert!(p.create(1, &seed(), None).is_ok());
    assert_eq!(p.kitties_count().unwrap(), 4);
}

#[test]
fn sell_kitty_work() {
    let mut p = new_test_ext();
    assert!(p.create(0, &seed(), None).is_ok());
    assert!(p.create(1, &seed(), None).is_ok());
    assert!(p.sell_kitties(0, 0, 20).is_ok());
    assert_eq!(p.kittymarket(0), 20);
    assert_eq!(p.sell_kitties(1, 0, 30), Err(Error::NotOwner));
}

#[test]
fn buy_kitty_work() {
    let mut p = new_test_ext();
    assert!(p.create(0, &seed(), None).is_ok());
    assert!(p.sell_kitties(0, 0, 20).is_ok());
    assert!(p.buy_kitties(1, 0).is_ok());
    assert_eq!(p.owner(0), Some(1));
    assert_eq!(p.kittybabies(0).len(), 0);
    assert_eq!(p.kittybabies(1)[0], 0);
    assert_eq!(p.buy_kitties(2, 0), Err(Error::InvalidKittyIndex));
}

#[test]
fn create_places_reservation_and_emits_event() {
    let mut p = new_test_ext();
    assert!(p.create(0, &seed(), None).is_ok());
    assert_eq!(p.reserved_balance(0), 4);
    assert_eq!(p.free_balance(0), 196);
    let evs = p.events();
    assert_eq!(evs.len(), 1);
    assert_eq!(evs[0], Event::KittyCreate(0, 0));
}

#[test]
fn create_fails_without_funds() {
    let mut p = new_test_ext();
    p.set_balance(5, 2);
    assert_eq!(p.create(5, &seed(), None), Err(Error::NoSufficientBalance));
    assert_eq!(p.free_balance(5), 2);
    assert_eq!(p.kitties_count(), None);
}

#[test]
fn dna_is_the_hash_of_the_payload() {
    // Blake2b-128 of the 41-byte payload: 32 seed bytes, the caller's id in
    // eight little-endian bytes, and one absent-call-index byte.
    let mut p = new_test_ext();
    assert!(p.create(0, &seed(), None).is_ok());
    assert!(p.create(1, &seed(), None).is_ok());
    let dna0 = [
        203u8, 196, 164, 177, 232, 177, 125, 51, 187, 110, 161, 156, 235, 158, 148, 34,
    ];
    let dna1 = [
        94u8, 85, 93, 3, 146, 178, 228, 254, 65, 171, 235, 35, 69, 153, 176, 209,
    ];
    assert_eq!(p.kitties(0).unwrap().0, dna0);
    assert_eq!(p.kitties(1).unwrap().0, dna1);
}

#[test]
fn breeding_is_deterministic_and_mixes_bits() {
    let mut p = new_test_ext();
    let mut q = new_test_ext();
    assert!(p.create(0, &seed(), None).is_ok());
    assert!(p.create(0, &seed(), Some(1)).is_ok());
    assert!(p.breed(0, 0, 1, &seed(), Some(2)).is_ok());
    assert!(q.create(0, &seed(), None).is_ok());
    assert!(q.create(0, &seed(), Some(1)).is_ok());
    assert!(q.breed(0, 0, 1, &seed(), Some(2)).is_ok());
    let child_p = p.kitties(2).unwrap().0;
    let child_q = q.kitties(2).unwrap().0;
    assert_eq!(child_p, child_q);
    // Each child bit comes from one of the two parents.
    let a = p.kitties(0).unwrap().0;
    let b = p.kitties(1).unwrap().0;
    for i in 0..16 {
        for k in 0..8 {
            let bit = (child_p[i] >> k) & 1;
            assert!(bit == (a[i] >> k) & 1 || bit == (b[i] >> k) & 1);
        }
    }
}

#[test]
fn breed_rejects_one_parent() {
    let mut p = new_test_ext();
    assert!(p.create(0, &seed(), None).is_ok());
    assert_eq!(p.breed(0, 0, 0, &seed(), None), Err(Error::SameParentIndex));
    assert_eq!(p.breed(0, 7, 7, &seed(), None), Err(Error::SameParentIndex));
    assert_eq!(p.breed(0, 0, 9, &seed(), None), Err(Error::InvalidKittyIndex));
}

#[test]
fn marketplace_round_trip_moves_money_and_consumes_listing() {
    let mut p = new_test_ext();
    assert!(p.create(0, &seed(), None).is_ok());
    assert!(p.sell_kitties(0, 0, 20).is_ok());
    assert!(p.buy_kitties(1, 0).is_ok());
    assert_eq!(p.owner(0), Some(1));
    assert_eq!(p.kittymarket(0), 0);
    // The seller got the price and the released hold back.
    assert_eq!(p.free_balance(0), 196 + 20 + 4);
    assert_eq!(p.reserved_balance(0), 0);
    assert_eq!(p.free_balance(1), 300 - 20);
    assert_eq!(p.buy_kitties(2, 0), Err(Error::InvalidKittyIndex));
    let evs = p.events();
    assert_eq!(evs.len(), 3);
    assert_eq!(evs[1], Event::SellingKitty(0, 20));
    assert_eq!(evs[2], Event::SeltKitty(0, 0, 1));
}

#[test]
fn zero_price_listing_is_unlisted() {
    let mut p = new_test_ext();
    assert!(p.create(0, &seed(), None).is_ok());
    assert!(p.sell_kitties(0, 0, 0).is_ok());
    assert_eq!(p.kittymarket(0), 0);
    assert_eq!(p.buy_kitties(1, 0), Err(Error::InvalidKittyIndex));
}

#[test]
fn buyer_needs_strictly_more_than_the_price() {
    let mut p = new_test_ext();
    assert!(p.create(0, &seed(), None).is_ok());
    assert!(p.sell_kitties(0, 0, 400).is_ok());
    // Account 2 holds exactly the price: rejected.
    assert_eq!(p.buy_kitties(2, 0), Err(Error::NoSufficientBalance));
    assert_eq!(p.owner(0), Some(0));
    assert_eq!(p.kittymarket(0), 400);
}

#[test]
fn ledger_scenario_with_breeding() {
    // Account 0 starts at 200 with a fee of 4.
    let mut p = new_test_ext();
    assert!(p.create(0, &seed(), None).is_ok());
    assert_eq!(p.free_balance(0), 196);
    assert_eq!(p.kitties_count(), Some(1));
    assert_eq!(p.kittybabies(0), vec![0]);
    assert!(p.create(1, &seed(), None).is_ok());
    assert_eq!(p.kitties_count(), Some(2));
    assert!(p.breed(0, 0, 1, &seed(), None).is_ok());
    assert_eq!(p.owner(2), Some(0));
    assert_eq!(p.kittybabies(0), vec![0, 2]);
    // Breeding placed no new hold.
    assert_eq!(p.reserved_balance(0), 4);
    assert_eq!(p.free_balance(0), 196);
}

#[test]
fn transfer_moves_the_hold() {
    let mut p = new_test_ext();
    assert!(p.create(0, &seed(), None).is_ok());
    assert_eq!(p.reserved_balance(0), 4);
    assert!(p.transfer(0, 1, 0).is_ok());
    assert_eq!(p.reserved_balance(0), 0);
    assert_eq!(p.free_balance(0), 200);
    assert_eq!(p.reserved_balance(1), 4);
    assert_eq!(p.free_balance(1), 296);
    let evs = p.events();
    assert_eq!(evs[1], Event::KittyTransfer(0, 1, 0));
}

#[test]
fn transfer_fails_when_new_owner_cannot_cover_the_hold() {
    let mut p = new_test_ext();
    assert!(p.create(0, &seed(), None).is_ok());
    p.set_balance(7, 3);
    assert_eq!(p.transfer(0, 7, 0), Err(Error::NoSufficientBalance));
    assert_eq!(p.owner(0), Some(0));
    assert_eq!(p.kittybabies(0), vec![0]);
}

#[test]
fn market_query_reports_listings_newest_first() {
    let mut p = new_test_ext();
    assert_eq!(p.query_kittiy_market_info().len(), 0);
    assert!(p.create(0, &seed(), None).is_ok());
    assert!(p.create(1, &seed(), None).is_ok());
    assert!(p.create(0, &seed(), Some(1)).is_ok());
    assert!(p.sell_kitties(0, 0, 25).is_ok());
    assert!(p.sell_kitties(1, 1, 40).is_ok());
    let report = p.query_kittiy_market_info();
    assert_eq!(report.len(), 2);
    assert_eq!(report[0].kitty_index, 1);
    assert_eq!(report[0].info.owner, 1);
    assert_eq!(report[0].info.price, 40);
    assert_eq!(report[0].info.kitty_dna, p.kitties(1).unwrap());
    assert_eq!(report[1].kitty_index, 0);
    assert_eq!(report[1].info.owner, 0);
    assert_eq!(report[1].info.price, 25);
    // A purchase consumes the listing and drops it from the report.
    assert!(p.buy_kitties(2, 1).is_ok());
    let report = p.query_kittiy_market_info();
    assert_eq!(report.len(), 1);
    assert_eq!(report[0].kitty_index, 0);
}
