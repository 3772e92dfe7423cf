use substratekitties::{Error, Event, Kitty, Registry, H256};

fn h(n: u8) -> H256 {
    let mut bytes: Vec<u8> = Vec::new();
    for _ in 0..32u32 {
        bytes.push(n);
    }
    H256 { bytes }
}

fn plain_kitty(id: H256) -> Kitty {
    let dna = id.clone();
    Kitty { id, dna, price: 0, gen: 0 }
}

#[test]
fn auction_window_boundaries() {
    let mut reg = Registry::with_period_limit(10);
    assert_eq!(reg.mint(1, plain_kitty(h(1))), Ok(()));
    let id = reg.kitty_by_index(0).unwrap().clone();
    let current = 100u64;
    // expiry at the current block is rejected
    assert_eq!(
        reg.create_auction(1, &id, 5, current, current),
        Err(Error::AuctionWindowInvalid)
    );
    // one block past the limit is rejected
    assert_eq!(
        reg.create_auction(1, &id, 5, current + 11, current),
        Err(Error::AuctionWindowInvalid)
    );
    // exactly at the limit is accepted
    assert_eq!(reg.create_auction(1, &id, 5, current + 10, current), Ok(()));
}

#[test]
fn auction_records_and_files_by_expiry() {
    let mut reg = Registry::with_period_limit(100);
    assert_eq!(reg.mint(3, plain_kitty(h(9))), Ok(()));
    let id = reg.kitty_by_index(0).unwrap().clone();
    assert_eq!(reg.create_auction(3, &id, 25, 150, 100), Ok(()));
    let auction = reg.auction_of(&id).unwrap();
    assert_eq!(auction.kitty_id.bytes, id.bytes);
    assert_eq!(auction.kitty_owner, 3);
    assert_eq!(auction.expiry, 150);
    assert_eq!(auction.min_bid, 25);
    // the high bid starts at the minimum with the seller as placeholder
    assert_eq!(auction.high_bid, 25);
    assert_eq!(auction.high_bidder, 3);
    let bucket = reg.auctions_expire_at(150).unwrap();
    assert_eq!(bucket.len(), 1);
    assert_eq!(bucket[0].kitty_id.bytes, id.bytes);
    assert!(reg.auctions_expire_at(151).is_none());
}

#[test]
fn auction_requires_the_owner() {
    let mut reg = Registry::with_period_limit(100);
    assert_eq!(reg.mint(3, plain_kitty(h(9))), Ok(()));
    let id = reg.kitty_by_index(0).unwrap().clone();
    assert_eq!(reg.create_auction(4, &id, 25, 150, 100), Err(Error::NotOwner));
    assert_eq!(reg.create_auction(4, &h(8), 25, 150, 100), Err(Error::NotFound));
    assert!(reg.auction_of(&id).is_none());
}

#[test]
fn notifications_follow_the_mutations() {
    let mut reg = Registry::new();
    assert_eq!(reg.mint(1, plain_kitty(h(1))), Ok(()));
    let id = reg.kitty_by_index(0).unwrap().clone();
    assert_eq!(reg.set_price(1, &id, 40), Ok(()));
    reg.set_balance(2, 40);
    assert_eq!(reg.buy_kitty(2, &id, 40), Ok(()));
    assert_eq!(reg.create_auction(2, &id, 7, 50, 10), Ok(()));
    let events = reg.events();
    assert_eq!(events.len(), 5);
    match &events[0] {
        Event::Created(owner, eid) => {
            assert_eq!(*owner, 1);
            assert_eq!(eid.bytes, id.bytes);
        }
        _ => panic!("expected a Created notification"),
    }
    match &events[1] {
        Event::PriceSet(owner, eid, price) => {
            assert_eq!(*owner, 1);
            assert_eq!(eid.bytes, id.bytes);
            assert_eq!(*price, 40);
        }
        _ => panic!("expected a PriceSet notification"),
    }
    match &events[2] {
        Event::Transferred(from, to, eid) => {
            assert_eq!(*from, 1);
            assert_eq!(*to, 2);
            assert_eq!(eid.bytes, id.bytes);
        }
        _ => panic!("expected a Transferred notification"),
    }
    match &events[3] {
        Event::Bought(buyer, seller, eid, price) => {
            assert_eq!(*buyer, 2);
            assert_eq!(*seller, 1);
            assert_eq!(eid.bytes, id.bytes);
            assert_eq!(*price, 40);
        }
        _ => panic!("expected a Bought notification"),
    }
    match &events[4] {
        Event::AuctionCreated(eid, min_bid, expiry) => {
            assert_eq!(eid.bytes, id.bytes);
            assert_eq!(*min_bid, 7);
            assert_eq!(*expiry, 50);
        }
        _ => panic!("expected an AuctionCreated notification"),
    }
}

#[test]
fn marketplace_scenario() {
    let alice = 11u64;
    let bob = 22u64;
    let mut reg = Registry::new();
    // mint a token for each account
    assert_eq!(reg.create_kitty(alice, 1), Ok(()));
    assert_eq!(reg.all_kitties_count(), 1);
    assert_eq!(reg.create_kitty(bob, 2), Ok(()));
    assert_eq!(reg.all_kitties_count(), 2);
    let a = reg.kitty_by_index(0).unwrap().clone();
    let b = reg.kitty_by_index(1).unwrap().clone();
    assert_ne!(a.bytes, b.bytes);
    // the sale
    assert_eq!(reg.set_price(alice, &a, 100), Ok(()));
    reg.set_balance(bob, 200);
    assert_eq!(reg.buy_kitty(bob, &a, 150), Ok(()));
    assert_eq!(reg.owner_of(&a), Some(bob));
    assert_eq!(reg.owned_kitty_count(bob), 2);
    assert_eq!(reg.owned_kitty_count(alice), 0);
    assert_eq!(reg.kitty(&a).unwrap().price, 0);
    assert_eq!(reg.balance_of(bob), 100);
    assert_eq!(reg.balance_of(alice), 100);
    // breeding the two tokens
    assert_eq!(reg.breed_kitty(bob, &a, &b, 3), Ok(()));
    assert_eq!(reg.all_kitties_count(), 3);
    let c = reg.kitty_by_index(2).unwrap().clone();
    assert_eq!(reg.owner_of(&c), Some(bob));
    assert_eq!(reg.kitty(&c).unwrap().gen, 1);
    assert_eq!(reg.owned_kitty_count(bob), 3);
}
