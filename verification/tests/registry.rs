use substratekitties::{Error, Kitty, Registry, H256};

fn h(n: u8) -> H256 {
    let mut bytes: Vec<u8> = Vec::new();
    for i in 0..32u32 {
        bytes.push(n.wrapping_add(i as u8));
    }
    H256 { bytes }
}

fn plain_kitty(id: H256, gen: u64) -> Kitty {
    let dna = id.clone();
    Kitty { id, dna, price: 0, gen }
}

fn owned_ids_sorted(reg: &Registry, owner: u64) -> Vec<Vec<u8>> {
    let mut out: Vec<Vec<u8>> = Vec::new();
    let count = reg.owned_kitty_count(owner);
    for i in 0..count {
        let id = reg.kitty_of_owner_by_index(owner, i).unwrap();
        out.push(id.bytes.clone());
    }
    out.sort();
    out
}

#[test]
fn create_kitty_registers_token() {
    let mut reg = Registry::new();
    assert_eq!(reg.all_kitties_count(), 0);
    assert_eq!(reg.create_kitty(1, 42), Ok(()));
    assert_eq!(reg.all_kitties_count(), 1);
    let id = reg.kitty_by_index(0).unwrap().clone();
    assert_eq!(reg.owner_of(&id), Some(1));
    let kitty = reg.kitty(&id).unwrap();
    assert_eq!(kitty.price, 0);
    assert_eq!(kitty.gen, 0);
    assert_eq!(kitty.dna.bytes, id.bytes);
    assert_eq!(reg.owned_kitty_count(1), 1);
    assert_eq!(reg.kitty_of_owner_by_index(1, 0).unwrap().bytes, id.bytes);
}

#[test]
fn create_kitty_is_deterministic() {
    let mut a = Registry::new();
    let mut b = Registry::new();
    assert_eq!(a.create_kitty(7, 99), Ok(()));
    assert_eq!(b.create_kitty(7, 99), Ok(()));
    let ia = a.kitty_by_index(0).unwrap().clone();
    let ib = b.kitty_by_index(0).unwrap().clone();
    assert_eq!(ia.bytes, ib.bytes);
    // a different nonce gives a different identifier
    assert_eq!(a.create_kitty(7, 99), Ok(()));
    let ia2 = a.kitty_by_index(1).unwrap().clone();
    assert_ne!(ia.bytes, ia2.bytes);
}

#[test]
fn mint_rejects_duplicate_identifier() {
    let mut reg = Registry::new();
    assert_eq!(reg.mint(1, plain_kitty(h(5), 0)), Ok(()));
    assert_eq!(reg.mint(2, plain_kitty(h(5), 0)), Err(Error::DuplicateId));
    assert_eq!(reg.all_kitties_count(), 1);
    assert_eq!(reg.owned_kitty_count(2), 0);
}

#[test]
fn global_index_enumerates_minted_ids() {
    let mut reg = Registry::new();
    for n in 0..5u8 {
        assert_eq!(reg.mint(1, plain_kitty(h(n.wrapping_mul(40)), 0)), Ok(()));
    }
    assert_eq!(reg.all_kitties_count(), 5);
    for i in 0..5u64 {
        let id = reg.kitty_by_index(i).unwrap().clone();
        assert_eq!(reg.owner_of(&id), Some(1));
    }
}

#[test]
fn transfer_moves_ownership() {
    let mut reg = Registry::new();
    assert_eq!(reg.mint(1, plain_kitty(h(1), 0)), Ok(()));
    let id = reg.kitty_by_index(0).unwrap().clone();
    assert_eq!(reg.transfer(1, 2, &id), Ok(()));
    assert_eq!(reg.owner_of(&id), Some(2));
    assert_eq!(reg.owned_kitty_count(1), 0);
    assert_eq!(reg.owned_kitty_count(2), 1);
}

#[test]
fn transfer_round_trip_restores_sets() {
    let mut reg = Registry::new();
    assert_eq!(reg.mint(1, plain_kitty(h(1), 0)), Ok(()));
    assert_eq!(reg.mint(1, plain_kitty(h(2), 0)), Ok(()));
    assert_eq!(reg.mint(1, plain_kitty(h(3), 0)), Ok(()));
    assert_eq!(reg.mint(2, plain_kitty(h(4), 0)), Ok(()));
    let before_1 = owned_ids_sorted(&reg, 1);
    let before_2 = owned_ids_sorted(&reg, 2);
    // move the first of owner 1's three tokens there and back, which
    // exercises the swap-and-pop path
    let id = reg.kitty_of_owner_by_index(1, 0).unwrap().clone();
    assert_eq!(reg.transfer(1, 2, &id), Ok(()));
    assert_eq!(reg.transfer(2, 1, &id), Ok(()));
    assert_eq!(reg.owner_of(&id), Some(1));
    assert_eq!(owned_ids_sorted(&reg, 1), before_1);
    assert_eq!(owned_ids_sorted(&reg, 2), before_2);
}

#[test]
fn owner_enumeration_matches_ownership_records() {
    let mut reg = Registry::new();
    assert_eq!(reg.mint(1, plain_kitty(h(1), 0)), Ok(()));
    assert_eq!(reg.mint(2, plain_kitty(h(2), 0)), Ok(()));
    assert_eq!(reg.mint(1, plain_kitty(h(3), 0)), Ok(()));
    assert_eq!(reg.mint(3, plain_kitty(h(4), 0)), Ok(()));
    let id = reg.kitty_of_owner_by_index(1, 0).unwrap().clone();
    assert_eq!(reg.transfer(1, 3, &id), Ok(()));
    for owner in 1..=3u64 {
        // the ids enumerated for an owner are exactly those whose
        // ownership record names the owner, with no duplicates
        let enumerated = owned_ids_sorted(&reg, owner);
        let mut deduped = enumerated.clone();
        deduped.dedup();
        assert_eq!(enumerated, deduped);
        let mut expected: Vec<Vec<u8>> = Vec::new();
        for i in 0..reg.all_kitties_count() {
            let cand = reg.kitty_by_index(i).unwrap().clone();
            if reg.owner_of(&cand) == Some(owner) {
                expected.push(cand.bytes);
            }
        }
        expected.sort();
        assert_eq!(enumerated, expected);
    }
}

#[test]
fn transfer_rejects_unknown_and_foreign_tokens() {
    let mut reg = Registry::new();
    assert_eq!(reg.mint(1, plain_kitty(h(1), 0)), Ok(()));
    let id = reg.kitty_by_index(0).unwrap().clone();
    assert_eq!(reg.transfer(1, 2, &h(200)), Err(Error::NotFound));
    assert_eq!(reg.transfer(2, 3, &id), Err(Error::NotOwner));
    assert_eq!(reg.owner_of(&id), Some(1));
}

#[test]
fn set_price_updates_only_the_price() {
    let mut reg = Registry::new();
    assert_eq!(reg.mint(1, plain_kitty(h(1), 3)), Ok(()));
    let id = reg.kitty_by_index(0).unwrap().clone();
    assert_eq!(reg.set_price(1, &id, 250), Ok(()));
    let kitty = reg.kitty(&id).unwrap();
    assert_eq!(kitty.price, 250);
    assert_eq!(kitty.gen, 3);
    assert_eq!(kitty.id.bytes, id.bytes);
    assert_eq!(reg.set_price(2, &id, 9), Err(Error::NotOwner));
    assert_eq!(reg.set_price(1, &h(77), 9), Err(Error::NotFound));
    assert_eq!(reg.kitty(&id).unwrap().price, 250);
}

#[test]
fn buy_rejects_bad_requests() {
    let mut reg = Registry::new();
    assert_eq!(reg.mint(1, plain_kitty(h(1), 0)), Ok(()));
    let id = reg.kitty_by_index(0).unwrap().clone();
    assert_eq!(reg.buy_kitty(2, &h(66), 10), Err(Error::NotFound));
    assert_eq!(reg.buy_kitty(1, &id, 10), Err(Error::NotOwner));
    assert_eq!(reg.buy_kitty(2, &id, 10), Err(Error::NotForSale));
    assert_eq!(reg.set_price(1, &id, 100), Ok(()));
    assert_eq!(reg.buy_kitty(2, &id, 99), Err(Error::PriceTooHigh));
    reg.set_balance(2, 50);
    assert_eq!(reg.buy_kitty(2, &id, 150), Err(Error::InsufficientFunds));
    reg.set_balance(2, 150);
    reg.set_balance(1, u64::MAX - 99);
    assert_eq!(reg.buy_kitty(2, &id, 150), Err(Error::CounterOverflow));
    // nothing changed along the way
    assert_eq!(reg.owner_of(&id), Some(1));
    assert_eq!(reg.kitty(&id).unwrap().price, 100);
    assert_eq!(reg.balance_of(2), 150);
}

#[test]
fn buy_moves_token_price_and_funds() {
    let mut reg = Registry::new();
    assert_eq!(reg.mint(1, plain_kitty(h(1), 0)), Ok(()));
    let id = reg.kitty_by_index(0).unwrap().clone();
    assert_eq!(reg.set_price(1, &id, 100), Ok(()));
    reg.set_balance(1, 5);
    reg.set_balance(2, 150);
    assert_eq!(reg.buy_kitty(2, &id, 150), Ok(()));
    assert_eq!(reg.owner_of(&id), Some(2));
    assert_eq!(reg.kitty(&id).unwrap().price, 0);
    assert_eq!(reg.balance_of(1), 105);
    assert_eq!(reg.balance_of(2), 50);
    assert_eq!(reg.owned_kitty_count(1), 0);
    assert_eq!(reg.owned_kitty_count(2), 1);
}

#[test]
fn breed_mixes_parent_payloads() {
    let mut reg = Registry::new();
    assert_eq!(reg.mint(1, plain_kitty(h(10), 2)), Ok(()));
    assert_eq!(reg.mint(1, plain_kitty(h(111), 5)), Ok(()));
    let p1 = reg.kitty_by_index(0).unwrap().clone();
    let p2 = reg.kitty_by_index(1).unwrap().clone();
    assert_eq!(reg.breed_kitty(1, &p1, &p2, 1234), Ok(()));
    assert_eq!(reg.all_kitties_count(), 3);
    let child_id = reg.kitty_by_index(2).unwrap().clone();
    let child = reg.kitty(&child_id).unwrap();
    assert_eq!(child.gen, 6);
    assert_eq!(child.price, 0);
    let d1 = reg.kitty(&p1).unwrap().dna.bytes.clone();
    let d2 = reg.kitty(&p2).unwrap().dna.bytes.clone();
    let dc = reg.kitty(&child_id).unwrap().dna.bytes.clone();
    assert_eq!(dc.len(), 32);
    for i in 0..32usize {
        // every byte comes from one of the two parents, chosen by the
        // parity of the derived identifier's byte
        assert!(dc[i] == d1[i] || dc[i] == d2[i]);
        if child_id.bytes[i] % 2 == 0 {
            assert_eq!(dc[i], d2[i]);
        } else {
            assert_eq!(dc[i], d1[i]);
        }
    }
}

#[test]
fn breed_requires_both_parents() {
    let mut reg = Registry::new();
    assert_eq!(reg.mint(1, plain_kitty(h(10), 0)), Ok(()));
    let p1 = reg.kitty_by_index(0).unwrap().clone();
    assert_eq!(reg.breed_kitty(1, &p1, &h(200), 7), Err(Error::NotFound));
    assert_eq!(reg.breed_kitty(1, &h(200), &p1, 7), Err(Error::NotFound));
    assert_eq!(reg.all_kitties_count(), 1);
}
