use vstd::prelude::*;

use crate::hash256::H256;

verus! {

/// A collectible token record. Identity is the 256-bit `id`; the genetic
/// payload `dna` and the generation `gen` are fixed at creation, while
/// `price` may be rewritten (zero means "not for sale").
pub struct Kitty {
    pub id: H256,
    pub dna: H256,
    pub price: u64,
    pub gen: u64,
}

/// The mathematical value of a [`Kitty`].
pub struct KittyView {
    pub id: Seq<u8>,
    pub dna: Seq<u8>,
    pub price: u64,
    pub gen: u64,
}

impl View for Kitty {
    type V = KittyView;

    open spec fn view(&self) -> KittyView {
        KittyView { id: self.id@, dna: self.dna@, price: self.price, gen: self.gen }
    }
}

impl Kitty {
    /// A record is well formed when both 256-bit fields hold 32 bytes.
    pub open spec fn wf(self) -> bool {
        self.id.wf() && self.dna.wf()
    }
}

/// A time-bounded auction over one token. `high_bid` starts at `min_bid`
/// and `high_bidder` at the seller, a sentinel meaning "no real bid yet".
pub struct Auction {
    pub kitty_id: H256,
    pub kitty_owner: u64,
    pub expiry: u64,
    pub min_bid: u64,
    pub high_bid: u64,
    pub high_bidder: u64,
}

/// The mathematical value of an [`Auction`].
pub struct AuctionView {
    pub kitty_id: Seq<u8>,
    pub kitty_owner: u64,
    pub expiry: u64,
    pub min_bid: u64,
    pub high_bid: u64,
    pub high_bidder: u64,
}

impl View for Auction {
    type V = AuctionView;

    open spec fn view(&self) -> AuctionView {
        AuctionView {
            kitty_id: self.kitty_id@,
            kitty_owner: self.kitty_owner,
            expiry: self.expiry,
            min_bid: self.min_bid,
            high_bid: self.high_bid,
            high_bidder: self.high_bidder,
        }
    }
}

impl Auction {
    /// An auction is well formed when its token identifier holds 32 bytes.
    pub open spec fn wf(self) -> bool {
        self.kitty_id.wf()
    }
}

impl Clone for Auction {
    /// Clones the auction; the copy has the same mathematical value.
    fn clone(&self) -> (r: Self)
        ensures
            r@ == self@,
    {
        Auction {
            kitty_id: self.kitty_id.clone(),
            kitty_owner: self.kitty_owner,
            expiry: self.expiry,
            min_bid: self.min_bid,
            high_bid: self.high_bid,
            high_bidder: self.high_bidder,
        }
    }
}

/// Why an operation was rejected. Every operation either succeeds or
/// returns exactly one of these kinds and leaves the store unchanged.
#[derive(Clone, Copy, PartialEq, Eq, Debug)]
pub enum Error {
    /// The named token has no ownership record.
    NotFound,
    /// The requesting account does not stand in the required ownership
    /// relation to the token (it is not the owner, or, for a purchase,
    /// it already is the owner).
    NotOwner,
    /// A freshly derived identifier collided with an existing record.
    DuplicateId,
    /// A counter or a balance would exceed its maximum representable value.
    CounterOverflow,
    /// Removal was attempted from an empty index. No operation of this
    /// module produces it while the registry invariant holds; the kind is
    /// part of the error taxonomy for completeness.
    CounterUnderflow,
    /// The token's price is zero.
    NotForSale,
    /// The token's price exceeds the buyer's limit.
    PriceTooHigh,
    /// The buyer's balance does not cover the price.
    InsufficientFunds,
    /// An auction expiry not after the current block, or further away
    /// than the configured period limit.
    AuctionWindowInvalid,
}

/// A notification recorded after a successful mutation.
pub enum Event {
    /// `Created(owner, id)`: a token was minted.
    Created(u64, H256),
    /// `PriceSet(owner, id, new_price)`.
    PriceSet(u64, H256, u64),
    /// `Transferred(from, to, id)`.
    Transferred(u64, u64, H256),
    /// `Bought(buyer, seller, id, price)`.
    Bought(u64, u64, H256, u64),
    /// `AuctionCreated(id, min_bid, expiry)`.
    AuctionCreated(H256, u64, u64),
}

/// The mathematical value of an [`Event`].
pub enum EventView {
    Created(u64, Seq<u8>),
    PriceSet(u64, Seq<u8>, u64),
    Transferred(u64, u64, Seq<u8>),
    Bought(u64, u64, Seq<u8>, u64),
    AuctionCreated(Seq<u8>, u64, u64),
}

impl View for Event {
    type V = EventView;

    open spec fn view(&self) -> EventView {
        match self {
            Event::Created(owner, id) => EventView::Created(*owner, id@),
            Event::PriceSet(owner, id, price) => EventView::PriceSet(*owner, id@, *price),
            Event::Transferred(from, to, id) => EventView::Transferred(*from, *to, id@),
            Event::Bought(buyer, seller, id, price) => EventView::Bought(
                *buyer,
                *seller,
                id@,
                *price,
            ),
            Event::AuctionCreated(id, min_bid, expiry) => EventView::AuctionCreated(
                id@,
                *min_bid,
                *expiry,
            ),
        }
    }
}

} // verus!
