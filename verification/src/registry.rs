use vstd::prelude::*;

use crate::hash256::H256;
use crate::tables::{IdTable, NumTable};
use crate::types::{Auction, AuctionView, Error, Event, EventView, Kitty, KittyView};

verus! {

/// Default bound on how far in the future an auction may expire,
/// roughly one day's worth of blocks.
pub const DEFAULT_AUCTION_PERIOD_LIMIT: u64 = 17280;

/// The genetic payload of an offspring: byte positions where the freshly
/// derived identifier `r` carries an even byte take the second parent's
/// byte, the others keep the first parent's byte.
pub open spec fn mix_dna(r: Seq<u8>, d1: Seq<u8>, d2: Seq<u8>) -> Seq<u8> {
    Seq::new(
        d1.len(),
        |i: int|
            if r[i] % 2 == 0 {
                d2[i]
            } else {
                d1[i]
            },
    )
}

/// Appending an element to a sequence adds it to the sequence's set.
proof fn lemma_push_to_set(s: Seq<Seq<u8>>, x: Seq<u8>)
    ensures
        s.push(x).to_set() == s.to_set().insert(x),
{
    assert forall|k: Seq<u8>| s.push(x).to_set().contains(k) implies s.to_set().insert(x).contains(
        k,
    ) by {
        let i = choose|i: int| 0 <= i < s.push(x).len() && s.push(x)[i] == k;
        if i < s.len() {
            assert(s[i] == k);
        }
    }
    assert forall|k: Seq<u8>| s.to_set().insert(x).contains(k) implies s.push(x).to_set().contains(
        k,
    ) by {
        if k == x {
            assert(s.push(x)[s.len() as int] == k);
        } else {
            let i = choose|i: int| 0 <= i < s.len() && s[i] == k;
            assert(s.push(x)[i] == k);
        }
    }
    assert(s.push(x).to_set() =~= s.to_set().insert(x));
}

/// Swap-and-pop removal: moving the last element into the removed slot
/// and dropping the last slot removes exactly the element that sat in
/// the slot, when the sequence has no duplicates.
proof fn lemma_swap_remove_to_set(s: Seq<Seq<u8>>, pos: int)
    requires
        0 <= pos < s.len(),
        forall|i: int, j: int| 0 <= i < j < s.len() ==> s[i] != s[j],
    ensures
        s.update(pos, s.last()).drop_last().to_set() == s.to_set().remove(s[pos]),
{
    let t = s.update(pos, s.last()).drop_last();
    let n = s.len() as int;
    assert forall|k: Seq<u8>| t.to_set().contains(k) implies s.to_set().remove(s[pos]).contains(
        k,
    ) by {
        let i = choose|i: int| 0 <= i < t.len() && t[i] == k;
        if i == pos {
            assert(k == s[n - 1]);
            assert(pos < n - 1);
        } else {
            assert(k == s[i]);
        }
        assert(s.contains(k));
        assert(k != s[pos]);
    }
    assert forall|k: Seq<u8>| s.to_set().remove(s[pos]).contains(k) implies t.to_set().contains(
        k,
    ) by {
        let j = choose|j: int| 0 <= j < s.len() && s[j] == k;
        assert(j != pos);
        if j == n - 1 {
            assert(pos < n - 1);
            assert(t[pos] == k);
        } else {
            assert(t[j] == k);
        }
    }
    assert(t.to_set() =~= s.to_set().remove(s[pos]));
}

/// The shared store of the module: token records, ownership records, the
/// two enumerable indices (global and per owner), the auction book, the
/// modelled account balances, the nonce and the event log.
///
/// Every operation takes the requesting account as a plain value; the
/// host environment is responsible for authenticating it. Operations
/// either fully succeed or return an [`Error`] and leave every field
/// unchanged.
///
/// The fields are public so the specification functions over them can
/// be open; build values through [`Registry::new`] or
/// [`Registry::with_period_limit`], which establish the invariant
/// [`Registry::wf`] that every operation requires and preserves.
pub struct Registry {
    pub kitties: IdTable<Kitty>,
    pub kitty_owner: IdTable<u64>,
    pub all_kitties: Vec<H256>,
    pub all_kitties_index: IdTable<u64>,
    pub owned_kitties: NumTable<Vec<H256>>,
    pub owned_kitties_index: IdTable<u64>,
    pub kitty_auction: IdTable<Auction>,
    pub auctions: NumTable<Vec<Auction>>,
    pub balances: NumTable<u64>,
    pub auction_period_limit: u64,
    pub nonce: u64,
    pub events: Vec<Event>,
}

impl Registry {
    /// Ownership records: identifier bytes to owning account.
    pub open spec fn owners(self) -> Map<Seq<u8>, u64> {
        self.kitty_owner@
    }

    /// Token records: identifier bytes to record.
    pub open spec fn tokens(self) -> Map<Seq<u8>, Kitty> {
        self.kitties@
    }

    /// The global dense array of minted identifiers, in mint order.
    pub open spec fn all_ids(self) -> Seq<Seq<u8>> {
        self.all_kitties@.map_values(|k: H256| k@)
    }

    /// The dense array of identifiers currently owned by `owner`.
    pub open spec fn owned_ids(self, owner: u64) -> Seq<Seq<u8>> {
        if self.owned_kitties@.contains_key(owner) {
            self.owned_kitties@[owner]@.map_values(|k: H256| k@)
        } else {
            Seq::empty()
        }
    }

    /// The set of identifiers currently owned by `owner`.
    pub open spec fn owned_set(self, owner: u64) -> Set<Seq<u8>> {
        self.owned_ids(owner).to_set()
    }

    /// The modelled balance of an account; absent records mean zero.
    pub open spec fn balance_of_spec(self, who: u64) -> u64 {
        if self.balances@.contains_key(who) {
            self.balances@[who]
        } else {
            0
        }
    }

    /// Auctions keyed by token identifier.
    pub open spec fn auction_map(self) -> Map<Seq<u8>, Auction> {
        self.kitty_auction@
    }

    /// The auctions filed to expire at `block`, in creation order.
    pub open spec fn bucket(self, block: u64) -> Seq<Auction> {
        if self.auctions@.contains_key(block) {
            self.auctions@[block]@
        } else {
            Seq::empty()
        }
    }

    /// The recorded notifications, as mathematical values.
    pub open spec fn event_log(self) -> Seq<EventView> {
        self.events@.map_values(|e: Event| e@)
    }

    /// The auctions filed to expire at `block`, as mathematical values.
    pub open spec fn bucket_views(self, block: u64) -> Seq<AuctionView> {
        self.bucket(block).map_values(|a: Auction| a@)
    }

    pub open spec fn tables_wf(self) -> bool {
        &&& self.kitties.wf()
        &&& self.kitty_owner.wf()
        &&& self.all_kitties_index.wf()
        &&& self.owned_kitties.wf()
        &&& self.owned_kitties_index.wf()
        &&& self.kitty_auction.wf()
        &&& self.auctions.wf()
        &&& self.balances.wf()
    }

    /// The global array and its reverse map mirror the ownership records:
    /// every array slot holds a minted id whose recorded position is that
    /// slot, and every minted id is found where its position says.
    pub open spec fn global_index_wf(self) -> bool {
        &&& forall|p: int|
            0 <= p < self.all_ids().len() ==> self.owners().contains_key(
                #[trigger] self.all_ids()[p],
            )
        &&& forall|p: int|
            0 <= p < self.all_ids().len() ==> self.all_kitties_index@.contains_key(
                #[trigger] self.all_ids()[p],
            ) && self.all_kitties_index@[self.all_ids()[p]] == p
        &&& forall|id: Seq<u8>|
            #[trigger] self.all_kitties_index@.contains_key(id) ==> self.owners().contains_key(id)
        &&& forall|id: Seq<u8>|
            #[trigger] self.owners().contains_key(id) ==> self.all_kitties_index@.contains_key(id)
                && self.all_kitties_index@[id] < self.all_ids().len() && self.all_ids()[
                self.all_kitties_index@[id] as int
            ] == id
    }

    /// Each owner's array and the per-owner reverse map mirror the
    /// ownership records: a minted id sits in its owner's array at its
    /// recorded local position, and every array slot holds an id whose
    /// ownership record is that owner.
    pub open spec fn owner_index_wf(self) -> bool {
        &&& forall|id: Seq<u8>| #[trigger]
            self.owners().contains_key(id) ==> {
                &&& self.owned_kitties_index@.contains_key(id)
                &&& self.owned_kitties_index@[id] < self.owned_ids(self.owners()[id]).len()
                &&& self.owned_ids(self.owners()[id])[self.owned_kitties_index@[id] as int] == id
            }
        &&& forall|o: u64, i: int|
            #![trigger self.owned_ids(o)[i]]
            0 <= i < self.owned_ids(o).len() ==> {
                &&& self.owners().contains_key(self.owned_ids(o)[i])
                &&& self.owners()[self.owned_ids(o)[i]] == o
                &&& self.owned_kitties_index@.contains_key(self.owned_ids(o)[i])
                &&& self.owned_kitties_index@[self.owned_ids(o)[i]] == i
            }
    }

    /// Token records exist exactly for minted ids, are well formed, and
    /// record their own identifier.
    pub open spec fn tokens_wf(self) -> bool {
        &&& forall|id: Seq<u8>|
            #[trigger] self.tokens().contains_key(id) ==> self.owners().contains_key(id)
        &&& forall|id: Seq<u8>|
            #[trigger] self.owners().contains_key(id) ==> self.tokens().contains_key(id)
        &&& forall|id: Seq<u8>|
            #[trigger] self.tokens().contains_key(id) ==> self.tokens()[id].wf()
                && self.tokens()[id].id@ == id
    }

    /// Stored auctions are well formed, are keyed by their own token, and
    /// sit in the bucket of their own expiry block.
    pub open spec fn auctions_wf(self) -> bool {
        &&& forall|id: Seq<u8>|
            #[trigger] self.auction_map().contains_key(id) ==> self.auction_map()[id].wf()
                && self.auction_map()[id].kitty_id@ == id
        &&& forall|b: u64, i: int|
            #![trigger self.bucket(b)[i]]
            0 <= i < self.bucket(b).len() ==> self.bucket(b)[i].wf() && self.bucket(b)[i].expiry
                == b
    }

    /// The registry invariant. Constructors establish it and every
    /// operation preserves it.
    pub open spec fn wf(self) -> bool {
        &&& self.tables_wf()
        &&& self.global_index_wf()
        &&& self.owner_index_wf()
        &&& self.tokens_wf()
        &&& self.auctions_wf()
    }

    /// The number of minted tokens.
    pub open spec fn all_count_spec(self) -> nat {
        self.all_ids().len()
    }

    /// The number of tokens currently owned by `owner`.
    pub open spec fn owned_count_spec(self, owner: u64) -> nat {
        self.owned_ids(owner).len()
    }

    /// A state whose ownership and index contents equal a well-formed
    /// one, whose token records cover the same identifiers well-formedly,
    /// and whose stored auctions satisfy their own clauses, is well
    /// formed; balances, nonce, period limit and event log are free.
    proof fn lemma_wf_frame(pre: Registry, post: Registry)
        requires
            pre.wf(),
            post.tables_wf(),
            post.kitty_owner@ == pre.kitty_owner@,
            post.all_kitties@ == pre.all_kitties@,
            post.all_kitties_index@ == pre.all_kitties_index@,
            post.owned_kitties@ == pre.owned_kitties@,
            post.owned_kitties_index@ == pre.owned_kitties_index@,
            post.tokens().dom() == pre.tokens().dom(),
            forall|id: Seq<u8>|
                #[trigger] post.tokens().contains_key(id) ==> post.tokens()[id].wf()
                    && post.tokens()[id].id@ == id,
            forall|id: Seq<u8>|
                #[trigger] post.auction_map().contains_key(id) ==> post.auction_map()[id].wf()
                    && post.auction_map()[id].kitty_id@ == id,
            forall|b: u64, i: int|
                #![trigger post.bucket(b)[i]]
                0 <= i < post.bucket(b).len() ==> post.bucket(b)[i].wf() && post.bucket(b)[i].expiry
                    == b,
        ensures
            post.wf(),
            post.all_ids() == pre.all_ids(),
            forall|o: u64| #[trigger] post.owned_ids(o) == pre.owned_ids(o),
    {
        assert(post.all_ids() == pre.all_ids());
        assert forall|o: u64| #[trigger] post.owned_ids(o) == pre.owned_ids(o) by {}
        assert forall|p: int|
            0 <= p < post.all_ids().len() implies post.owners().contains_key(
            #[trigger] post.all_ids()[p],
        ) && post.all_kitties_index@.contains_key(post.all_ids()[p])
            && post.all_kitties_index@[post.all_ids()[p]] == p by {
            assert(pre.owners().contains_key(pre.all_ids()[p]));
            assert(pre.all_kitties_index@.contains_key(pre.all_ids()[p]));
        }
        assert forall|id: Seq<u8>|
            #[trigger] post.owners().contains_key(id) implies post.all_kitties_index@.contains_key(
            id,
        ) && post.all_kitties_index@[id] < post.all_ids().len() && post.all_ids()[
            post.all_kitties_index@[id] as int
        ] == id by {
            assert(pre.owners().contains_key(id));
        }
        assert forall|id: Seq<u8>| #[trigger]
            post.owners().contains_key(id) implies {
            &&& post.owned_kitties_index@.contains_key(id)
            &&& post.owned_kitties_index@[id] < post.owned_ids(post.owners()[id]).len()
            &&& post.owned_ids(post.owners()[id])[post.owned_kitties_index@[id] as int] == id
        } by {
            assert(pre.owners().contains_key(id));
            assert(post.owned_ids(post.owners()[id]) == pre.owned_ids(pre.owners()[id]));
        }
        assert forall|o: u64, i: int|
            #![trigger post.owned_ids(o)[i]]
            0 <= i < post.owned_ids(o).len() implies {
            &&& post.owners().contains_key(post.owned_ids(o)[i])
            &&& post.owners()[post.owned_ids(o)[i]] == o
            &&& post.owned_kitties_index@.contains_key(post.owned_ids(o)[i])
            &&& post.owned_kitties_index@[post.owned_ids(o)[i]] == i
        } by {
            assert(post.owned_ids(o) == pre.owned_ids(o));
            assert(pre.owners().contains_key(pre.owned_ids(o)[i]));
        }
        assert forall|id: Seq<u8>|
            #[trigger] post.tokens().contains_key(id) implies post.owners().contains_key(id) by {
            assert(pre.tokens().dom().contains(id));
            assert(pre.owners().contains_key(id));
        }
        assert forall|id: Seq<u8>|
            #[trigger] post.owners().contains_key(id) implies post.tokens().contains_key(id) by {
            assert(pre.owners().contains_key(id));
            assert(pre.tokens().dom().contains(id));
        }
    }

    /// A state with the same table contents as a well-formed one is well
    /// formed; balances, nonce, period limit and event log are free.
    proof fn lemma_wf_unchanged(pre: Registry, post: Registry)
        requires
            pre.wf(),
            post.tables_wf(),
            post.kitties@ == pre.kitties@,
            post.kitty_owner@ == pre.kitty_owner@,
            post.all_kitties@ == pre.all_kitties@,
            post.all_kitties_index@ == pre.all_kitties_index@,
            post.owned_kitties@ == pre.owned_kitties@,
            post.owned_kitties_index@ == pre.owned_kitties_index@,
            post.kitty_auction@ == pre.kitty_auction@,
            post.auctions@ == pre.auctions@,
        ensures
            post.wf(),
            post.all_ids() == pre.all_ids(),
            forall|o: u64| #[trigger] post.owned_ids(o) == pre.owned_ids(o),
            forall|b: u64| #[trigger] post.bucket(b) == pre.bucket(b),
    {
        assert forall|b: u64| #[trigger] post.bucket(b) == pre.bucket(b) by {}
        assert(post.tokens().dom() =~= pre.tokens().dom());
        assert forall|id: Seq<u8>|
            #[trigger] post.tokens().contains_key(id) implies post.tokens()[id].wf()
            && post.tokens()[id].id@ == id by {
            assert(pre.tokens().contains_key(id));
        }
        assert forall|id: Seq<u8>|
            #[trigger] post.auction_map().contains_key(id) implies post.auction_map()[id].wf()
            && post.auction_map()[id].kitty_id@ == id by {
            assert(pre.auction_map().contains_key(id));
        }
        assert forall|b: u64, i: int|
            #![trigger post.bucket(b)[i]]
            0 <= i < post.bucket(b).len() implies post.bucket(b)[i].wf() && post.bucket(b)[i].expiry
            == b by {
            assert(post.bucket(b) == pre.bucket(b));
            assert(pre.bucket(b)[i].wf() && pre.bucket(b)[i].expiry == b);
        }
        Self::lemma_wf_frame(pre, post);
    }

    /// An empty registry with the given auction period limit.
    pub fn with_period_limit(auction_period_limit: u64) -> (r: Registry)
        ensures
            r.wf(),
            r.owners() == Map::<Seq<u8>, u64>::empty(),
            r.tokens() == Map::<Seq<u8>, Kitty>::empty(),
            r.all_ids() == Seq::<Seq<u8>>::empty(),
            forall|o: u64| #[trigger] r.owned_ids(o) == Seq::<Seq<u8>>::empty(),
            r.auction_map() == Map::<Seq<u8>, Auction>::empty(),
            forall|b: u64| #[trigger] r.bucket(b) == Seq::<Auction>::empty(),
            forall|w: u64| #[trigger] r.balance_of_spec(w) == 0,
            r.auction_period_limit == auction_period_limit,
            r.nonce == 0,
            r.event_log() == Seq::<EventView>::empty(),
    {
        let r = Registry {
            kitties: IdTable::new(),
            kitty_owner: IdTable::new(),
            all_kitties: Vec::new(),
            all_kitties_index: IdTable::new(),
            owned_kitties: NumTable::new(),
            owned_kitties_index: IdTable::new(),
            kitty_auction: IdTable::new(),
            auctions: NumTable::new(),
            balances: NumTable::new(),
            auction_period_limit,
            nonce: 0,
            events: Vec::new(),
        };
        proof {
            assert(r.all_ids() =~= Seq::<Seq<u8>>::empty());
            assert(r.event_log() =~= Seq::<EventView>::empty());
            assert forall|o: u64| #[trigger] r.owned_ids(o) == Seq::<Seq<u8>>::empty() by {
                assert(r.owned_ids(o) =~= Seq::<Seq<u8>>::empty());
            }
            assert forall|b: u64| #[trigger] r.bucket(b) == Seq::<Auction>::empty() by {
                assert(r.bucket(b) =~= Seq::<Auction>::empty());
            }
        }
        r
    }

    /// An empty registry with the default auction period limit.
    pub fn new() -> (r: Registry)
        ensures
            r.wf(),
            r.owners() == Map::<Seq<u8>, u64>::empty(),
            r.tokens() == Map::<Seq<u8>, Kitty>::empty(),
            r.all_ids() == Seq::<Seq<u8>>::empty(),
            forall|o: u64| #[trigger] r.owned_ids(o) == Seq::<Seq<u8>>::empty(),
            r.auction_map() == Map::<Seq<u8>, Auction>::empty(),
            forall|b: u64| #[trigger] r.bucket(b) == Seq::<Auction>::empty(),
            forall|w: u64| #[trigger] r.balance_of_spec(w) == 0,
            r.auction_period_limit == DEFAULT_AUCTION_PERIOD_LIMIT,
            r.nonce == 0,
            r.event_log() == Seq::<EventView>::empty(),
    {
        Self::with_period_limit(DEFAULT_AUCTION_PERIOD_LIMIT)
    }

    /// The token record for `kitty_id`, if it was minted.
    pub fn kitty(&self, kitty_id: &H256) -> (r: Option<&Kitty>)
        requires
            self.wf(),
        ensures
            match r {
                Some(k) => self.tokens().contains_key(kitty_id@) && *k == self.tokens()[kitty_id@],
                None => !self.tokens().contains_key(kitty_id@),
            },
    {
        self.kitties.get(kitty_id)
    }

    /// The owner of `kitty_id`, if it was minted.
    pub fn owner_of(&self, kitty_id: &H256) -> (r: Option<u64>)
        requires
            self.wf(),
        ensures
            match r {
                Some(o) => self.owners().contains_key(kitty_id@) && o == self.owners()[kitty_id@],
                None => !self.owners().contains_key(kitty_id@),
            },
    {
        match self.kitty_owner.get(kitty_id) {
            Some(o) => Some(*o),
            None => None,
        }
    }

    /// The number of minted tokens.
    pub fn all_kitties_count(&self) -> (r: u64)
        requires
            self.wf(),
        ensures
            r == self.all_count_spec(),
    {
        self.all_kitties.len() as u64
    }

    /// The identifier at global position `index`.
    pub fn kitty_by_index(&self, index: u64) -> (r: Option<&H256>)
        requires
            self.wf(),
        ensures
            match r {
                Some(id) => index < self.all_ids().len() && id@ == self.all_ids()[index as int],
                None => index >= self.all_ids().len(),
            },
    {
        if index < self.all_kitties.len() as u64 {
            Some(&self.all_kitties[index as usize])
        } else {
            None
        }
    }

    /// The number of tokens currently owned by `owner`.
    pub fn owned_kitty_count(&self, owner: u64) -> (r: u64)
        requires
            self.wf(),
        ensures
            r == self.owned_count_spec(owner),
    {
        match self.owned_kitties.get(owner) {
            Some(v) => v.len() as u64,
            None => 0,
        }
    }

    /// The identifier at local position `index` of `owner`'s array.
    pub fn kitty_of_owner_by_index(&self, owner: u64, index: u64) -> (r: Option<&H256>)
        requires
            self.wf(),
        ensures
            match r {
                Some(id) => index < self.owned_ids(owner).len() && id@ == self.owned_ids(owner)[
                    index as int
                ],
                None => index >= self.owned_ids(owner).len(),
            },
    {
        match self.owned_kitties.get(owner) {
            Some(v) => {
                if index < v.len() as u64 {
                    Some(&v[index as usize])
                } else {
                    None
                }
            },
            None => None,
        }
    }

    /// The active auction for `kitty_id`, if one was created.
    pub fn auction_of(&self, kitty_id: &H256) -> (r: Option<&Auction>)
        requires
            self.wf(),
        ensures
            match r {
                Some(a) => self.auction_map().contains_key(kitty_id@) && *a == self.auction_map()[
                    kitty_id@
                ],
                None => !self.auction_map().contains_key(kitty_id@),
            },
    {
        self.kitty_auction.get(kitty_id)
    }

    /// The auctions filed to expire at `block`, if any were created.
    pub fn auctions_expire_at(&self, block: u64) -> (r: Option<&Vec<Auction>>)
        requires
            self.wf(),
        ensures
            match r {
                Some(v) => self.bucket(block).len() > 0 && v@ == self.bucket(block),
                None => self.bucket(block).len() == 0,
            },
    {
        match self.auctions.get(block) {
            Some(v) => {
                if v.len() > 0 {
                    Some(v)
                } else {
                    None
                }
            },
            None => None,
        }
    }

    /// The configured bound on auction duration.
    pub fn auction_period_limit(&self) -> (r: u64)
        ensures
            r == self.auction_period_limit,
    {
        self.auction_period_limit
    }

    /// The modelled balance of `who`.
    pub fn balance_of(&self, who: u64) -> (r: u64)
        requires
            self.wf(),
        ensures
            r == self.balance_of_spec(who),
    {
        match self.balances.get(who) {
            Some(b) => *b,
            None => 0,
        }
    }

    /// Overwrites the modelled balance of `who`. The currency system
    /// itself is the host environment's; the registry only keeps enough
    /// of it to settle purchases.
    pub fn set_balance(&mut self, who: u64, amount: u64)
        requires
            old(self).wf(),
        ensures
            final(self).wf(),
            final(self).balance_of_spec(who) == amount,
            forall|w: u64|
                w != who ==> #[trigger] final(self).balance_of_spec(w) == old(self).balance_of_spec(
                    w,
                ),
            final(self).owners() == old(self).owners(),
            final(self).tokens() == old(self).tokens(),
            final(self).all_ids() == old(self).all_ids(),
            forall|o: u64| #[trigger] final(self).owned_ids(o) == old(self).owned_ids(o),
            final(self).auction_map() == old(self).auction_map(),
            forall|b: u64| #[trigger] final(self).bucket(b) == old(self).bucket(b),
            final(self).nonce == old(self).nonce,
            final(self).auction_period_limit == old(self).auction_period_limit,
            final(self).event_log() == old(self).event_log(),
    {
        self.balances.insert(who, amount);
        proof {
            Self::lemma_wf_unchanged(*old(self), *self);
        }
    }

    /// The recorded notifications.
    pub fn events(&self) -> (r: &Vec<Event>)
        ensures
            r@.map_values(|e: Event| e@) == self.event_log(),
    {
        &self.events
    }

    /// What a successful mint does: the token, ownership and index
    /// records gain exactly the new identifier, appended at the end of
    /// the global array and of the owner's array; everything else is
    /// unchanged and a `Created` notification is recorded.
    pub open spec fn mint_post(pre: Registry, post: Registry, to: u64, k: Kitty) -> bool {
        &&& !pre.owners().contains_key(k.id@)
        &&& post.owners() == pre.owners().insert(k.id@, to)
        &&& post.tokens() == pre.tokens().insert(k.id@, k)
        &&& post.all_ids() == pre.all_ids().push(k.id@)
        &&& post.owned_ids(to) == pre.owned_ids(to).push(k.id@)
        &&& forall|o: u64| o != to ==> #[trigger] post.owned_ids(o) == pre.owned_ids(o)
        &&& post.kitty_auction@ == pre.kitty_auction@
        &&& post.auctions@ == pre.auctions@
        &&& post.balances@ == pre.balances@
        &&& post.auction_period_limit == pre.auction_period_limit
        &&& post.nonce == pre.nonce
        &&& post.event_log() == pre.event_log().push(EventView::Created(to, k.id@))
    }

    /// Mints `new_kitty` for account `to`.
    ///
    /// Fails with `DuplicateId` if the identifier already has an
    /// ownership record, and with `CounterOverflow` if either the owner's
    /// count or the global count is at its maximum; on failure nothing
    /// changes.
    pub fn mint(&mut self, to: u64, new_kitty: Kitty) -> (r: Result<(), Error>)
        requires
            old(self).wf(),
            new_kitty.wf(),
        ensures
            final(self).wf(),
            match r {
                Ok(()) => {
                    &&& old(self).owned_count_spec(to) < u64::MAX
                    &&& old(self).all_count_spec() < u64::MAX
                    &&& Self::mint_post(*old(self), *final(self), to, new_kitty)
                },
                Err(Error::DuplicateId) => {
                    &&& old(self).owners().contains_key(new_kitty.id@)
                    &&& *final(self) == *old(self)
                },
                Err(Error::CounterOverflow) => {
                    &&& !old(self).owners().contains_key(new_kitty.id@)
                    &&& (old(self).owned_count_spec(to) == u64::MAX || old(self).all_count_spec()
                        == u64::MAX)
                    &&& *final(self) == *old(self)
                },
                Err(_) => false,
            },
    {
        if self.kitty_owner.contains_key(&new_kitty.id) {
            return Err(Error::DuplicateId);
        }
        let owned_count: u64 = match self.owned_kitties.get(to) {
            Some(v) => v.len() as u64,
            None => 0,
        };
        if owned_count == u64::MAX {
            return Err(Error::CounterOverflow);
        }
        let all_count: u64 = self.all_kitties.len() as u64;
        if all_count == u64::MAX {
            return Err(Error::CounterOverflow);
        }
        let ghost pre = *self;
        let ghost idb = new_kitty.id@;
        let ghost n = pre.all_ids().len() as int;
        let ghost m = pre.owned_ids(to).len() as int;

        let key_kitties = new_kitty.id.clone();
        let key_owner = new_kitty.id.clone();
        let entry_all = new_kitty.id.clone();
        let key_all_index = new_kitty.id.clone();
        let entry_owned = new_kitty.id.clone();
        let key_owned_index = new_kitty.id.clone();
        let event_id = new_kitty.id.clone();

        self.kitties.insert(key_kitties, new_kitty);
        self.kitty_owner.insert(key_owner, to);
        self.all_kitties.push(entry_all);
        self.all_kitties_index.insert(key_all_index, all_count);
        let mut v: Vec<H256> = match self.owned_kitties.take(to) {
            Some(v) => v,
            None => Vec::new(),
        };
        v.push(entry_owned);
        let ghost vseq = v@;
        self.owned_kitties.insert(to, v);
        self.owned_kitties_index.insert(key_owned_index, owned_count);
        self.events.push(Event::Created(to, event_id));

        proof {
            assert(self.owned_kitties@ =~= pre.owned_kitties@.insert(to, v));
            assert(self.all_ids() =~= pre.all_ids().push(idb));
            assert(self.owned_ids(to) =~= pre.owned_ids(to).push(idb));
            assert forall|o: u64| o != to implies #[trigger] self.owned_ids(o) == pre.owned_ids(
                o,
            ) by {
                assert(self.owned_kitties@.contains_key(o) == pre.owned_kitties@.contains_key(o));
                if pre.owned_kitties@.contains_key(o) {
                    assert(self.owned_kitties@[o] == pre.owned_kitties@[o]);
                }
            }
            assert(self.event_log() =~= pre.event_log().push(EventView::Created(to, idb)));

            // global index
            assert forall|p: int|
                0 <= p < self.all_ids().len() implies self.owners().contains_key(
                #[trigger] self.all_ids()[p],
            ) && self.all_kitties_index@.contains_key(self.all_ids()[p])
                && self.all_kitties_index@[self.all_ids()[p]] == p by {
                if p < n {
                    assert(self.all_ids()[p] == pre.all_ids()[p]);
                    assert(pre.owners().contains_key(pre.all_ids()[p]));
                    assert(pre.all_ids()[p] != idb);
                    assert(pre.all_kitties_index@.contains_key(pre.all_ids()[p]));
                } else {
                    assert(self.all_ids()[p] == idb);
                }
            }
            assert forall|id: Seq<u8>|
                #[trigger] self.all_kitties_index@.contains_key(id) implies self.owners(
            ).contains_key(id) by {
                if id != idb {
                    assert(pre.all_kitties_index@.contains_key(id));
                }
            }
            assert forall|id: Seq<u8>|
                #[trigger] self.owners().contains_key(id) implies self.all_kitties_index@.contains_key(
                id,
            ) && self.all_kitties_index@[id] < self.all_ids().len() && self.all_ids()[
                self.all_kitties_index@[id] as int
            ] == id by {
                if id == idb {
                    assert(self.all_kitties_index@[idb] == n);
                    assert(self.all_ids()[n] == idb);
                } else {
                    assert(pre.owners().contains_key(id));
                    let p = pre.all_kitties_index@[id] as int;
                    assert(self.all_ids()[p] == pre.all_ids()[p]);
                }
            }
            // owner index
            assert forall|id: Seq<u8>| #[trigger]
                self.owners().contains_key(id) implies {
                &&& self.owned_kitties_index@.contains_key(id)
                &&& self.owned_kitties_index@[id] < self.owned_ids(self.owners()[id]).len()
                &&& self.owned_ids(self.owners()[id])[self.owned_kitties_index@[id] as int] == id
            } by {
                if id == idb {
                    assert(self.owners()[idb] == to);
                    assert(self.owned_kitties_index@[idb] == m);
                    assert(self.owned_ids(to)[m] == idb);
                } else {
                    assert(pre.owners().contains_key(id));
                    let o = pre.owners()[id];
                    let i = pre.owned_kitties_index@[id] as int;
                    assert(self.owners()[id] == o);
                    assert(self.owned_kitties_index@[id] == pre.owned_kitties_index@[id]);
                    if o == to {
                        assert(self.owned_ids(to)[i] == pre.owned_ids(to)[i]);
                    } else {
                        assert(self.owned_ids(o) == pre.owned_ids(o));
                    }
                }
            }
            assert forall|o: u64, i: int|
                #![trigger self.owned_ids(o)[i]]
                0 <= i < self.owned_ids(o).len() implies {
                &&& self.owners().contains_key(self.owned_ids(o)[i])
                &&& self.owners()[self.owned_ids(o)[i]] == o
                &&& self.owned_kitties_index@.contains_key(self.owned_ids(o)[i])
                &&& self.owned_kitties_index@[self.owned_ids(o)[i]] == i
            } by {
                if o == to {
                    if i < m {
                        assert(self.owned_ids(to)[i] == pre.owned_ids(to)[i]);
                        assert(pre.owners().contains_key(pre.owned_ids(to)[i]));
                        assert(pre.owned_ids(to)[i] != idb);
                    } else {
                        assert(self.owned_ids(to)[i] == idb);
                    }
                } else {
                    assert(self.owned_ids(o) == pre.owned_ids(o));
                    assert(pre.owners().contains_key(pre.owned_ids(o)[i]));
                    assert(pre.owned_ids(o)[i] != idb);
                }
            }
            // tokens
            assert forall|id: Seq<u8>|
                #[trigger] self.tokens().contains_key(id) implies self.owners().contains_key(id)
                && self.tokens()[id].wf() && self.tokens()[id].id@ == id by {
                if id != idb {
                    assert(pre.tokens().contains_key(id));
                }
            }
            assert forall|id: Seq<u8>|
                #[trigger] self.owners().contains_key(id) implies self.tokens().contains_key(
                id,
            ) by {
                if id != idb {
                    assert(pre.owners().contains_key(id));
                }
            }
            // auctions unchanged
            assert forall|id: Seq<u8>|
                #[trigger] self.auction_map().contains_key(id) implies self.auction_map()[id].wf()
                && self.auction_map()[id].kitty_id@ == id by {
                assert(pre.auction_map().contains_key(id));
            }
            assert forall|b: u64, i: int|
                #![trigger self.bucket(b)[i]]
                0 <= i < self.bucket(b).len() implies self.bucket(b)[i].wf() && self.bucket(
                b,
            )[i].expiry == b by {
                assert(self.bucket(b) == pre.bucket(b));
                assert(pre.bucket(b)[i].wf() && pre.bucket(b)[i].expiry == b);
            }
            assert(self.wf());
        }
        Ok(())
    }

    /// What a successful transfer does: the ownership record of `id`
    /// flips to `to`, `id` leaves `from`'s array by swap-and-pop and is
    /// appended to `to`'s array, the global array and the token records
    /// are untouched, everything else is unchanged, and a `Transferred`
    /// notification is recorded. A transfer to the current owner records
    /// the notification and changes nothing else.
    pub open spec fn transfer_post(
        pre: Registry,
        post: Registry,
        from: u64,
        to: u64,
        id: Seq<u8>,
    ) -> bool {
        &&& pre.owners().contains_key(id)
        &&& pre.owners()[id] == from
        &&& post.owners() == pre.owners().insert(id, to)
        &&& post.tokens() == pre.tokens()
        &&& post.all_ids() == pre.all_ids()
        &&& post.all_kitties_index@ == pre.all_kitties_index@
        &&& (from != to ==> {
            &&& post.owned_ids(to) == pre.owned_ids(to).push(id)
            &&& post.owned_set(from) == pre.owned_set(from).remove(id)
            &&& post.owned_set(to) == pre.owned_set(to).insert(id)
            &&& post.owned_count_spec(from) + 1 == pre.owned_count_spec(from)
            &&& post.owned_count_spec(to) == pre.owned_count_spec(to) + 1
        })
        &&& (from == to ==> {
            &&& post.owned_kitties@ == pre.owned_kitties@
            &&& post.owned_kitties_index@ == pre.owned_kitties_index@
        })
        &&& forall|o: u64| o != from && o != to ==> #[trigger] post.owned_ids(o) == pre.owned_ids(o)
        &&& post.kitty_auction@ == pre.kitty_auction@
        &&& post.auctions@ == pre.auctions@
        &&& post.balances@ == pre.balances@
        &&& post.auction_period_limit == pre.auction_period_limit
        &&& post.nonce == pre.nonce
        &&& post.event_log() == pre.event_log().push(EventView::Transferred(from, to, id))
    }

    /// Moves `kitty_id` from account `from` to account `to`.
    ///
    /// Fails with `NotFound` if the token has no ownership record, with
    /// `NotOwner` if the record does not name `from`, and with
    /// `CounterOverflow` if `to`'s count is at its maximum; on failure
    /// nothing changes. The removal never underflows: a token owned by
    /// `from` guarantees a non-empty array, so no `CounterUnderflow` is
    /// ever produced.
    pub fn transfer_from(&mut self, from: u64, to: u64, kitty_id: &H256) -> (r: Result<(), Error>)
        requires
            old(self).wf(),
        ensures
            final(self).wf(),
            match r {
                Ok(()) => {
                    &&& (from != to ==> old(self).owned_count_spec(to) < u64::MAX)
                    &&& Self::transfer_post(*old(self), *final(self), from, to, kitty_id@)
                },
                Err(Error::NotFound) => {
                    &&& !old(self).owners().contains_key(kitty_id@)
                    &&& *final(self) == *old(self)
                },
                Err(Error::NotOwner) => {
                    &&& old(self).owners().contains_key(kitty_id@)
                    &&& old(self).owners()[kitty_id@] != from
                    &&& *final(self) == *old(self)
                },
                Err(Error::CounterOverflow) => {
                    &&& old(self).owners().contains_key(kitty_id@)
                    &&& old(self).owners()[kitty_id@] == from
                    &&& from != to
                    &&& old(self).owned_count_spec(to) == u64::MAX
                    &&& *final(self) == *old(self)
                },
                Err(_) => false,
            },
    {
        let owner: u64 = match self.kitty_owner.get(kitty_id) {
            Some(o) => *o,
            None => {
                return Err(Error::NotFound);
            },
        };
        if owner != from {
            return Err(Error::NotOwner);
        }
        if from == to {
            self.events.push(Event::Transferred(from, to, kitty_id.clone()));
            proof {
                Self::lemma_wf_unchanged(*old(self), *self);
                assert(self.owners() =~= old(self).owners().insert(kitty_id@, to));
                assert(self.event_log() =~= old(self).event_log().push(
                    EventView::Transferred(from, to, kitty_id@),
                ));
            }
            return Ok(());
        }
        let count_to: u64 = match self.owned_kitties.get(to) {
            Some(v) => v.len() as u64,
            None => 0,
        };
        if count_to == u64::MAX {
            return Err(Error::CounterOverflow);
        }
        let ghost pre = *old(self);
        let ghost idb = kitty_id@;
        let ghost fseq = pre.owned_ids(from);
        let ghost nf = fseq.len() as int;
        proof {
            // `from` owns the token, so its array is non-empty and holds
            // the token at its recorded local position; the array has no
            // duplicate entries.
            assert(pre.owners().contains_key(idb) && pre.owners()[idb] == from);
            assert(pre.owned_kitties_index@[idb] < nf);
            assert(pre.owned_kitties@.contains_key(from));
            assert forall|i: int, j: int| 0 <= i < j < nf implies fseq[i] != fseq[j] by {
                assert(pre.owned_kitties_index@[fseq[i]] == i);
                assert(pre.owned_kitties_index@[fseq[j]] == j);
            }
        }
        let pos64: u64 = match self.owned_kitties_index.get(kitty_id) {
            Some(p) => *p,
            None => {
                proof {
                    assert(false);
                }
                0
            },
        };
        let mut vf: Vec<H256> = match self.owned_kitties.take(from) {
            Some(v) => v,
            None => {
                proof {
                    assert(false);
                }
                Vec::new()
            },
        };
        let len_f: usize = vf.len();
        proof {
            assert(vf@ == pre.owned_kitties@[from]@);
            assert(fseq.len() == vf@.len());
            assert(pos64 == pre.owned_kitties_index@[idb]);
            assert(pos64 < len_f as u64);
        }
        let pos: usize = pos64 as usize;
        let ghost posi = pos as int;
        let moved = vf.swap_remove(pos);
        let ghost tseq = fseq.update(posi, fseq.last()).drop_last();
        proof {
            assert(posi == pos64);
            assert(fseq[posi] == idb);
            assert(moved@ == idb);
            assert(vf@.map_values(|k: H256| k@) =~= tseq);
        }
        if pos < vf.len() {
            // the former last entry now sits in the vacated slot; record
            // its new local position
            let moved_in = vf[pos].clone();
            self.owned_kitties_index.insert(moved_in, pos64);
        }
        self.owned_kitties.insert(from, vf);
        let mut vt: Vec<H256> = match self.owned_kitties.take(to) {
            Some(v) => v,
            None => Vec::new(),
        };
        vt.push(moved);
        self.owned_kitties.insert(to, vt);
        self.owned_kitties_index.insert(kitty_id.clone(), count_to);
        self.kitty_owner.insert(kitty_id.clone(), to);
        self.events.push(Event::Transferred(from, to, kitty_id.clone()));
        proof {
            let ghost movedb = fseq[nf - 1];
            assert(self.owned_ids(from) =~= tseq);
            assert(self.owned_ids(to) =~= pre.owned_ids(to).push(idb));
            assert forall|o: u64| o != from && o != to implies #[trigger] self.owned_ids(o)
                == pre.owned_ids(o) by {
                assert(self.owned_kitties@.contains_key(o) == pre.owned_kitties@.contains_key(o));
                if pre.owned_kitties@.contains_key(o) {
                    assert(self.owned_kitties@[o] == pre.owned_kitties@[o]);
                }
            }
            assert(self.event_log() =~= pre.event_log().push(
                EventView::Transferred(from, to, idb),
            ));
            assert(self.owners() =~= pre.owners().insert(idb, to));
            assert(self.owners().dom() =~= pre.owners().dom());
            // per-owner reverse map after the updates
            assert(posi == nf - 1 ==> self.owned_kitties_index@ =~= pre.owned_kitties_index@.insert(
                idb,
                count_to,
            ));
            assert(posi < nf - 1 ==> self.owned_kitties_index@ =~= pre.owned_kitties_index@.insert(
                movedb,
                pos64,
            ).insert(idb, count_to));
            // global index clauses: the global array and its reverse map
            // are untouched and the set of minted ids is unchanged
            assert forall|p: int|
                0 <= p < self.all_ids().len() implies self.owners().contains_key(
                #[trigger] self.all_ids()[p],
            ) && self.all_kitties_index@.contains_key(self.all_ids()[p])
                && self.all_kitties_index@[self.all_ids()[p]] == p by {
                assert(pre.owners().contains_key(pre.all_ids()[p]));
            }
            assert forall|id: Seq<u8>|
                #[trigger] self.all_kitties_index@.contains_key(id) implies self.owners(
            ).contains_key(id) by {
                assert(pre.all_kitties_index@.contains_key(id));
            }
            assert forall|id: Seq<u8>|
                #[trigger] self.owners().contains_key(id) implies self.all_kitties_index@.contains_key(
                id,
            ) && self.all_kitties_index@[id] < self.all_ids().len() && self.all_ids()[
                self.all_kitties_index@[id] as int
            ] == id by {
                assert(pre.owners().contains_key(id));
            }
            // owner index clause 1: every minted id is where its recorded
            // position says
            assert forall|id: Seq<u8>| #[trigger]
                self.owners().contains_key(id) implies {
                &&& self.owned_kitties_index@.contains_key(id)
                &&& self.owned_kitties_index@[id] < self.owned_ids(self.owners()[id]).len()
                &&& self.owned_ids(self.owners()[id])[self.owned_kitties_index@[id] as int] == id
            } by {
                assert(pre.owners().contains_key(id));
                if id == idb {
                    assert(self.owners()[id] == to);
                    assert(self.owned_kitties_index@[id] == count_to);
                    assert(self.owned_ids(to)[count_to as int] == idb);
                } else {
                    let o = pre.owners()[id];
                    let i = pre.owned_kitties_index@[id] as int;
                    assert(self.owners()[id] == o);
                    if o == from {
                        assert(fseq[i] == id);
                        assert(i != posi);
                        if i == nf - 1 {
                            assert(id == movedb);
                            assert(posi < nf - 1);
                            assert(self.owned_kitties_index@[id] == pos64);
                            assert(self.owned_ids(from)[posi] == movedb);
                        } else {
                            assert(id != movedb);
                            assert(self.owned_kitties_index@[id] == i);
                            assert(self.owned_ids(from)[i] == fseq[i]);
                        }
                    } else {
                        assert(id != movedb);
                        assert(self.owned_kitties_index@[id] == i);
                        if o == to {
                            assert(self.owned_ids(to)[i] == pre.owned_ids(to)[i]);
                        } else {
                            assert(self.owned_ids(o) == pre.owned_ids(o));
                        }
                    }
                }
            }
            // owner index clause 2: every array slot holds an id owned by
            // that owner at that position
            assert forall|o: u64, i: int|
                #![trigger self.owned_ids(o)[i]]
                0 <= i < self.owned_ids(o).len() implies {
                &&& self.owners().contains_key(self.owned_ids(o)[i])
                &&& self.owners()[self.owned_ids(o)[i]] == o
                &&& self.owned_kitties_index@.contains_key(self.owned_ids(o)[i])
                &&& self.owned_kitties_index@[self.owned_ids(o)[i]] == i
            } by {
                if o == from {
                    assert(self.owned_ids(from) == tseq);
                    if i == posi {
                        assert(posi < nf - 1);
                        assert(tseq[i] == movedb);
                        assert(pre.owners().contains_key(movedb) && pre.owners()[movedb] == from);
                        assert(movedb != idb);
                        assert(self.owned_kitties_index@[movedb] == pos64);
                    } else {
                        assert(tseq[i] == fseq[i]);
                        assert(pre.owners().contains_key(fseq[i]) && pre.owners()[fseq[i]]
                            == from);
                        assert(fseq[i] != idb);
                        assert(fseq[i] != movedb);
                        assert(self.owned_kitties_index@[fseq[i]]
                            == pre.owned_kitties_index@[fseq[i]]);
                        assert(pre.owned_kitties_index@[fseq[i]] == i);
                    }
                } else if o == to {
                    if i < count_to {
                        assert(self.owned_ids(to)[i] == pre.owned_ids(to)[i]);
                        let e = pre.owned_ids(to)[i];
                        assert(pre.owners().contains_key(e) && pre.owners()[e] == to);
                        assert(e != idb);
                        assert(e != movedb);
                        assert(self.owned_kitties_index@[e] == pre.owned_kitties_index@[e]);
                    } else {
                        assert(self.owned_ids(to)[i] == idb);
                    }
                } else {
                    assert(self.owned_ids(o) == pre.owned_ids(o));
                    let e = pre.owned_ids(o)[i];
                    assert(pre.owners().contains_key(e) && pre.owners()[e] == o);
                    assert(e != idb);
                    assert(e != movedb);
                    assert(self.owned_kitties_index@[e] == pre.owned_kitties_index@[e]);
                }
            }
            // tokens and auctions are untouched
            assert forall|id: Seq<u8>|
                #[trigger] self.tokens().contains_key(id) implies self.owners().contains_key(id)
                && self.tokens()[id].wf() && self.tokens()[id].id@ == id by {
                assert(pre.tokens().contains_key(id));
            }
            assert forall|id: Seq<u8>|
                #[trigger] self.owners().contains_key(id) implies self.tokens().contains_key(
                id,
            ) by {
                assert(pre.owners().contains_key(id));
            }
            assert forall|id: Seq<u8>|
                #[trigger] self.auction_map().contains_key(id) implies self.auction_map()[id].wf()
                && self.auction_map()[id].kitty_id@ == id by {
                assert(pre.auction_map().contains_key(id));
            }
            assert forall|b: u64, i: int|
                #![trigger self.bucket(b)[i]]
                0 <= i < self.bucket(b).len() implies self.bucket(b)[i].wf() && self.bucket(
                b,
            )[i].expiry == b by {
                assert(self.bucket(b) == pre.bucket(b));
                assert(pre.bucket(b)[i].wf() && pre.bucket(b)[i].expiry == b);
            }
            assert(self.wf());
            // the set-level clauses of the contract
            lemma_swap_remove_to_set(fseq, posi);
            lemma_push_to_set(pre.owned_ids(to), idb);
            assert(self.owned_set(from) == pre.owned_set(from).remove(idb));
            assert(self.owned_set(to) == pre.owned_set(to).insert(idb));
        }
        Ok(())
    }

    /// Moves `kitty_id` from the requesting account `sender` to `to`.
    ///
    /// The request fails exactly as [`Self::transfer_from`] with
    /// `from == sender` does.
    pub fn transfer(&mut self, sender: u64, to: u64, kitty_id: &H256) -> (r: Result<(), Error>)
        requires
            old(self).wf(),
        ensures
            final(self).wf(),
            match r {
                Ok(()) => {
                    &&& (sender != to ==> old(self).owned_count_spec(to) < u64::MAX)
                    &&& Self::transfer_post(*old(self), *final(self), sender, to, kitty_id@)
                },
                Err(Error::NotFound) => {
                    &&& !old(self).owners().contains_key(kitty_id@)
                    &&& *final(self) == *old(self)
                },
                Err(Error::NotOwner) => {
                    &&& old(self).owners().contains_key(kitty_id@)
                    &&& old(self).owners()[kitty_id@] != sender
                    &&& *final(self) == *old(self)
                },
                Err(Error::CounterOverflow) => {
                    &&& old(self).owners().contains_key(kitty_id@)
                    &&& old(self).owners()[kitty_id@] == sender
                    &&& sender != to
                    &&& old(self).owned_count_spec(to) == u64::MAX
                    &&& *final(self) == *old(self)
                },
                Err(_) => false,
            },
    {
        match self.kitty_owner.get(kitty_id) {
            Some(o) => {
                if *o != sender {
                    return Err(Error::NotOwner);
                }
            },
            None => {
                return Err(Error::NotFound);
            },
        }
        self.transfer_from(sender, to, kitty_id)
    }

    /// Overwrites the price of `kitty_id` on behalf of its owner
    /// `sender`. A price of zero takes the token off the market.
    ///
    /// Fails with `NotFound` if the token has no record and with
    /// `NotOwner` if `sender` does not own it; on failure nothing
    /// changes.
    pub fn set_price(&mut self, sender: u64, kitty_id: &H256, new_price: u64) -> (r: Result<
        (),
        Error,
    >)
        requires
            old(self).wf(),
        ensures
            final(self).wf(),
            match r {
                Ok(()) => {
                    &&& old(self).owners().contains_key(kitty_id@)
                    &&& old(self).owners()[kitty_id@] == sender
                    &&& final(self).tokens().dom() == old(self).tokens().dom()
                    &&& final(self).tokens()[kitty_id@]@ == (KittyView {
                        price: new_price,
                        ..old(self).tokens()[kitty_id@]@
                    })
                    &&& forall|x: Seq<u8>|
                        x != kitty_id@ && old(self).tokens().contains_key(x)
                            ==> #[trigger] final(self).tokens()[x] == old(self).tokens()[x]
                    &&& final(self).owners() == old(self).owners()
                    &&& final(self).all_ids() == old(self).all_ids()
                    &&& forall|o: u64| #[trigger]
                        final(self).owned_ids(o) == old(self).owned_ids(o)
                    &&& final(self).kitty_auction@ == old(self).kitty_auction@
                    &&& final(self).auctions@ == old(self).auctions@
                    &&& final(self).balances@ == old(self).balances@
                    &&& final(self).auction_period_limit == old(self).auction_period_limit
                    &&& final(self).nonce == old(self).nonce
                    &&& final(self).event_log() == old(self).event_log().push(
                        EventView::PriceSet(sender, kitty_id@, new_price),
                    )
                },
                Err(Error::NotFound) => {
                    &&& !old(self).owners().contains_key(kitty_id@)
                    &&& *final(self) == *old(self)
                },
                Err(Error::NotOwner) => {
                    &&& old(self).owners().contains_key(kitty_id@)
                    &&& old(self).owners()[kitty_id@] != sender
                    &&& *final(self) == *old(self)
                },
                Err(_) => false,
            },
    {
        let owner: u64 = match self.kitty_owner.get(kitty_id) {
            Some(o) => *o,
            None => {
                return Err(Error::NotFound);
            },
        };
        if owner != sender {
            return Err(Error::NotOwner);
        }
        let ghost pre = *old(self);
        let ghost idb = kitty_id@;
        let mut kitty: Kitty = match self.kitties.take(kitty_id) {
            Some(k) => k,
            None => {
                proof {
                    assert(old(self).owners().contains_key(idb));
                    assert(old(self).tokens().contains_key(idb));
                    assert(false);
                }
                Kitty { id: kitty_id.clone(), dna: kitty_id.clone(), price: 0, gen: 0 }
            },
        };
        kitty.price = new_price;
        self.kitties.insert(kitty_id.clone(), kitty);
        self.events.push(Event::PriceSet(sender, kitty_id.clone(), new_price));
        proof {
            assert(self.kitties@ =~= pre.kitties@.insert(idb, kitty));
            assert(self.tokens().dom() =~= pre.tokens().dom());
            assert forall|id: Seq<u8>|
                #[trigger] self.tokens().contains_key(id) implies self.tokens()[id].wf()
                && self.tokens()[id].id@ == id by {
                assert(pre.tokens().contains_key(id));
                if id != idb {
                    assert(self.tokens()[id] == pre.tokens()[id]);
                }
            }
            assert forall|id: Seq<u8>|
                #[trigger] self.auction_map().contains_key(id) implies self.auction_map()[id].wf()
                && self.auction_map()[id].kitty_id@ == id by {
                assert(pre.auction_map().contains_key(id));
            }
            assert forall|b: u64, i: int|
                #![trigger self.bucket(b)[i]]
                0 <= i < self.bucket(b).len() implies self.bucket(b)[i].wf() && self.bucket(
                b,
            )[i].expiry == b by {
                assert(self.bucket(b) == pre.bucket(b));
                assert(pre.bucket(b)[i].wf() && pre.bucket(b)[i].expiry == b);
            }
            Self::lemma_wf_frame(pre, *self);
            assert(self.event_log() =~= pre.event_log().push(
                EventView::PriceSet(sender, idb, new_price),
            ));
        }
        Ok(())
    }

    /// What a successful creation (mint of a freshly derived identifier)
    /// does, described by the identifier's bytes, the payload bytes and
    /// the generation of the new record.
    pub open spec fn create_post(
        pre: Registry,
        post: Registry,
        to: u64,
        idb: Seq<u8>,
        dna: Seq<u8>,
        generation: u64,
    ) -> bool {
        &&& !pre.owners().contains_key(idb)
        &&& post.owners() == pre.owners().insert(idb, to)
        &&& post.tokens().dom() == pre.tokens().dom().insert(idb)
        &&& post.tokens().contains_key(idb)
        &&& post.tokens()[idb]@ == (KittyView { id: idb, dna: dna, price: 0, gen: generation })
        &&& forall|x: Seq<u8>|
            x != idb && pre.tokens().contains_key(x) ==> #[trigger] post.tokens()[x]
                == pre.tokens()[x]
        &&& post.all_ids() == pre.all_ids().push(idb)
        &&& post.owned_ids(to) == pre.owned_ids(to).push(idb)
        &&& forall|o: u64| o != to ==> #[trigger] post.owned_ids(o) == pre.owned_ids(o)
        &&& post.kitty_auction@ == pre.kitty_auction@
        &&& post.auctions@ == pre.auctions@
        &&& post.balances@ == pre.balances@
        &&& post.auction_period_limit == pre.auction_period_limit
        &&& post.nonce == pre.nonce + 1
        &&& post.event_log() == pre.event_log().push(EventView::Created(to, idb))
    }

    /// Creates a fresh token for the requesting account `sender`: derives
    /// an identifier from the host-supplied `seed`, the account and the
    /// nonce, mints a generation-zero record whose payload equals the
    /// identifier, and increments the nonce.
    ///
    /// Fails with `CounterOverflow` if the nonce or either index count is
    /// at its maximum, and with `DuplicateId` if the derived identifier
    /// collided with an existing record; on failure nothing changes.
    pub fn create_kitty(&mut self, sender: u64, seed: u64) -> (r: Result<(), Error>)
        requires
            old(self).wf(),
        ensures
            final(self).wf(),
            match r {
                Ok(()) => {
                    &&& old(self).nonce < u64::MAX
                    &&& Self::create_post(
                        *old(self),
                        *final(self),
                        sender,
                        crate::hash256::derive_spec(seed, sender, old(self).nonce),
                        crate::hash256::derive_spec(seed, sender, old(self).nonce),
                        0,
                    )
                },
                Err(Error::DuplicateId) => {
                    &&& old(self).nonce < u64::MAX
                    &&& old(self).owners().contains_key(
                        crate::hash256::derive_spec(seed, sender, old(self).nonce),
                    )
                    &&& *final(self) == *old(self)
                },
                Err(Error::CounterOverflow) => {
                    &&& *final(self) == *old(self)
                    &&& (old(self).nonce == u64::MAX || (!old(self).owners().contains_key(
                        crate::hash256::derive_spec(seed, sender, old(self).nonce),
                    ) && (old(self).owned_count_spec(sender) == u64::MAX || old(
                        self,
                    ).all_count_spec() == u64::MAX)))
                },
                Err(_) => false,
            },
    {
        if self.nonce == u64::MAX {
            return Err(Error::CounterOverflow);
        }
        let id = H256::derive(seed, sender, self.nonce);
        let dna = id.clone();
        let new_kitty = Kitty { id, dna, price: 0, gen: 0 };
        let ghost idb = new_kitty.id@;
        match self.mint(sender, new_kitty) {
            Ok(()) => {},
            Err(e) => {
                return Err(e);
            },
        }
        let ghost mid = *self;
        self.nonce = self.nonce + 1;
        proof {
            Self::lemma_wf_unchanged(mid, *self);
            assert(mid.tokens().dom() =~= old(self).tokens().dom().insert(idb));
            assert forall|x: Seq<u8>|
                x != idb && old(self).tokens().contains_key(x) implies #[trigger] self.tokens()[x]
                == old(self).tokens()[x] by {}
            assert(Self::create_post(*old(self), *self, sender, idb, idb, 0));
        }
        Ok(())
    }

    /// Breeds a new token for `sender` from two existing parents: derives
    /// a fresh identifier, builds the offspring's payload byte by byte
    /// from the parents' payloads as [`mix_dna`] says, sets the
    /// generation to one past the larger parent generation, mints the
    /// offspring and increments the nonce.
    ///
    /// Fails with `NotFound` if either parent is missing, and with
    /// `CounterOverflow` or `DuplicateId` as minting does (also when the
    /// nonce or the generation counter is at its maximum); on failure
    /// nothing changes.
    pub fn breed_kitty(
        &mut self,
        sender: u64,
        kitty_id_1: &H256,
        kitty_id_2: &H256,
        seed: u64,
    ) -> (r: Result<(), Error>)
        requires
            old(self).wf(),
        ensures
            final(self).wf(),
            match r {
                Ok(()) => ({
                    let idb = crate::hash256::derive_spec(seed, sender, old(self).nonce);
                    let k1 = old(self).tokens()[kitty_id_1@]@;
                    let k2 = old(self).tokens()[kitty_id_2@]@;
                    let maxg = if k1.gen >= k2.gen {
                        k1.gen
                    } else {
                        k2.gen
                    };
                    &&& old(self).tokens().contains_key(kitty_id_1@)
                    &&& old(self).tokens().contains_key(kitty_id_2@)
                    &&& old(self).nonce < u64::MAX
                    &&& maxg < u64::MAX
                    &&& Self::create_post(
                        *old(self),
                        *final(self),
                        sender,
                        idb,
                        mix_dna(idb, k1.dna, k2.dna),
                        (maxg + 1) as u64,
                    )
                }),
                Err(Error::NotFound) => {
                    &&& (!old(self).tokens().contains_key(kitty_id_1@) || !old(
                        self,
                    ).tokens().contains_key(kitty_id_2@))
                    &&& *final(self) == *old(self)
                },
                Err(Error::DuplicateId) => ({
                    let idb = crate::hash256::derive_spec(seed, sender, old(self).nonce);
                    let k1 = old(self).tokens()[kitty_id_1@]@;
                    let k2 = old(self).tokens()[kitty_id_2@]@;
                    let maxg = if k1.gen >= k2.gen {
                        k1.gen
                    } else {
                        k2.gen
                    };
                    &&& old(self).tokens().contains_key(kitty_id_1@)
                    &&& old(self).tokens().contains_key(kitty_id_2@)
                    &&& old(self).nonce < u64::MAX
                    &&& maxg < u64::MAX
                    &&& old(self).owners().contains_key(idb)
                    &&& *final(self) == *old(self)
                }),
                Err(Error::CounterOverflow) => ({
                    let idb = crate::hash256::derive_spec(seed, sender, old(self).nonce);
                    let k1 = old(self).tokens()[kitty_id_1@]@;
                    let k2 = old(self).tokens()[kitty_id_2@]@;
                    let maxg = if k1.gen >= k2.gen {
                        k1.gen
                    } else {
                        k2.gen
                    };
                    &&& old(self).tokens().contains_key(kitty_id_1@)
                    &&& old(self).tokens().contains_key(kitty_id_2@)
                    &&& (old(self).nonce == u64::MAX || maxg == u64::MAX || (old(self).nonce
                        < u64::MAX && maxg < u64::MAX && !old(self).owners().contains_key(idb) && (
                    old(self).owned_count_spec(sender) == u64::MAX || old(self).all_count_spec()
                        == u64::MAX)))
                    &&& *final(self) == *old(self)
                }),
                Err(_) => false,
            },
    {
        if !self.kitties.contains_key(kitty_id_1) {
            return Err(Error::NotFound);
        }
        if !self.kitties.contains_key(kitty_id_2) {
            return Err(Error::NotFound);
        }
        if self.nonce == u64::MAX {
            return Err(Error::CounterOverflow);
        }
        let id = H256::derive(seed, sender, self.nonce);
        let k1 = self.kitties.get(kitty_id_1).unwrap();
        let k2 = self.kitties.get(kitty_id_2).unwrap();
        let maxg: u64 = if k1.gen >= k2.gen {
            k1.gen
        } else {
            k2.gen
        };
        if maxg == u64::MAX {
            return Err(Error::CounterOverflow);
        }
        proof {
            assert(self.tokens().contains_key(kitty_id_1@));
            assert(self.tokens()[kitty_id_1@].wf());
            assert(self.tokens().contains_key(kitty_id_2@));
            assert(self.tokens()[kitty_id_2@].wf());
        }
        let mut dna_bytes: Vec<u8> = Vec::new();
        let mut i: usize = 0;
        while i < 32
            invariant
                i <= 32,
                id@.len() == 32,
                k1.dna@.len() == 32,
                k2.dna@.len() == 32,
                dna_bytes@ == mix_dna(id@, k1.dna@, k2.dna@).subrange(0, i as int),
            decreases 32 - i,
        {
            let rb = id.bytes[i];
            let b = if rb % 2 == 0 {
                k2.dna.bytes[i]
            } else {
                k1.dna.bytes[i]
            };
            dna_bytes.push(b);
            proof {
                let m = mix_dna(id@, k1.dna@, k2.dna@);
                assert(b == m[i as int]);
                assert(m.subrange(0, i + 1 as int) =~= m.subrange(0, i as int).push(m[i as int]));
            }
            i = i + 1;
        }
        let ghost d1 = k1.dna@;
        let ghost d2 = k2.dna@;
        let ghost g1 = k1.gen;
        let ghost g2 = k2.gen;
        let new_kitty = Kitty { id, dna: H256 { bytes: dna_bytes }, price: 0, gen: maxg + 1 };
        let ghost idb = new_kitty.id@;
        proof {
            assert(new_kitty.dna@ =~= mix_dna(idb, d1, d2));
        }
        match self.mint(sender, new_kitty) {
            Ok(()) => {},
            Err(e) => {
                return Err(e);
            },
        }
        let ghost mid = *self;
        self.nonce = self.nonce + 1;
        proof {
            Self::lemma_wf_unchanged(mid, *self);
            assert(mid.tokens().dom() =~= old(self).tokens().dom().insert(idb));
            assert forall|x: Seq<u8>|
                x != idb && old(self).tokens().contains_key(x) implies #[trigger] self.tokens()[x]
                == old(self).tokens()[x] by {}
            assert(Self::create_post(
                *old(self),
                *self,
                sender,
                idb,
                mix_dna(idb, d1, d2),
                (maxg + 1) as u64,
            ));
        }
        Ok(())
    }

    /// Creates a time-bounded auction for `kitty_id` on behalf of its
    /// owner `sender`, records it by token and files it into the bucket
    /// of its expiry block. The high bid starts at `min_bid` with the
    /// seller as placeholder high bidder. A second auction for the same
    /// token overwrites the per-token record while the earlier bucket
    /// entry remains filed.
    ///
    /// Fails with `NotFound` if the token has no record, `NotOwner` if
    /// `sender` does not own it, and `AuctionWindowInvalid` unless
    /// `current_block < expiry <= current_block + period limit`; on
    /// failure nothing changes.
    pub fn create_auction(
        &mut self,
        sender: u64,
        kitty_id: &H256,
        min_bid: u64,
        expiry: u64,
        current_block: u64,
    ) -> (r: Result<(), Error>)
        requires
            old(self).wf(),
        ensures
            final(self).wf(),
            match r {
                Ok(()) => ({
                    let av = AuctionView {
                        kitty_id: kitty_id@,
                        kitty_owner: sender,
                        expiry: expiry,
                        min_bid: min_bid,
                        high_bid: min_bid,
                        high_bidder: sender,
                    };
                    &&& old(self).owners().contains_key(kitty_id@)
                    &&& old(self).owners()[kitty_id@] == sender
                    &&& current_block < expiry <= current_block + old(self).auction_period_limit
                    &&& final(self).auction_map().dom() == old(self).auction_map().dom().insert(
                        kitty_id@,
                    )
                    &&& final(self).auction_map().contains_key(kitty_id@)
                    &&& final(self).auction_map()[kitty_id@]@ == av
                    &&& forall|x: Seq<u8>|
                        x != kitty_id@ && old(self).auction_map().contains_key(x)
                            ==> #[trigger] final(self).auction_map()[x] == old(self).auction_map()[
                            x
                        ]
                    &&& final(self).bucket_views(expiry) == old(self).bucket_views(expiry).push(av)
                    &&& forall|b: u64|
                        b != expiry ==> #[trigger] final(self).bucket(b) == old(self).bucket(b)
                    &&& final(self).owners() == old(self).owners()
                    &&& final(self).tokens() == old(self).tokens()
                    &&& final(self).all_ids() == old(self).all_ids()
                    &&& forall|o: u64| #[trigger]
                        final(self).owned_ids(o) == old(self).owned_ids(o)
                    &&& final(self).balances@ == old(self).balances@
                    &&& final(self).auction_period_limit == old(self).auction_period_limit
                    &&& final(self).nonce == old(self).nonce
                    &&& final(self).event_log() == old(self).event_log().push(
                        EventView::AuctionCreated(kitty_id@, min_bid, expiry),
                    )
                }),
                Err(Error::NotFound) => {
                    &&& !old(self).owners().contains_key(kitty_id@)
                    &&& *final(self) == *old(self)
                },
                Err(Error::NotOwner) => {
                    &&& old(self).owners().contains_key(kitty_id@)
                    &&& old(self).owners()[kitty_id@] != sender
                    &&& *final(self) == *old(self)
                },
                Err(Error::AuctionWindowInvalid) => {
                    &&& old(self).owners().contains_key(kitty_id@)
                    &&& old(self).owners()[kitty_id@] == sender
                    &&& !(current_block < expiry <= current_block + old(
                        self,
                    ).auction_period_limit)
                    &&& *final(self) == *old(self)
                },
                Err(_) => false,
            },
    {
        let owner: u64 = match self.kitty_owner.get(kitty_id) {
            Some(o) => *o,
            None => {
                return Err(Error::NotFound);
            },
        };
        if owner != sender {
            return Err(Error::NotOwner);
        }
        if !(expiry > current_block && expiry - current_block <= self.auction_period_limit) {
            return Err(Error::AuctionWindowInvalid);
        }
        let ghost pre = *old(self);
        let ghost idb = kitty_id@;
        proof {
            assert(pre.owners().contains_key(idb));
            assert(pre.tokens().contains_key(idb));
            assert(pre.tokens()[idb].id@ == idb && pre.tokens()[idb].wf());
            assert(idb.len() == 32);
        }
        let new_auction = Auction {
            kitty_id: kitty_id.clone(),
            kitty_owner: owner,
            expiry,
            min_bid,
            high_bid: min_bid,
            high_bidder: sender,
        };
        let bucket_entry = new_auction.clone();
        let ghost av = new_auction@;
        self.kitty_auction.insert(kitty_id.clone(), new_auction);
        let mut bucket_vec: Vec<Auction> = match self.auctions.take(expiry) {
            Some(v) => v,
            None => Vec::new(),
        };
        bucket_vec.push(bucket_entry);
        self.auctions.insert(expiry, bucket_vec);
        self.events.push(Event::AuctionCreated(kitty_id.clone(), min_bid, expiry));
        proof {
            assert(self.auctions@ =~= pre.auctions@.insert(expiry, self.auctions@[expiry]));
            assert(self.bucket(expiry) =~= pre.bucket(expiry).push(
                self.bucket(expiry).last(),
            ));
            assert(self.bucket(expiry).last()@ == av);
            assert forall|b: u64| b != expiry implies #[trigger] self.bucket(b) == pre.bucket(
                b,
            ) by {
                assert(self.auctions@.contains_key(b) == pre.auctions@.contains_key(b));
                if pre.auctions@.contains_key(b) {
                    assert(self.auctions@[b] == pre.auctions@[b]);
                }
            }
            assert(self.bucket_views(expiry) =~= pre.bucket_views(expiry).push(av));
            assert(self.kitty_auction@ =~= pre.kitty_auction@.insert(idb, self.kitty_auction@[idb
            ]));
            assert(self.auction_map().dom() =~= pre.auction_map().dom().insert(idb));
            assert forall|id: Seq<u8>|
                #[trigger] self.auction_map().contains_key(id) implies self.auction_map()[id].wf()
                && self.auction_map()[id].kitty_id@ == id by {
                if id != idb {
                    assert(pre.auction_map().contains_key(id));
                    assert(self.auction_map()[id] == pre.auction_map()[id]);
                }
            }
            assert forall|b: u64, i: int|
                #![trigger self.bucket(b)[i]]
                0 <= i < self.bucket(b).len() implies self.bucket(b)[i].wf() && self.bucket(
                b,
            )[i].expiry == b by {
                if b != expiry {
                    assert(self.bucket(b) == pre.bucket(b));
                    assert(pre.bucket(b)[i].wf() && pre.bucket(b)[i].expiry == b);
                } else {
                    if i < pre.bucket(expiry).len() {
                        assert(self.bucket(expiry)[i] == pre.bucket(expiry)[i]);
                        assert(pre.bucket(expiry)[i].wf() && pre.bucket(expiry)[i].expiry
                            == expiry);
                    }
                }
            }
            assert(self.tokens().dom() =~= pre.tokens().dom());
            assert forall|id: Seq<u8>|
                #[trigger] self.tokens().contains_key(id) implies self.tokens()[id].wf()
                && self.tokens()[id].id@ == id by {
                assert(pre.tokens().contains_key(id));
            }
            Self::lemma_wf_frame(pre, *self);
            assert(self.event_log() =~= pre.event_log().push(
                EventView::AuctionCreated(idb, min_bid, expiry),
            ));
        }
        Ok(())
    }

    /// An account that does not own some particular minted token owns
    /// strictly fewer tokens than were minted: its index set is contained
    /// in the set of minted identifiers less that token. This is what
    /// lets a purchase rely on the buyer's index never overflowing.
    proof fn lemma_owned_count_lt_total(s: Registry, owner: u64, id: Seq<u8>)
        requires
            s.wf(),
            s.owners().contains_key(id),
            s.owners()[id] != owner,
        ensures
            s.owned_count_spec(owner) < s.all_count_spec(),
    {
        broadcast use vstd::seq_lib::seq_to_set_is_finite;

        crate::laws::lemma_global_enumeration(s);
        crate::laws::lemma_owner_enumeration(s, owner);
        let dom = s.owners().dom();
        assert(dom.finite());
        assert forall|k: Seq<u8>| s.owned_set(owner).contains(k) implies dom.remove(id).contains(
            k,
        ) by {
            assert(s.owners().contains_key(k) && s.owners()[k] == owner);
            assert(k != id);
        }
        assert(s.owned_set(owner).subset_of(dom.remove(id)));
        vstd::set_lib::lemma_len_subset(s.owned_set(owner), dom.remove(id));
        vstd::set::axiom_set_remove_len(dom, id);
    }

    /// What a successful purchase does: ownership of the token flips from
    /// the recorded seller to the buyer exactly as a transfer does, the
    /// price moves from the buyer's balance to the seller's, the token's
    /// price is zeroed, and `Transferred` then `Bought` notifications are
    /// recorded.
    pub open spec fn buy_post(pre: Registry, post: Registry, buyer: u64, idb: Seq<u8>) -> bool {
        let seller = pre.owners()[idb];
        let price = pre.tokens()[idb]@.price;
        &&& pre.owners().contains_key(idb)
        &&& seller != buyer
        &&& post.owners() == pre.owners().insert(idb, buyer)
        &&& post.owned_ids(buyer) == pre.owned_ids(buyer).push(idb)
        &&& post.owned_set(seller) == pre.owned_set(seller).remove(idb)
        &&& post.owned_set(buyer) == pre.owned_set(buyer).insert(idb)
        &&& post.owned_count_spec(seller) + 1 == pre.owned_count_spec(seller)
        &&& post.owned_count_spec(buyer) == pre.owned_count_spec(buyer) + 1
        &&& forall|o: u64|
            o != seller && o != buyer ==> #[trigger] post.owned_ids(o) == pre.owned_ids(o)
        &&& post.all_ids() == pre.all_ids()
        &&& post.tokens().dom() == pre.tokens().dom()
        &&& post.tokens()[idb]@ == (KittyView { price: 0, ..pre.tokens()[idb]@ })
        &&& forall|x: Seq<u8>|
            x != idb && pre.tokens().contains_key(x) ==> #[trigger] post.tokens()[x]
                == pre.tokens()[x]
        &&& post.balance_of_spec(buyer) == pre.balance_of_spec(buyer) - price
        &&& post.balance_of_spec(seller) == pre.balance_of_spec(seller) + price
        &&& forall|w: u64|
            w != buyer && w != seller ==> #[trigger] post.balance_of_spec(w)
                == pre.balance_of_spec(w)
        &&& post.kitty_auction@ == pre.kitty_auction@
        &&& post.auctions@ == pre.auctions@
        &&& post.auction_period_limit == pre.auction_period_limit
        &&& post.nonce == pre.nonce
        &&& post.event_log() == pre.event_log().push(
            EventView::Transferred(seller, buyer, idb),
        ).push(EventView::Bought(buyer, seller, idb, price))
    }

    /// Buys `kitty_id` for the requesting account `sender`, paying the
    /// recorded price out of the modelled balances, provided the price is
    /// non-zero and does not exceed `max_price`.
    ///
    /// Fails with `NotFound` if the token has no record, `NotOwner` if
    /// the buyer already owns it, `NotForSale` when the price is zero,
    /// `PriceTooHigh` when it exceeds `max_price`, `InsufficientFunds`
    /// when the buyer's balance does not cover it, and `CounterOverflow`
    /// when the seller's balance or the buyer's index count would
    /// overflow; on failure nothing changes.
    pub fn buy_kitty(&mut self, sender: u64, kitty_id: &H256, max_price: u64) -> (r: Result<
        (),
        Error,
    >)
        requires
            old(self).wf(),
        ensures
            final(self).wf(),
            match r {
                Ok(()) => ({
                    let price = old(self).tokens()[kitty_id@]@.price;
                    let seller = old(self).owners()[kitty_id@];
                    &&& 0 < price <= max_price
                    &&& old(self).balance_of_spec(sender) >= price
                    &&& old(self).balance_of_spec(seller) + price <= u64::MAX
                    &&& old(self).owned_count_spec(sender) < u64::MAX
                    &&& Self::buy_post(*old(self), *final(self), sender, kitty_id@)
                }),
                Err(Error::NotFound) => {
                    &&& !old(self).owners().contains_key(kitty_id@)
                    &&& *final(self) == *old(self)
                },
                Err(Error::NotOwner) => {
                    &&& old(self).owners().contains_key(kitty_id@)
                    &&& old(self).owners()[kitty_id@] == sender
                    &&& *final(self) == *old(self)
                },
                Err(Error::NotForSale) => {
                    &&& old(self).owners().contains_key(kitty_id@)
                    &&& old(self).owners()[kitty_id@] != sender
                    &&& old(self).tokens()[kitty_id@]@.price == 0
                    &&& *final(self) == *old(self)
                },
                Err(Error::PriceTooHigh) => {
                    &&& old(self).owners().contains_key(kitty_id@)
                    &&& old(self).owners()[kitty_id@] != sender
                    &&& old(self).tokens()[kitty_id@]@.price > max_price
                    &&& *final(self) == *old(self)
                },
                Err(Error::InsufficientFunds) => ({
                    let price = old(self).tokens()[kitty_id@]@.price;
                    &&& old(self).owners().contains_key(kitty_id@)
                    &&& old(self).owners()[kitty_id@] != sender
                    &&& 0 < price <= max_price
                    &&& old(self).balance_of_spec(sender) < price
                    &&& *final(self) == *old(self)
                }),
                Err(Error::CounterOverflow) => ({
                    let price = old(self).tokens()[kitty_id@]@.price;
                    let seller = old(self).owners()[kitty_id@];
                    &&& old(self).owners().contains_key(kitty_id@)
                    &&& seller != sender
                    &&& 0 < price <= max_price
                    &&& old(self).balance_of_spec(sender) >= price
                    &&& old(self).balance_of_spec(seller) + price > u64::MAX
                    &&& *final(self) == *old(self)
                }),
                Err(_) => false,
            },
    {
        let owner: u64 = match self.kitty_owner.get(kitty_id) {
            Some(o) => *o,
            None => {
                return Err(Error::NotFound);
            },
        };
        if owner == sender {
            return Err(Error::NotOwner);
        }
        let price: u64 = match self.kitties.get(kitty_id) {
            Some(k) => k.price,
            None => {
                proof {
                    assert(old(self).owners().contains_key(kitty_id@));
                    assert(old(self).tokens().contains_key(kitty_id@));
                    assert(false);
                }
                0
            },
        };
        if price == 0 {
            return Err(Error::NotForSale);
        }
        if price > max_price {
            return Err(Error::PriceTooHigh);
        }
        let buyer_balance = self.balance_of(sender);
        if buyer_balance < price {
            return Err(Error::InsufficientFunds);
        }
        let seller_balance = self.balance_of(owner);
        if seller_balance > u64::MAX - price {
            return Err(Error::CounterOverflow);
        }
        let ghost pre = *old(self);
        let ghost idb = kitty_id@;
        // the seller owns this token, so the buyer owns at most all other
        // minted tokens and the buyer's index count cannot overflow
        let _total: u64 = self.all_kitties_count();
        proof {
            Self::lemma_owned_count_lt_total(pre, sender, idb);
        }
        let tr = self.transfer_from(owner, sender, kitty_id);
        proof {
            assert(tr is Ok);
        }
        let ghost mid1 = *self;
        self.balances.insert(sender, buyer_balance - price);
        self.balances.insert(owner, seller_balance + price);
        let ghost mid2 = *self;
        proof {
            Self::lemma_wf_unchanged(mid1, mid2);
        }
        let mut kitty: Kitty = match self.kitties.take(kitty_id) {
            Some(k) => k,
            None => {
                proof {
                    assert(mid2.owners().contains_key(idb));
                    assert(mid2.tokens().contains_key(idb));
                    assert(false);
                }
                Kitty { id: kitty_id.clone(), dna: kitty_id.clone(), price: 0, gen: 0 }
            },
        };
        kitty.price = 0;
        self.kitties.insert(kitty_id.clone(), kitty);
        self.events.push(Event::Bought(sender, owner, kitty_id.clone(), price));
        proof {
            assert(self.kitties@ =~= mid2.kitties@.insert(idb, kitty));
            assert(self.tokens().dom() =~= mid2.tokens().dom());
            assert forall|id: Seq<u8>|
                #[trigger] self.tokens().contains_key(id) implies self.tokens()[id].wf()
                && self.tokens()[id].id@ == id by {
                assert(mid2.tokens().contains_key(id));
                if id != idb {
                    assert(self.tokens()[id] == mid2.tokens()[id]);
                }
            }
            assert forall|id: Seq<u8>|
                #[trigger] self.auction_map().contains_key(id) implies self.auction_map()[id].wf()
                && self.auction_map()[id].kitty_id@ == id by {
                assert(mid2.auction_map().contains_key(id));
            }
            assert forall|b: u64, i: int|
                #![trigger self.bucket(b)[i]]
                0 <= i < self.bucket(b).len() implies self.bucket(b)[i].wf() && self.bucket(
                b,
            )[i].expiry == b by {
                assert(self.bucket(b) == mid2.bucket(b));
                assert(mid2.bucket(b)[i].wf() && mid2.bucket(b)[i].expiry == b);
            }
            Self::lemma_wf_frame(mid2, *self);
            // compose the stages back to the entry state
            assert(mid2.tokens() == pre.tokens());
            assert(self.tokens().dom() =~= pre.tokens().dom());
            assert forall|x: Seq<u8>|
                x != idb && pre.tokens().contains_key(x) implies #[trigger] self.tokens()[x]
                == pre.tokens()[x] by {
                assert(self.tokens()[x] == mid2.tokens()[x]);
            }
            assert(self.owners() =~= pre.owners().insert(idb, sender));
            assert forall|o: u64|
                o != owner && o != sender implies #[trigger] self.owned_ids(o) == pre.owned_ids(
                o,
            ) by {
                assert(self.owned_ids(o) == mid1.owned_ids(o));
                assert(mid1.owned_ids(o) == pre.owned_ids(o));
            }
            assert(self.owned_ids(sender) == mid1.owned_ids(sender));
            assert(self.owned_set(owner) == mid1.owned_set(owner));
            assert(self.owned_set(sender) == mid1.owned_set(sender));
            assert(self.balances@ =~= pre.balances@.insert(sender, (buyer_balance - price) as u64)
                .insert(owner, (seller_balance + price) as u64));
            assert forall|w: u64|
                w != sender && w != owner implies #[trigger] self.balance_of_spec(w)
                == pre.balance_of_spec(w) by {
                assert(self.balances@.contains_key(w) == pre.balances@.contains_key(w));
                if pre.balances@.contains_key(w) {
                    assert(self.balances@[w] == pre.balances@[w]);
                }
            }
            assert(self.event_log() =~= pre.event_log().push(
                EventView::Transferred(owner, sender, idb),
            ).push(EventView::Bought(sender, owner, idb, price)));
            assert(Self::buy_post(pre, *self, sender, idb));
        }
        Ok(())
    }
}

} // verus!
