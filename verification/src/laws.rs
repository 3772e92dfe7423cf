use vstd::prelude::*;

use crate::registry::{mix_dna, Registry};

verus! {

/// Global enumeration law: the global array enumerates exactly the
/// minted identifiers, without duplicates, so the global count equals
/// the number of distinct minted identifiers, and looking an identifier
/// up through the reverse map leads back to itself.
pub proof fn lemma_global_enumeration(s: Registry)
    requires
        s.wf(),
    ensures
        s.all_ids().no_duplicates(),
        s.all_ids().to_set() == s.owners().dom(),
        s.all_count_spec() == s.owners().dom().len(),
        forall|id: Seq<u8>|
            #[trigger] s.owners().contains_key(id) ==> s.all_ids()[s.all_kitties_index@[id] as int]
                == id,
{
    assert forall|i: int, j: int|
        0 <= i < s.all_ids().len() && 0 <= j < s.all_ids().len() && i != j implies s.all_ids()[i]
        != s.all_ids()[j] by {
        assert(s.all_kitties_index@[s.all_ids()[i]] == i);
        assert(s.all_kitties_index@[s.all_ids()[j]] == j);
    }
    assert(s.all_ids().no_duplicates());
    assert forall|id: Seq<u8>| s.all_ids().to_set().contains(id) implies s.owners().contains_key(
        id,
    ) by {
        let i = choose|i: int| 0 <= i < s.all_ids().len() && s.all_ids()[i] == id;
        assert(s.owners().contains_key(s.all_ids()[i]));
    }
    assert forall|id: Seq<u8>| s.owners().contains_key(id) implies s.all_ids().to_set().contains(
        id,
    ) by {
        let p = s.all_kitties_index@[id] as int;
        assert(s.all_ids()[p] == id);
        assert(s.all_ids().contains(id));
    }
    assert(s.all_ids().to_set() =~= s.owners().dom());
    s.all_ids().unique_seq_to_set();
}

/// Per-owner enumeration law: an owner's array enumerates, without
/// duplicates, exactly the identifiers whose ownership record names
/// that owner, so the per-owner count equals the size of that set.
pub proof fn lemma_owner_enumeration(s: Registry, owner: u64)
    requires
        s.wf(),
    ensures
        s.owned_ids(owner).no_duplicates(),
        s.owned_set(owner) == Set::new(
            |id: Seq<u8>| s.owners().contains_key(id) && s.owners()[id] == owner,
        ),
        s.owned_count_spec(owner) == s.owned_set(owner).len(),
{
    assert forall|i: int, j: int|
        0 <= i < s.owned_ids(owner).len() && 0 <= j < s.owned_ids(owner).len() && i != j implies s.owned_ids(
        owner,
    )[i] != s.owned_ids(owner)[j] by {
        assert(s.owned_kitties_index@[s.owned_ids(owner)[i]] == i);
        assert(s.owned_kitties_index@[s.owned_ids(owner)[j]] == j);
    }
    assert(s.owned_ids(owner).no_duplicates());
    let rhs = Set::new(|id: Seq<u8>| s.owners().contains_key(id) && s.owners()[id] == owner);
    assert forall|id: Seq<u8>| s.owned_set(owner).contains(id) implies rhs.contains(id) by {
        let i = choose|i: int| 0 <= i < s.owned_ids(owner).len() && s.owned_ids(owner)[i] == id;
        assert(s.owners().contains_key(s.owned_ids(owner)[i]));
        assert(s.owners()[s.owned_ids(owner)[i]] == owner);
    }
    assert forall|id: Seq<u8>| rhs.contains(id) implies s.owned_set(owner).contains(id) by {
        let p = s.owned_kitties_index@[id] as int;
        assert(s.owned_ids(owner)[p] == id);
        assert(s.owned_ids(owner).contains(id));
    }
    assert(s.owned_set(owner) =~= rhs);
    s.owned_ids(owner).unique_seq_to_set();
}

/// Transfer round-trip law: transferring a token from `a` to `b` and
/// then back restores the ownership records, and both accounts' index
/// sets (though not necessarily their array order) equal what they were
/// before the first transfer; other owners' arrays are untouched.
pub proof fn lemma_transfer_round_trip(
    s0: Registry,
    s1: Registry,
    s2: Registry,
    a: u64,
    b: u64,
    id: Seq<u8>,
)
    requires
        s0.wf(),
        Registry::transfer_post(s0, s1, a, b, id),
        Registry::transfer_post(s1, s2, b, a, id),
    ensures
        s2.owners() == s0.owners(),
        s2.owned_set(a) == s0.owned_set(a),
        s2.owned_set(b) == s0.owned_set(b),
        forall|o: u64| o != a && o != b ==> #[trigger] s2.owned_ids(o) == s0.owned_ids(o),
{
    assert(s0.owners()[id] == a);
    assert(s2.owners() =~= s0.owners());
    if a == b {
        assert(s2.owned_kitties@ == s0.owned_kitties@);
        assert(s2.owned_set(a) == s0.owned_set(a));
    } else {
        // the token sits in `a`'s array before the first transfer and
        // not in `b`'s
        assert(s0.owned_ids(a)[s0.owned_kitties_index@[id] as int] == id);
        assert(s0.owned_ids(a).contains(id));
        assert(s0.owned_set(a).contains(id));
        assert(!s0.owned_set(b).contains(id)) by {
            if s0.owned_set(b).contains(id) {
                let i = choose|i: int|
                    0 <= i < s0.owned_ids(b).len() && s0.owned_ids(b)[i] == id;
                assert(s0.owners()[s0.owned_ids(b)[i]] == b);
            }
        }
        assert(s2.owned_set(a) =~= s0.owned_set(a));
        assert(s2.owned_set(b) =~= s0.owned_set(b));
    }
    assert forall|o: u64| o != a && o != b implies #[trigger] s2.owned_ids(o) == s0.owned_ids(
        o,
    ) by {
        assert(s1.owned_ids(o) == s0.owned_ids(o));
        assert(s2.owned_ids(o) == s1.owned_ids(o));
    }
}

/// Breeding payload law: every byte of the mixed payload equals the
/// corresponding byte of one of the two parent payloads.
pub proof fn lemma_breed_payload_bytes(r: Seq<u8>, d1: Seq<u8>, d2: Seq<u8>)
    requires
        d1.len() == d2.len(),
    ensures
        mix_dna(r, d1, d2).len() == d1.len(),
        forall|i: int|
            #![trigger mix_dna(r, d1, d2)[i]]
            0 <= i < d1.len() ==> mix_dna(r, d1, d2)[i] == d1[i] || mix_dna(r, d1, d2)[i] == d2[i],
{
}

} // verus!
