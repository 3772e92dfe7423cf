use vstd::prelude::*;

verus! {

/// Increment used to keep the word stream of [`H256::derive`] moving even
/// when the internal state reaches a fixed point of the scrambler.
pub const GAMMA: u64 = 0x9e37_79b9_7f4a_7c15;

/// A 256-bit value stored as 32 bytes, least significant first within each
/// derived word. Used both as the unique identifier of a token and as its
/// genetic payload.
pub struct H256 {
    pub bytes: Vec<u8>,
}

impl View for H256 {
    type V = Seq<u8>;

    open spec fn view(&self) -> Seq<u8> {
        self.bytes@
    }
}

/// One round of a 64-bit xorshift scrambler.
pub open spec fn scramble(x: u64) -> u64 {
    let a = x ^ (x << 13);
    let b = a ^ (a >> 7);
    b ^ (b << 17)
}

/// The state that identifier derivation starts from: the seed, the
/// requesting account and the nonce folded together.
pub open spec fn derive_state(seed: u64, account: u64, nonce: u64) -> u64 {
    scramble(scramble(scramble(seed) ^ account) ^ nonce)
}

/// The `k`-th 64-bit word of a derived identifier.
pub open spec fn derive_word(seed: u64, account: u64, nonce: u64, k: nat) -> u64
    decreases k,
{
    if k == 0 {
        scramble(derive_state(seed, account, nonce) ^ GAMMA)
    } else {
        scramble(derive_word(seed, account, nonce, (k - 1) as nat) ^ GAMMA)
    }
}

/// Byte `j` of the word `w`, counting from the least significant end.
pub open spec fn byte_of(w: u64, j: u64) -> u8 {
    ((w >> ((8 * j) as u64)) & 0xff) as u8
}

/// The eight bytes of `w`, least significant first.
pub open spec fn word_bytes(w: u64) -> Seq<u8> {
    Seq::new(8, |j: int| byte_of(w, j as u64))
}

/// The 32 bytes of the identifier derived from a seed, an account and a
/// nonce. Derivation is deterministic: equal inputs give equal bytes.
pub open spec fn derive_spec(seed: u64, account: u64, nonce: u64) -> Seq<u8> {
    word_bytes(derive_word(seed, account, nonce, 0)) + word_bytes(
        derive_word(seed, account, nonce, 1),
    ) + word_bytes(derive_word(seed, account, nonce, 2)) + word_bytes(
        derive_word(seed, account, nonce, 3),
    )
}

proof fn lemma_low_byte(x: u64)
    ensures
        x & 0xff < 256,
{
    assert(x & 0xff < 256) by (bit_vector);
}

fn scramble64(x: u64) -> (r: u64)
    ensures
        r == scramble(x),
{
    let a = x ^ (x << 13u64);
    let b = a ^ (a >> 7u64);
    b ^ (b << 17u64)
}

/// Appends the eight bytes of `w` to `out`, least significant first.
fn push_word(out: &mut Vec<u8>, w: u64)
    ensures
        final(out)@ == old(out)@ + word_bytes(w),
{
    let ghost start = out@;
    let mut j: u64 = 0;
    while j < 8
        invariant
            j <= 8,
            out@ == start + word_bytes(w).subrange(0, j as int),
        decreases 8 - j,
    {
        let sh: u64 = w >> (8 * j);
        proof {
            lemma_low_byte(sh);
        }
        let b: u8 = (sh & 0xff) as u8;
        out.push(b);
        proof {
            assert(b == byte_of(w, j));
            assert(word_bytes(w).subrange(0, j + 1 as int) =~= word_bytes(w).subrange(
                0,
                j as int,
            ).push(byte_of(w, j)));
            assert(out@ =~= start + word_bytes(w).subrange(0, j + 1 as int));
        }
        j = j + 1;
    }
    proof {
        assert(word_bytes(w).subrange(0, 8) =~= word_bytes(w));
    }
}

impl H256 {
    /// A 256-bit value is well formed when it holds exactly 32 bytes.
    pub open spec fn wf(self) -> bool {
        self.bytes@.len() == 32
    }

    /// Byte-wise equality of two 256-bit values.
    pub fn eq_bytes(&self, other: &H256) -> (r: bool)
        ensures
            r == (self@ == other@),
    {
        if self.bytes.len() != other.bytes.len() {
            return false;
        }
        let mut i: usize = 0;
        while i < self.bytes.len()
            invariant
                self.bytes@.len() == other.bytes@.len(),
                i <= self.bytes@.len(),
                forall|j: int| 0 <= j < i ==> self.bytes@[j] == other.bytes@[j],
            decreases self.bytes@.len() - i,
        {
            if self.bytes[i] != other.bytes[i] {
                return false;
            }
            i = i + 1;
        }
        proof {
            assert(self@ =~= other@);
        }
        true
    }

    /// Derives a fresh identifier from the host-supplied entropy seed, the
    /// requesting account and the current nonce, by folding the three into
    /// a 64-bit state and expanding the state into four scrambled words.
    /// The combination is deterministic; the registry guards against the
    /// (astronomically rare) collision by checking the result against the
    /// ownership records before accepting it.
    pub fn derive(seed: u64, account: u64, nonce: u64) -> (r: H256)
        ensures
            r@ == derive_spec(seed, account, nonce),
            r.wf(),
    {
        let mut out: Vec<u8> = Vec::new();
        let st: u64 = scramble64(scramble64(scramble64(seed) ^ account) ^ nonce);
        let w0 = scramble64(st ^ GAMMA);
        push_word(&mut out, w0);
        let w1 = scramble64(w0 ^ GAMMA);
        push_word(&mut out, w1);
        let w2 = scramble64(w1 ^ GAMMA);
        push_word(&mut out, w2);
        let w3 = scramble64(w2 ^ GAMMA);
        push_word(&mut out, w3);
        proof {
            assert(w0 == derive_word(seed, account, nonce, 0));
            assert(w1 == derive_word(seed, account, nonce, 1));
            assert(w2 == derive_word(seed, account, nonce, 2));
            assert(w3 == derive_word(seed, account, nonce, 3));
            assert(out@ =~= derive_spec(seed, account, nonce));
        }
        H256 { bytes: out }
    }
}

impl Clone for H256 {
    /// Clones the value; the copy holds the same bytes.
    fn clone(&self) -> (r: Self)
        ensures
            r@ == self@,
    {
        let mut b: Vec<u8> = Vec::new();
        let mut i: usize = 0;
        while i < self.bytes.len()
            invariant
                i <= self.bytes@.len(),
                b@ == self.bytes@.subrange(0, i as int),
            decreases self.bytes@.len() - i,
        {
            b.push(self.bytes[i]);
            proof {
                assert(self.bytes@.subrange(0, i + 1 as int) =~= self.bytes@.subrange(
                    0,
                    i as int,
                ).push(self.bytes@[i as int]));
            }
            i = i + 1;
        }
        proof {
            assert(b@ =~= self.bytes@);
        }
        H256 { bytes: b }
    }
}

} // verus!
