//! Locality-sensitive 64-bit topic fingerprints.
//!
//! A text is tokenized into consecutive character bigrams (falling back to
//! the whole text when it is shorter than two characters), each token is
//! hashed, and a per-bit vote across all tokens decides each of the 64
//! output bits.  Near-duplicate short texts land within a small Hamming
//! distance of each other, which makes the fingerprint a cheap coarse
//! pre-filter for duplicate detection.
use vstd::prelude::*;
use vstd::arithmetic::power2::pow2;
use vstd::bits::{lemma_u64_pow2_no_overflow, lemma_u64_shl_is_mul};

verus! {

/// Offset basis of the 64-bit FNV-1a hash.
pub const FNV_OFFSET_BASIS: u64 = 0xcbf29ce484222325;

/// Multiplier of the 64-bit FNV-1a hash.
pub const FNV_PRIME: u64 = 0x100000001b3;

/// One FNV-1a round: fold one character's code point into the state.
pub open spec fn fnv_step(h: u64, c: char) -> u64 {
    vstd::wrapping::u64_specs::wrapping_mul(h ^ (c as u64), FNV_PRIME)
}

/// FNV-1a hash of a character sequence.
pub open spec fn fnv64_of(s: Seq<char>) -> u64
    decreases s.len(),
{
    if s.len() == 0 {
        FNV_OFFSET_BASIS
    } else {
        fnv_step(fnv64_of(s.drop_last()), s.last())
    }
}

/// FNV-1a hash of a token, one character at a time.
pub fn fnv64(chars: &[char]) -> (h: u64)
    ensures
        h == fnv64_of(chars@),
{
    let mut h: u64 = FNV_OFFSET_BASIS;
    let mut i: usize = 0;
    while i < chars.len()
        invariant
            i <= chars@.len(),
            h == fnv64_of(chars@.take(i as int)),
        decreases chars@.len() - i,
    {
        let c = chars[i];
        h = (h ^ (c as u64)).wrapping_mul(FNV_PRIME);
        proof {
            assert(chars@.take(i + 1).drop_last() =~= chars@.take(i as int));
        }
        i = i + 1;
    }
    proof {
        assert(chars@.take(chars@.len() as int) =~= chars@);
    }
    h
}

/// The token sequence of a text: its consecutive character bigrams, or the
/// whole text as a single token when it has fewer than two characters.
pub open spec fn bigrams(text: Seq<char>) -> Seq<Seq<char>> {
    if text.len() < 2 {
        seq![text]
    } else {
        Seq::new((text.len() - 1) as nat, |i: int| text.subrange(i, i + 2))
    }
}

/// The hash of each token of a text.
pub open spec fn token_hashes(text: Seq<char>) -> Seq<u64> {
    bigrams(text).map_values(|t: Seq<char>| fnv64_of(t))
}

/// Whether bit `i` of `h` is set.
pub open spec fn bit_of(h: u64, i: int) -> bool {
    h >> (i as u64) & 1u64 == 1u64
}

/// How many of the hashes have bit `i` set.
pub open spec fn pos_votes(hs: Seq<u64>, i: int) -> nat
    decreases hs.len(),
{
    if hs.len() == 0 {
        0
    } else {
        pos_votes(hs.drop_last(), i) + if bit_of(hs.last(), i) {
            1nat
        } else {
            0nat
        }
    }
}

/// Bit `i` of the fingerprint is set when strictly more hashes vote for it
/// than against it.
pub open spec fn vote_bit(hs: Seq<u64>, i: int) -> bool {
    2 * pos_votes(hs, i) > hs.len()
}

/// The fingerprint restricted to its low `n` bits, as an integer.
pub open spec fn vote_bits(hs: Seq<u64>, n: int) -> int
    decreases n,
{
    if n <= 0 {
        0
    } else {
        vote_bits(hs, n - 1) + if vote_bit(hs, n - 1) {
            pow2((n - 1) as nat) as int
        } else {
            0
        }
    }
}

/// The fingerprint of a text: 0 for the empty text, otherwise the 64 vote
/// bits over the hashes of its tokens.
pub open spec fn simhash_of(text: Seq<char>) -> int {
    if text.len() == 0 {
        0
    } else {
        vote_bits(token_hashes(text), 64)
    }
}

/// How many hashes vote for a bit never exceeds how many hashes there are.
proof fn lemma_pos_votes_le(hs: Seq<u64>, i: int)
    ensures
        pos_votes(hs, i) <= hs.len(),
    decreases hs.len(),
{
    if hs.len() > 0 {
        lemma_pos_votes_le(hs.drop_last(), i);
    }
}

/// The low `n` vote bits form an integer below 2^n.
proof fn lemma_vote_bits_bound(hs: Seq<u64>, n: int)
    requires
        0 <= n <= 64,
    ensures
        0 <= vote_bits(hs, n) < pow2(n as nat),
    decreases n,
{
    vstd::arithmetic::power2::lemma_pow2_pos(n as nat);
    if n > 0 {
        lemma_vote_bits_bound(hs, n - 1);
        vstd::arithmetic::power2::lemma_pow2_unfold(n as nat);
    }
}

/// Compute the fingerprint of a text given as a character sequence.
pub fn simhash_chars(chars: &[char]) -> (r: u64)
    ensures
        r == simhash_of(chars@),
{
    if chars.len() == 0 {
        return 0;
    }
    // Hash every token.
    let mut hashes: Vec<u64> = Vec::new();
    if chars.len() < 2 {
        let h = fnv64(chars);
        hashes.push(h);
        proof {
            assert(hashes@ =~= token_hashes(chars@));
        }
    } else {
        let mut k: usize = 0;
        while k < chars.len() - 1
            invariant
                2 <= chars@.len(),
                k <= chars@.len() - 1,
                hashes@.len() == k,
                forall|j: int| 0 <= j < k ==> hashes@[j] == token_hashes(chars@)[j],
            decreases chars@.len() - k,
        {
            let mut tok: Vec<char> = Vec::new();
            tok.push(chars[k]);
            tok.push(chars[k + 1]);
            let h = fnv64(tok.as_slice());
            proof {
                assert(tok@ =~= chars@.subrange(k as int, k + 2));
            }
            hashes.push(h);
            k = k + 1;
        }
        proof {
            assert(hashes@ =~= token_hashes(chars@));
        }
    }

    // Count, for each bit position, the tokens voting for it.
    let n: usize = hashes.len();
    let mut pos: Vec<usize> = Vec::new();
    let mut b: usize = 0;
    while b < 64
        invariant
            pos@.len() == b,
            b <= 64,
            forall|i: int| 0 <= i < b ==> pos@[i] == 0,
        decreases 64 - b,
    {
        pos.push(0);
        b = b + 1;
    }
    proof {
        assert(hashes@.take(0) =~= Seq::<u64>::empty());
    }
    let mut k: usize = 0;
    while k < n
        invariant
            n == hashes@.len(),
            k <= n,
            pos@.len() == 64,
            forall|i: int| 0 <= i < 64 ==> pos@[i] == pos_votes(hashes@.take(k as int), i),
        decreases n - k,
    {
        let h = hashes[k];
        let mut i: usize = 0;
        while i < 64
            invariant
                n == hashes@.len(),
                k < n,
                h == hashes@[k as int],
                pos@.len() == 64,
                i <= 64,
                forall|j: int|
                    i <= j < 64 ==> pos@[j] == pos_votes(hashes@.take(k as int), j),
                forall|j: int|
                    0 <= j < i ==> pos@[j] == pos_votes(hashes@.take(k as int + 1), j),
            decreases 64 - i,
        {
            proof {
                lemma_pos_votes_le(hashes@.take(k as int), i as int);
                assert(hashes@.take(k as int).len() <= hashes@.len());
                assert(hashes@.take(k + 1).drop_last() =~= hashes@.take(k as int));
            }
            if (h >> (i as u64)) & 1u64 == 1u64 {
                let old_p = pos[i];
                pos.set(i, old_p + 1);
            }
            i = i + 1;
        }
        k = k + 1;
    }
    proof {
        assert(hashes@.take(n as int) =~= hashes@);
    }

    // Assemble the fingerprint from the votes.
    let mut fp: u64 = 0;
    let mut i: usize = 0;
    while i < 64
        invariant
            n == hashes@.len(),
            pos@.len() == 64,
            forall|j: int| 0 <= j < 64 ==> pos@[j] == pos_votes(hashes@, j),
            i <= 64,
            fp == vote_bits(hashes@, i as int),
        decreases 64 - i,
    {
        proof {
            lemma_vote_bits_bound(hashes@, i as int);
            lemma_u64_pow2_no_overflow(i as nat);
            lemma_u64_shl_is_mul(1u64, i as u64);
            lemma_pos_votes_le(hashes@, i as int);
        }
        let p = pos[i];
        if p > n - p {
            let bit: u64 = 1u64 << (i as u64);
            proof {
                assert(fp < pow2(i as nat));
                assert(bit == pow2(i as nat));
                assert(fp + bit < pow2(i as nat) + pow2(i as nat));
                vstd::arithmetic::power2::lemma_pow2_unfold((i + 1) as nat);
                lemma_u64_pow2_no_overflow((i + 1) as nat % 64);
                assert(pow2((i + 1) as nat) <= pow2(64nat)) by {
                    if i + 1 < 64 {
                        vstd::arithmetic::power2::lemma_pow2_strictly_increases(
                            (i + 1) as nat,
                            64nat,
                        );
                    }
                }
                assert(pow2(64nat) == 0x1_0000_0000_0000_0000) by {
                    vstd::arithmetic::power2::lemma2_to64_rest();
                }
            }
            fp = fp + bit;
        }
        i = i + 1;
    }
    fp
}

/// Number of set bits among the low `n` bits of `x`.
pub open spec fn popcount(x: u64, n: int) -> nat
    decreases n,
{
    if n <= 0 {
        0
    } else {
        popcount(x, n - 1) + if bit_of(x, n - 1) {
            1nat
        } else {
            0nat
        }
    }
}

/// Hamming distance between two fingerprints: the number of bit positions
/// where they differ.
pub open spec fn hamming_of(a: u64, b: u64) -> nat {
    popcount(a ^ b, 64)
}

/// Compute the Hamming distance between two fingerprints.
pub fn hamming(a: u64, b: u64) -> (d: u32)
    ensures
        d == hamming_of(a, b),
        d <= 64,
{
    let x: u64 = a ^ b;
    let mut d: u32 = 0;
    let mut i: usize = 0;
    while i < 64
        invariant
            i <= 64,
            d == popcount(x, i as int),
            d <= i,
        decreases 64 - i,
    {
        if (x >> (i as u64)) & 1u64 == 1u64 {
            d = d + 1;
        }
        i = i + 1;
    }
    d
}

/// A fingerprint is at Hamming distance zero from itself.
pub proof fn lemma_hamming_self(a: u64)
    ensures
        hamming_of(a, a) == 0,
{
    assert(a ^ a == 0u64) by (bit_vector);
    lemma_popcount_zero(64);
}

proof fn lemma_popcount_zero(n: int)
    requires
        0 <= n <= 64,
    ensures
        popcount(0u64, n) == 0,
    decreases n,
{
    if n > 0 {
        lemma_popcount_zero(n - 1);
        let j = (n - 1) as u64;
        assert(0u64 >> j & 1u64 == 0u64) by (bit_vector);
    }
}

/// A text's fingerprint is at distance zero from the fingerprint of the
/// same text: fingerprinting is deterministic, and a value is at distance
/// zero from itself.
pub proof fn lemma_fingerprint_self_distance(t: Seq<char>)
    ensures
        hamming_of(simhash_of(t) as u64, simhash_of(t) as u64) == 0,
{
    lemma_hamming_self(simhash_of(t) as u64);
}

/// The Hamming distance is symmetric.
pub proof fn lemma_hamming_symmetric(a: u64, b: u64)
    ensures
        hamming_of(a, b) == hamming_of(b, a),
{
    assert(a ^ b == b ^ a) by (bit_vector);
}

/// Registry duplicate threshold: short texts get a tighter bound because
/// noise has an outsized effect on a sparse bigram signal.
pub open spec fn spec_duplicate_threshold(char_len: nat) -> u32 {
    if char_len < 50 {
        1
    } else {
        3
    }
}

/// Distance threshold used for cross-cycle duplicate detection, depending
/// on the character length of the compared text.
pub fn duplicate_threshold(char_len: usize) -> (t: u32)
    ensures
        t == spec_duplicate_threshold(char_len as nat),
{
    if char_len < 50 {
        1
    } else {
        3
    }
}

/// Collect the characters of a string into a vector, so that fixed-size
/// windows of them can be hashed.
pub fn chars_vec(s: &str) -> (r: Vec<char>)
    ensures
        r@ == s@,
{
    let len = s.unicode_len();
    let mut r: Vec<char> = Vec::new();
    let mut i: usize = 0;
    while i < len
        invariant
            len == s@.len(),
            i <= len,
            r@ =~= s@.take(i as int),
        decreases len - i,
    {
        r.push(s.get_char(i));
        i = i + 1;
    }
    proof {
        assert(s@.take(len as int) =~= s@);
    }
    r
}

/// Fingerprint a string.
pub fn simhash_str(s: &str) -> (r: u64)
    ensures
        r == simhash_of(s@),
{
    let chars = chars_vec(s);
    simhash_chars(chars.as_slice())
}

} // verus!
