//! Packed bit words: bit `i` of a bitmap is bit `i % 64` of word `i / 64`.
use vstd::prelude::*;

verus! {

/// Number of bits in one bitmap word.
pub const WORD_BITS: usize = 64;

/// Bit `k` of word `w`.
pub open spec fn word_bit(w: u64, k: int) -> bool {
    (w >> (k as u64)) & 1u64 == 1u64
}

/// Bit `i` of the packed sequence of words.
pub open spec fn bit_of(words: Seq<u64>, i: int) -> bool {
    word_bit(words[i / 64], i % 64)
}

proof fn lemma_word_set(w: u64, k: u64, j: u64)
    requires
        k < 64,
        j < 64,
    ensures
        ((w | (1u64 << k)) >> j) & 1u64 == 1u64 <==> (j == k || (w >> j) & 1u64 == 1u64),
{
    assert(((w | (1u64 << k)) >> j) & 1u64 == 1u64 <==> (j == k || (w >> j) & 1u64 == 1u64))
        by (bit_vector)
        requires
            k < 64,
            j < 64,
    ;
}

proof fn lemma_word_clear(w: u64, k: u64, j: u64)
    requires
        k < 64,
        j < 64,
    ensures
        ((w & !(1u64 << k)) >> j) & 1u64 == 1u64 <==> (j != k && (w >> j) & 1u64 == 1u64),
{
    assert(((w & !(1u64 << k)) >> j) & 1u64 == 1u64 <==> (j != k && (w >> j) & 1u64 == 1u64))
        by (bit_vector)
        requires
            k < 64,
            j < 64,
    ;
}

proof fn lemma_word_zero(j: u64)
    requires
        j < 64,
    ensures
        !((0u64 >> j) & 1u64 == 1u64),
{
    assert(!((0u64 >> j) & 1u64 == 1u64)) by (bit_vector);
}

/// A bitmap of `n` words with every bit clear.
pub fn zeroed(n: usize) -> (r: Vec<u64>)
    ensures
        r@.len() == n,
        forall|i: int| 0 <= i < n * 64 ==> !bit_of(r@, i),
{
    let mut r: Vec<u64> = Vec::new();
    while r.len() < n
        invariant
            r@.len() <= n,
            forall|k: int| 0 <= k < r@.len() ==> r@[k] == 0u64,
        decreases n - r@.len(),
    {
        r.push(0u64);
    }
    assert forall|i: int| 0 <= i < n * 64 implies !bit_of(r@, i) by {
        lemma_word_zero((i % 64) as u64);
    }
    r
}

/// Reads bit `i`.
pub fn test_bit(words: &Vec<u64>, i: usize) -> (r: bool)
    requires
        i < words@.len() * 64,
    ensures
        r == bit_of(words@, i as int),
{
    (words[i / WORD_BITS] >> ((i % WORD_BITS) as u64)) & 1u64 == 1u64
}

/// Sets bit `i` to `v`, leaving every other bit as it was.
pub fn put_bit(words: &mut Vec<u64>, i: usize, v: bool)
    requires
        i < old(words)@.len() * 64,
    ensures
        final(words)@.len() == old(words)@.len(),
        bit_of(final(words)@, i as int) == v,
        forall|j: int|
            0 <= j < old(words)@.len() * 64 && j != i ==> bit_of(final(words)@, j) == bit_of(
                old(words)@,
                j,
            ),
{
    let w = i / WORD_BITS;
    let k = (i % WORD_BITS) as u64;
    let old_word = words[w];
    let new_word = if v {
        old_word | (1u64 << k)
    } else {
        old_word & !(1u64 << k)
    };
    words.set(w, new_word);
    proof {
        assert forall|j: int|
            0 <= j < old(words)@.len() * 64 implies bit_of(final(words)@, j) == (if j == i {
                v
            } else {
                bit_of(old(words)@, j)
            }) by {
            if j / 64 == w as int {
                if v {
                    lemma_word_set(old_word, k, (j % 64) as u64);
                } else {
                    lemma_word_clear(old_word, k, (j % 64) as u64);
                }
            }
        }
    }
}

} // verus!
