//! Powers of two, and the masking trick that ring buffers use to turn a
//! running position into a slot index.
use vstd::arithmetic::power2::*;
use vstd::bits::*;
use vstd::prelude::*;

verus! {

/// `n` is `2^k` for some natural number `k`.
pub open spec fn is_power_of_two(n: int) -> bool {
    exists|k: nat| pow2(k) == n
}

/// The slot that a running position `pos` falls on in a ring of `size` slots.
pub open spec fn slot_of(pos: int, size: int) -> int {
    pos % size
}

/// The slot picked by masking `pos` with `size - 1`, as the ring buffers do.
pub open spec fn masked_slot(pos: usize, size: usize) -> usize {
    pos & ((size - 1) as usize)
}

proof fn lemma_recursive_form(n: int)
    ensures
        is_pow2(n) <==> is_power_of_two(n),
{
    broadcast use is_pow2_equiv;

    if is_pow2(n) {
        let k = choose|k: nat| vstd::arithmetic::power::pow(2, k) == n;
        lemma_pow2(k);
        assert(pow2(k) == n);
    }
    if is_power_of_two(n) {
        let k = choose|k: nat| pow2(k) == n;
        lemma_pow2(k);
        assert(is_pow2_exists(n));
    }
}

/// Tells whether `n` is a power of two (zero is not).
pub fn is_power_of_two_usize(n: usize) -> (b: bool)
    ensures
        b == is_power_of_two(n as int),
{
    proof {
        lemma_recursive_form(n as int);
    }
    if n == 0 {
        proof {
            reveal(is_pow2);
        }
        return false;
    }
    let mut m: usize = n;
    while m % 2 == 0
        invariant
            m >= 1,
            is_pow2(n as int) == is_pow2(m as int),
        decreases m,
    {
        proof {
            reveal(is_pow2);
        }
        m = m / 2;
    }
    proof {
        reveal(is_pow2);
    }
    m == 1
}

/// A power of two that fits in a `usize` is `2^k` for some `k` below the
/// width of `usize`.
pub proof fn lemma_exponent_fits(n: usize) -> (k: nat)
    requires
        is_power_of_two(n as int),
    ensures
        pow2(k) == n,
        k < usize::BITS,
{
    let k = choose|k: nat| pow2(k) == n;
    if k >= usize::BITS {
        lemma2_to64();
        if k > usize::BITS {
            lemma_pow2_strictly_increases(usize::BITS as nat, k);
        }
        assert(false);
    }
    k
}

/// For a ring whose size is a power of two, masking a position with
/// `size - 1` gives the same slot as taking it modulo `size`.
pub proof fn lemma_mask_is_slot(pos: usize, size: usize)
    requires
        is_power_of_two(size as int),
    ensures
        size >= 1,
        masked_slot(pos, size) == slot_of(pos as int, size as int),
        masked_slot(pos, size) < size,
{
    let k = lemma_exponent_fits(size);
    lemma_pow2_pos(k);
    lemma_usize_low_bits_mask_is_mod(pos, k);
}

/// Masking with `size - 1` always lands below `size`, whatever `size` is
/// (as long as it is not zero).
pub proof fn lemma_mask_below(pos: usize, size: usize)
    requires
        size >= 1,
    ensures
        masked_slot(pos, size) < size,
{
    let m: usize = (size - 1) as usize;
    assert(pos & m <= m) by (bit_vector);
}

} // verus!
