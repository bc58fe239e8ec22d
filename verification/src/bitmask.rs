//! Facts about 128-bit masks used as sets of small numbers.
use vstd::prelude::*;

verus! {

/// Bit `c` of `m` is set.
pub open spec fn bit(m: u128, c: u128) -> bool {
    (m >> c) & 1u128 == 1u128
}

/// The numbers below 128 whose bit is set in `m`.
pub open spec fn mask_set(m: u128) -> Set<u8> {
    Set::new(|c: u8| c < 128 && bit(m, c as u128))
}

/// The numbers below `n` whose bit is set in `m`.
pub open spec fn mask_set_below(m: u128, n: nat) -> Set<u8> {
    Set::new(|c: u8| c < n && c < 128 && bit(m, c as u128))
}

/// How many of the bits `0..n` of `m` are set.
pub open spec fn bits_below(m: u128, n: nat) -> nat
    decreases n,
{
    if n == 0 {
        0
    } else {
        bits_below(m, (n - 1) as nat) + if bit(m, (n - 1) as u128) {
            1nat
        } else {
            0nat
        }
    }
}

/// The mask with the bits `0..k` set (all of them for `k >= 128`).
pub open spec fn low_mask(k: u128) -> u128 {
    if k >= 128 {
        u128::MAX
    } else {
        !(u128::MAX << k)
    }
}

pub proof fn lemma_bit_of_or_single(m: u128, cc: u128, c: u128)
    requires
        cc < 128,
        c < 128,
    ensures
        bit(m | (1u128 << cc), c) == (c == cc || bit(m, c)),
{
    assert(((m | (1u128 << cc)) >> c) & 1u128 == 1u128 <==> (c == cc || (m >> c) & 1u128 == 1u128))
        by (bit_vector)
        requires
            cc < 128,
            c < 128,
    ;
}

pub proof fn lemma_bit_of_zero(c: u128)
    requires
        c < 128,
    ensures
        !bit(0u128, c),
{
    assert((0u128 >> c) & 1u128 != 1u128) by (bit_vector);
}

pub proof fn lemma_bit_of_xor(a: u128, b: u128, c: u128)
    requires
        c < 128,
    ensures
        bit(a ^ b, c) == (bit(a, c) != bit(b, c)),
{
    assert((((a ^ b) >> c) & 1u128 == 1u128) == (((a >> c) & 1u128 == 1u128) != ((b >> c)
        & 1u128 == 1u128))) by (bit_vector)
        requires
            c < 128,
    ;
}

proof fn lemma_low_bits_step(m: u128, k: u128)
    requires
        k < 128,
        m & low_mask(k) == 0,
        !bit(m, k),
    ensures
        m & low_mask((k + 1) as u128) == 0,
{
    if k < 127 {
        assert(m & !(u128::MAX << ((k + 1) as u128)) == 0) by (bit_vector)
            requires
                k < 127,
                m & !(u128::MAX << k) == 0,
                (m >> k) & 1u128 != 1u128,
        ;
    } else {
        assert(m & u128::MAX == 0) by (bit_vector)
            requires
                k == 127,
                m & !(u128::MAX << k) == 0,
                (m >> k) & 1u128 != 1u128,
        ;
    }
}

proof fn lemma_low_bits_clear(m: u128, k: u128)
    requires
        k <= 128,
        forall|c: u128| c < k ==> !bit(m, c),
    ensures
        m & low_mask(k) == 0,
    decreases k,
{
    if k == 0 {
        assert(m & !(u128::MAX << 0u128) == 0) by (bit_vector);
    } else {
        lemma_low_bits_clear(m, (k - 1) as u128);
        lemma_low_bits_step(m, (k - 1) as u128);
    }
}

/// A mask with none of its 128 bits set is zero.
pub proof fn lemma_mask_zero(m: u128)
    requires
        forall|c: u128| c < 128 ==> !bit(m, c),
    ensures
        m == 0,
{
    lemma_low_bits_clear(m, 128);
    assert(m & u128::MAX == m) by (bit_vector);
}

/// Two masks with the same 128 bits are equal.
pub proof fn lemma_mask_ext(a: u128, b: u128)
    requires
        forall|c: u128| c < 128 ==> bit(a, c) == bit(b, c),
    ensures
        a == b,
{
    assert forall|c: u128| c < 128 implies !bit(a ^ b, c) by {
        lemma_bit_of_xor(a, b, c);
    }
    lemma_mask_zero(a ^ b);
    assert(a ^ b == 0u128 ==> a == b) by (bit_vector);
}

/// A mask is determined by the set of numbers whose bit it holds.
pub proof fn lemma_mask_set_injective(a: u128, b: u128)
    requires
        mask_set(a) == mask_set(b),
    ensures
        a == b,
{
    assert forall|c: u128| c < 128 implies bit(a, c) == bit(b, c) by {
        let k = c as u8;
        assert(k as u128 == c);
        assert(mask_set(a).contains(k) == (k < 128 && bit(a, k as u128)));
        assert(mask_set(b).contains(k) == (k < 128 && bit(b, k as u128)));
        assert(mask_set(a).contains(k) == mask_set(b).contains(k));
    }
    lemma_mask_ext(a, b);
}

pub proof fn lemma_mask_set_below_finite_len(m: u128, n: nat)
    requires
        n <= 128,
    ensures
        mask_set_below(m, n).finite(),
        mask_set_below(m, n).len() == bits_below(m, n),
    decreases n,
{
    if n == 0 {
        assert(mask_set_below(m, 0) =~= Set::<u8>::empty());
    } else {
        let k = (n - 1) as nat;
        lemma_mask_set_below_finite_len(m, k);
        let below = mask_set_below(m, k);
        let c = k as u8;
        if bit(m, k as u128) {
            assert(mask_set_below(m, n) =~= below.insert(c));
            assert(!below.contains(c));
        } else {
            assert(mask_set_below(m, n) =~= below);
        }
    }
}

/// The number of set bits is the size of the set the mask stands for.
pub proof fn lemma_mask_set_len(m: u128)
    ensures
        mask_set(m).finite(),
        mask_set(m).len() == bits_below(m, 128),
{
    lemma_mask_set_below_finite_len(m, 128);
    assert(mask_set(m) =~= mask_set_below(m, 128));
}

} // verus!
