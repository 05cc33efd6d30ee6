use vstd::prelude::*;

verus! {

/// Number of bytes that one RGBA pixel occupies in a raw buffer.
pub const RGBA_PIXEL_BYTES: usize = 4;

/// Every non-negative index splits into a quotient and a remainder by a positive divisor.
pub proof fn lemma_split_index(k: int, d: int)
    requires
        0 <= k,
        0 < d,
    ensures
        k == (k / d) * d + k % d,
        0 <= k % d < d,
        0 <= k / d,
{
    vstd::arithmetic::div_mod::lemma_fundamental_div_mod(k, d);
    vstd::arithmetic::mul::lemma_mul_is_commutative(d, k / d);
    vstd::arithmetic::div_mod::lemma_mod_pos_bound(k, d);
    vstd::arithmetic::div_mod::lemma_div_pos_is_pos(k, d);
}

/// An index built from a quotient and an in-range remainder splits back into them.
pub proof fn lemma_join_index(q: int, d: int, r: int)
    requires
        0 < d,
        0 <= r < d,
    ensures
        (q * d + r) / d == q,
        (q * d + r) % d == r,
{
    vstd::arithmetic::div_mod::lemma_fundamental_div_mod_converse(q * d + r, d, q, r);
}


/// An index below `n` blocks of size `d` lies in one of the first `n` blocks.
pub proof fn lemma_block_of_index(k: int, d: int, n: int)
    requires
        0 <= k < n * d,
        0 < d,
    ensures
        k / d < n,
{
    lemma_split_index(k, d);
    if k / d >= n {
        assert((k / d) * d >= n * d) by (nonlinear_arith)
            requires k / d >= n, d > 0;
    }
}

} // verus!
