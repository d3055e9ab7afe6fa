//! The binary digits of a scalar, read through the `bitvec` crate.

use bitvec::order::Lsb0;
use bitvec::view::BitView;
use vstd::arithmetic::div_mod::lemma_div_denominator;
use vstd::arithmetic::power2::{lemma_pow2_pos, lemma_pow2_unfold, pow2};
use vstd::prelude::*;

verus! {

/// The binary digit of `k` that stands for `2^i`.
pub open spec fn bit_of(k: nat, i: nat) -> bool {
    (k / pow2(i)) % 2 == 1
}

/// Indexes the view that `bitvec::view::BitView::view_bits` gives of a `u64`
/// in `Lsb0` order. The contract claims that position `i` of that view holds
/// the digit for `2^i`.
#[verifier::external_body]
pub(crate) fn bit_at(k: u64, i: usize) -> (b: bool)
    requires
        i < 64,
    ensures
        b == bit_of(k as nat, i as nat),
{
    k.view_bits::<Lsb0>()[i]
}

/// `bitvec::slice::BitSlice::last_one` on the `Lsb0` view of a `u64`. The
/// contract claims that it returns the position of the highest digit that is
/// set, above which no digit is set, and nothing where the number is zero.
#[verifier::external_body]
pub(crate) fn highest_set_bit(k: u64) -> (r: Option<usize>)
    ensures
        match r {
            Some(i) => i < 64 && bit_of(k as nat, i as nat) && forall|j: nat|
                i < j < 64 ==> !#[trigger] bit_of(k as nat, j),
            None => k == 0,
        },
{
    k.view_bits::<Lsb0>().last_one()
}

/// A number below `2^hi` whose digits from `lo` up are all clear is below `2^lo`.
pub proof fn lemma_clear_high_bits(k: nat, lo: nat, hi: nat)
    requires
        lo <= hi,
        k < pow2(hi),
        forall|j: nat| lo <= j < hi ==> !#[trigger] bit_of(k, j),
    ensures
        k < pow2(lo),
    decreases hi - lo,
{
    if lo < hi {
        let j = (hi - 1) as nat;
        let d = pow2(j) as int;
        lemma_pow2_pos(j);
        lemma_pow2_unfold(hi);
        assert(!bit_of(k, j));
        let q = k as int / d;
        vstd::arithmetic::div_mod::lemma_fundamental_div_mod(k as int, d);
        vstd::arithmetic::div_mod::lemma_mod_bound(k as int, d);
        assert(0 <= q < 2) by (nonlinear_arith)
            requires
                k == d * q + (k as int % d),
                0 <= (k as int % d) < d,
                0 <= k < 2 * d,
        ;
        assert(q == 0);
        assert(d * 0 == 0);
        lemma_clear_high_bits(k, lo, j);
    }
}

/// Dropping one more digit halves the number: `k / 2^i` has the quotient
/// `k / 2^(i+1)` on division by 2, and the digit for `2^i` as its remainder.
pub proof fn lemma_shift_step(k: nat, i: nat)
    ensures
        (k / pow2(i)) / 2 == k / pow2(i + 1),
        ((k / pow2(i)) % 2 == 1) == bit_of(k, i),
{
    lemma_pow2_pos(i);
    lemma_pow2_unfold(i + 1);
    lemma_div_denominator(k as int, pow2(i) as int, 2);
    assert(pow2(i) * 2 == 2 * pow2(i)) by (nonlinear_arith);
}

} // verus!
