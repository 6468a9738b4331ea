//! Arithmetic of codes and the bits that start with them.

use crate::bits::lemma_bits_split;
use vstd::arithmetic::power2::{lemma2_to64, lemma_pow2_adds, lemma_pow2_pos, pow2};
use vstd::prelude::*;

verus! {

/// Bits `w` start with the code `code` of `bits` bits.
pub open spec fn starts_with(w: int, code: int, bits: int) -> bool {
    w % (pow2(bits as nat) as int) == code
}

/// Bits that are zero in their first `lead` bits and behind them start
/// with `tail_code` start with `tail_code` moved up by `lead` bits.
pub proof fn lemma_shifted_start(x: nat, lead: nat, tail_code: nat, tail: nat)
    requires
        starts_with(x as int, tail_code as int, tail as int),
    ensures
        starts_with((x * pow2(lead)) as int, (tail_code * pow2(lead)) as int, (lead + tail) as int),
{
    let p = pow2(lead) as int;
    let q = pow2(tail) as int;
    lemma_pow2_pos(lead);
    lemma_pow2_pos(tail);
    lemma_pow2_adds(lead, tail);
    vstd::arithmetic::div_mod::lemma_truncate_middle(x as int, p, q);
    assert((p * x) % (p * q) == p * (x as int % q));
    assert(x * pow2(lead) == p * x) by (nonlinear_arith)
        requires
            p == pow2(lead),
    ;
    assert(tail_code * pow2(lead) == p * tail_code) by (nonlinear_arith)
        requires
            p == pow2(lead),
    ;
}

/// Bits whose low eight are `x` start with a code of at most eight bits
/// exactly if `x` does.
pub proof fn lemma_starts_low_eight(w: nat, code: int, bits: int)
    requires
        0 <= bits <= 8,
    ensures
        starts_with(w as int, code, bits) <==> starts_with((w % 256) as int, code, bits),
{
    lemma2_to64();
    lemma_bits_split(w, bits as nat, (8 - bits) as nat);
    assert(bits as nat + (8 - bits) as nat == 8);
}

/// A code starts its own bits.
pub proof fn lemma_code_starts_itself(code: nat, bits: nat)
    requires
        code < pow2(bits),
    ensures
        starts_with(code as int, code as int, bits as int),
{
    vstd::arithmetic::div_mod::lemma_small_mod(code, pow2(bits));
}

} // verus!
