//! The derived tables invert the fixed codes: bits that start with the
//! code of a value are looked up as that value.

use crate::bits::lemma_bits_split;
use crate::laws::arith::{
    lemma_code_starts_itself, lemma_shifted_start, lemma_starts_low_eight, starts_with,
};
use crate::explode::model::{
    ascii_enters, ascii_first_slot, ascii_lead_bits, ascii_long_slot, ascii_marks, ascii_route,
    ascii_tail_bits, ascii_tail_code, distance_slot, inverse_slot, lemma_ascii_table_ranges,
    length_slot,
};
use crate::laws::codes::{
    ascii_bits_of, ascii_code_of, codes_clash, dist_bits_of, dist_code_of, len_bits_of,
    len_code_of, lemma_ascii_codes_prefix_free, lemma_code_functions,
    lemma_distance_codes_prefix_free, lemma_length_codes_prefix_free,
};
use crate::tables::{CH_BITS_ASC, CH_CODE_ASC, DIST_BITS, DIST_CODE, LEN_BITS, LEN_CODE};
use vstd::arithmetic::power2::{lemma2_to64, lemma_pow2_pos, pow2};
use vstd::prelude::*;

verus! {

/// Two codes that start the same bits agree on the bits that both have.
pub proof fn lemma_common_start(w: nat, code1: u32, bits1: u32, code2: u32, bits2: u32)
    requires
        bits1 <= 16,
        bits2 <= 16,
        starts_with(w as int, code1 as int, bits1 as int),
        starts_with(w as int, code2 as int, bits2 as int),
    ensures
        codes_clash(code1, bits1, code2, bits2),
{
    let shorter = if bits1 < bits2 {
        bits1
    } else {
        bits2
    };
    let m = shorter as nat;
    lemma2_to64();
    lemma_pow2_pos(m);
    lemma_bits_split(w, m, (bits1 - shorter) as nat);
    lemma_bits_split(w, m, (bits2 - shorter) as nat);
    assert(m + (bits1 - shorter) as nat == bits1);
    assert(m + (bits2 - shorter) as nat == bits2);
    assert(code1 as nat % pow2(m) == code2 as nat % pow2(m));
    vstd::bits::lemma_u32_pow2_no_overflow(m);
    vstd::bits::lemma_u32_shl_is_mul(1, shorter);
    vstd::bits::lemma_u32_low_bits_mask_is_mod(code1, m);
    vstd::bits::lemma_u32_low_bits_mask_is_mod(code2, m);
    let mask = ((1u32 << shorter) - 1) as u32;
    assert(mask == vstd::bits::low_bits_mask(m) as u32);
}

/// The one code that starts the bits `x` is what the inverse table holds
/// for them.
pub proof fn lemma_inverse_slot_found(
    codes: Seq<u8>,
    bits: Seq<u8>,
    n: int,
    x: int,
    init: u8,
    i: int,
)
    requires
        0 <= i < n <= 256,
        starts_with(x, codes[i] as int, bits[i] as int),
        forall|j: int|
            0 <= j < n && j != i ==> !#[trigger] starts_with(x, codes[j] as int, bits[j] as int),
    ensures
        inverse_slot(codes, bits, n, x, init) == i,
    decreases n,
{
    if n - 1 != i {
        assert(!starts_with(x, codes[n - 1] as int, bits[n - 1] as int));
        lemma_inverse_slot_found(codes, bits, n - 1, x, init, i);
    }
}

/// Bits that start with the code of a length bucket are looked up as that
/// bucket.
pub proof fn lemma_length_slot(w: nat, i: int)
    requires
        0 <= i < 16,
        starts_with(w as int, LEN_CODE[i] as int, LEN_BITS[i] as int),
    ensures
        length_slot((w % 256) as int) == i,
{
    lemma2_to64();
    lemma_code_functions();
    let x = w % 256;
    assert(forall|k: int| 0 <= k < 16 ==> #[trigger] LEN_BITS[k] <= 7);
    assert forall|j: int| 0 <= j < 16 implies (#[trigger] starts_with(
        x as int,
        LEN_CODE[j] as int,
        LEN_BITS[j] as int,
    ) <==> starts_with(w as int, LEN_CODE[j] as int, LEN_BITS[j] as int)) by {
        lemma_bits_split(w, LEN_BITS[j] as nat, (8 - LEN_BITS[j]) as nat);
        assert(LEN_BITS[j] as nat + (8 - LEN_BITS[j]) as nat == 8);
    }
    assert forall|j: int| 0 <= j < 16 && j != i implies !#[trigger] starts_with(
        x as int,
        LEN_CODE[j] as int,
        LEN_BITS[j] as int,
    ) by {
        if starts_with(x as int, LEN_CODE[j] as int, LEN_BITS[j] as int) {
            assert(len_bits_of(i as u32) == LEN_BITS[i]);
            assert(len_bits_of(j as u32) == LEN_BITS[j]);
            lemma_common_start(
                w,
                len_code_of(i as u32),
                len_bits_of(i as u32),
                len_code_of(j as u32),
                len_bits_of(j as u32),
            );
            lemma_length_codes_prefix_free(i as u32, j as u32);
        }
    }
    lemma_inverse_slot_found(LEN_CODE@, LEN_BITS@, 16, x as int, 0, i);
}

/// Bits that start with the code of a high part of a distance are looked
/// up as that high part.
pub proof fn lemma_distance_slot(w: nat, i: int)
    requires
        0 <= i < 64,
        starts_with(w as int, DIST_CODE[i] as int, DIST_BITS[i] as int),
    ensures
        distance_slot((w % 256) as int) == i,
{
    lemma2_to64();
    lemma_code_functions();
    let x = w % 256;
    assert(forall|k: int| 0 <= k < 64 ==> #[trigger] DIST_BITS[k] <= 8);
    assert forall|j: int| 0 <= j < 64 implies (#[trigger] starts_with(
        x as int,
        DIST_CODE[j] as int,
        DIST_BITS[j] as int,
    ) <==> starts_with(w as int, DIST_CODE[j] as int, DIST_BITS[j] as int)) by {
        lemma_bits_split(w, DIST_BITS[j] as nat, (8 - DIST_BITS[j]) as nat);
        assert(DIST_BITS[j] as nat + (8 - DIST_BITS[j]) as nat == 8);
    }
    assert forall|j: int| 0 <= j < 64 && j != i implies !#[trigger] starts_with(
        x as int,
        DIST_CODE[j] as int,
        DIST_BITS[j] as int,
    ) by {
        if starts_with(x as int, DIST_CODE[j] as int, DIST_BITS[j] as int) {
            assert(dist_bits_of(i as u32) == DIST_BITS[i]);
            assert(dist_bits_of(j as u32) == DIST_BITS[j]);
            lemma_common_start(
                w,
                dist_code_of(i as u32),
                dist_bits_of(i as u32),
                dist_code_of(j as u32),
                dist_bits_of(j as u32),
            );
            lemma_distance_codes_prefix_free(i as u32, j as u32);
        }
    }
    lemma_inverse_slot_found(DIST_CODE@, DIST_BITS@, 64, x as int, 0, i);
}

/// Two byte values whose ASCII codes start the same bits are one.
pub proof fn lemma_ascii_start_unique(w: nat, s: int, t: int)
    requires
        0 <= s < 256,
        0 <= t < 256,
        starts_with(w as int, CH_CODE_ASC[s] as int, CH_BITS_ASC[s] as int),
        starts_with(w as int, CH_CODE_ASC[t] as int, CH_BITS_ASC[t] as int),
    ensures
        s == t,
{
    lemma_code_functions();
    lemma_ascii_table_ranges();
    assert(ascii_bits_of(s as u32) == CH_BITS_ASC[s]);
    assert(ascii_bits_of(t as u32) == CH_BITS_ASC[t]);
    lemma_common_start(
        w,
        ascii_code_of(s as u32),
        ascii_bits_of(s as u32),
        ascii_code_of(t as u32),
        ascii_bits_of(t as u32),
    );
    lemma_ascii_codes_prefix_free(s as u32, t as u32);
}

/// What the routes of the ASCII codes rest on: a code of at most eight
/// bits is not zero, and a code that is looked up behind four bits is zero
/// in those four bits.
pub proof fn lemma_ascii_route_facts()
    ensures
        forall|s: int|
            0 <= s < 256 ==> (#[trigger] ascii_route(s) == 0 ==> CH_CODE_ASC[s] != 0 && s != 255)
                && (ascii_route(s) == 1 ==> CH_CODE_ASC[s] % 16 == 0),
{
}

/// A long code is the part that its table is indexed by, moved up by the
/// bits that its lookup drops.
pub proof fn lemma_ascii_tail_code(s: int)
    requires
        0 <= s < 256,
    ensures
        CH_CODE_ASC[s] == ascii_tail_code(s) * pow2(ascii_lead_bits(s) as nat),
        0 <= ascii_tail_code(s),
        0 <= ascii_lead_bits(s) <= 8,
        ascii_lead_bits(s) + ascii_tail_bits(s) == CH_BITS_ASC[s],
        1 <= ascii_tail_bits(s) <= 8,
{
    lemma2_to64();
    lemma_ascii_route_facts();
    lemma_ascii_table_ranges();
    let code = CH_CODE_ASC[s] as int;
    let p = pow2(ascii_lead_bits(s) as nat) as int;
    assert(code % p == 0);
    vstd::arithmetic::div_mod::lemma_fundamental_div_mod(code, p);
    assert(code == (code / p) * p) by (nonlinear_arith)
        requires
            code == p * (code / p) + code % p,
            code % p == 0,
    ;
}

/// A code starts its own bits.
pub proof fn lemma_ascii_code_starts_itself(s: int)
    requires
        0 <= s < 256,
    ensures
        starts_with(CH_CODE_ASC[s] as int, CH_CODE_ASC[s] as int, CH_BITS_ASC[s] as int),
{
    lemma_ascii_table_ranges();
    lemma_code_starts_itself(CH_CODE_ASC[s] as nat, CH_BITS_ASC[s] as nat);
}

/// A byte value with a code of at most eight bits enters itself into the
/// slots of the first table that start with its code.
pub proof fn lemma_enters_short(s: int, x: int)
    requires
        0 <= s < 256,
        ascii_route(s) == 0,
    ensures
        ascii_enters(s, 0, x) <==> starts_with(x, CH_CODE_ASC[s] as int, CH_BITS_ASC[s] as int),
{
    assert(pow2(0) == 1) by {
        lemma2_to64();
    }
    assert(ascii_lead_bits(s) == 0);
    assert(ascii_tail_bits(s) == CH_BITS_ASC[s]);
    assert(ascii_tail_code(s) == (CH_CODE_ASC[s] as int) / 1);
}

/// A slot that a byte value with a long code enters itself into stands,
/// behind zero bits for those that the lookup drops, for bits that start
/// with its code.
pub proof fn lemma_enters_long(s: int, x: nat)
    requires
        0 <= s < 256,
        1 <= ascii_route(s) <= 3,
        ascii_enters(s, ascii_route(s), x as int),
    ensures
        starts_with(
            (x * pow2(ascii_lead_bits(s) as nat)) as int,
            CH_CODE_ASC[s] as int,
            CH_BITS_ASC[s] as int,
        ),
{
    lemma_ascii_tail_code(s);
    lemma_shifted_start(
        x,
        ascii_lead_bits(s) as nat,
        ascii_tail_code(s) as nat,
        ascii_tail_bits(s) as nat,
    );
}

/// The slot is touched by no byte value below `s`.
pub open spec fn first_untouched_below(x: int, s: int) -> bool {
    forall|t: int| 0 <= t < s ==> !#[trigger] ascii_enters(t, 0, x) && !ascii_marks(t, x)
}

/// Walking up from `from` to a byte value that enters itself into a slot
/// of the first table which none below it touches, the slot holds that
/// byte value.
proof fn lemma_first_slot_walk(from: int, x: int, s: int)
    requires
        0 <= from <= s < 256,
        ascii_enters(s, 0, x),
        first_untouched_below(x, s),
    ensures
        ascii_first_slot(from, x) == s,
    decreases s - from,
{
    if from < s {
        assert(!ascii_enters(from, 0, x) && !ascii_marks(from, x));
        lemma_first_slot_walk(from + 1, x, s);
    }
}

/// No byte value up to `s` enters itself into the slot.
pub open spec fn first_unentered_upto(x: int, s: int) -> bool {
    forall|t: int| 0 <= t <= s ==> !#[trigger] ascii_enters(t, 0, x)
}

/// Walking up from `from` to a byte value that marks a slot of the first
/// table into which none up to it enters itself, the slot holds the mark.
proof fn lemma_first_slot_mark_walk(from: int, x: int, s: int)
    requires
        0 <= from <= s < 256,
        ascii_marks(s, x),
        first_unentered_upto(x, s),
    ensures
        ascii_first_slot(from, x) == 0xFF,
    decreases s - from,
{
    assert(!ascii_enters(from, 0, x));
    if from < s && !ascii_marks(from, x) {
        lemma_first_slot_mark_walk(from + 1, x, s);
    }
}

/// No byte value below `s` enters itself into the slot of the table.
pub open spec fn long_unentered_below(route: int, x: int, s: int) -> bool {
    forall|t: int| 0 <= t < s ==> !#[trigger] ascii_enters(t, route, x)
}

/// Walking up from `from` to a byte value that enters itself into a slot
/// of a table of long codes into which none below it enters itself, the
/// slot holds that byte value.
proof fn lemma_long_slot_walk(route: int, from: int, x: int, s: int)
    requires
        0 <= from <= s < 256,
        ascii_enters(s, route, x),
        long_unentered_below(route, x, s),
    ensures
        ascii_long_slot(route, from, x) == s,
    decreases s - from,
{
    if from < s {
        assert(!ascii_enters(from, route, x));
        lemma_long_slot_walk(route, from + 1, x, s);
    }
}

/// A slot of the first table that starts with a code of at most eight
/// bits is touched by no other byte value.
proof fn lemma_short_slot_alone(x: nat, s: int, t: int)
    requires
        0 <= s < 256,
        0 <= t < 256,
        x < 256,
        t != s,
        ascii_route(s) == 0,
        ascii_enters(s, 0, x as int),
    ensures
        !ascii_enters(t, 0, x as int),
        !ascii_marks(t, x as int),
{
    lemma_enters_short(s, x as int);
    if ascii_enters(t, 0, x as int) {
        lemma_enters_short(t, x as int);
        lemma_ascii_start_unique(x, s, t);
    }
    if ascii_marks(t, x as int) {
        lemma_marked_slot_unentered(t, s);
    }
}

/// No byte value with a code of at most eight bits enters itself into the
/// slot that a long code marks.
proof fn lemma_marked_slot_unentered(s: int, t: int)
    requires
        0 <= s < 256,
        0 <= t < 256,
        ascii_route(s) == 1 || ascii_route(s) == 2,
    ensures
        !ascii_enters(t, 0, (CH_CODE_ASC[s] % 256) as int),
{
    let x = (CH_CODE_ASC[s] % 256) as int;
    if ascii_enters(t, 0, x) {
        lemma_enters_short(t, x);
        lemma_ascii_table_ranges();
        let c = CH_CODE_ASC[s] as nat;
        lemma_ascii_code_starts_itself(s);
        lemma_starts_low_eight(c, CH_CODE_ASC[t] as int, CH_BITS_ASC[t] as int);
        lemma_ascii_start_unique(c, s, t);
    }
}

/// The first table holds a byte value whose code has at most eight bits
/// for all bits that start with the code.
pub proof fn lemma_ascii_first_slot_short(w: nat, s: int)
    requires
        0 <= s < 256,
        ascii_route(s) == 0,
        starts_with(w as int, CH_CODE_ASC[s] as int, CH_BITS_ASC[s] as int),
    ensures
        w % 256 != 0,
        ascii_first_slot(0, (w % 256) as int) == s,
        s != 0xFF,
{
    lemma_ascii_route_facts();
    lemma_ascii_table_ranges();
    let x = w % 256;
    lemma_starts_low_eight(w, CH_CODE_ASC[s] as int, CH_BITS_ASC[s] as int);
    lemma_enters_short(s, x as int);
    if x == 0 {
        lemma_pow2_pos(CH_BITS_ASC[s] as nat);
        assert(0int % (pow2(CH_BITS_ASC[s] as nat) as int) == 0);
    }
    assert forall|t: int| 0 <= t < s implies !#[trigger] ascii_enters(t, 0, x as int)
        && !ascii_marks(t, x as int) by {
        lemma_short_slot_alone(x, s, t);
    }
    lemma_first_slot_walk(0, x as int, s);
}

/// The first table marks the low eight bits of a longer code as the start
/// of a long code.
pub proof fn lemma_ascii_first_slot_long(s: int)
    requires
        0 <= s < 256,
        ascii_route(s) == 1 || ascii_route(s) == 2,
    ensures
        ascii_first_slot(0, (CH_CODE_ASC[s] % 256) as int) == 0xFF,
{
    let x = (CH_CODE_ASC[s] % 256) as int;
    assert forall|t: int| 0 <= t <= s implies !#[trigger] ascii_enters(t, 0, x) by {
        lemma_marked_slot_unentered(s, t);
    }
    lemma_first_slot_mark_walk(0, x, s);
}

/// The table of a long code holds its byte value for all bits that, behind
/// the bits dropped before the lookup, start with the rest of the code.
pub proof fn lemma_ascii_long_slot(x: nat, s: int)
    requires
        0 <= s < 256,
        1 <= ascii_route(s) <= 3,
        ascii_enters(s, ascii_route(s), x as int),
    ensures
        ascii_long_slot(ascii_route(s), 0, x as int) == s,
{
    let route = ascii_route(s);
    assert forall|t: int| 0 <= t < s implies !#[trigger] ascii_enters(t, route, x as int) by {
        if ascii_enters(t, route, x as int) {
            lemma_enters_long(s, x);
            lemma_enters_long(t, x);
            lemma_ascii_start_unique(x * pow2(ascii_lead_bits(s) as nat), s, t);
        }
    }
    lemma_long_slot_walk(route, 0, x as int, s);
}

} // verus!
