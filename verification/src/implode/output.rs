//! Writing bits: the header, the codes, the end marker.

use crate::bits::{
    bytes_of_bits, le_value, lemma_append_assoc, lemma_append_wf, lemma_le_value_byte,
    power_of_two, Bits,
};
use crate::common::{CompressionMode, PkLibError};
use crate::implode::model::{length_bucket, length_bucket_below, literal_code};
use crate::implode::state::{lemma_length_code_fits, ImplodeState};
use crate::implode::writer::ImplodeWriter;
use crate::tables::{CH_BITS_ASC, EX_LEN_BITS, LEN_BASE, LEN_BITS, LEN_CODE};
use vstd::arithmetic::power2::{lemma2_to64, lemma_pow2_adds, lemma_pow2_pos, pow2};
use vstd::prelude::*;

verus! {

/// A length value lies in the range of its bucket.
pub proof fn lemma_length_bucket_range(w: int)
    requires
        0 <= w < 0x206,
    ensures
        0 <= length_bucket(w) < 16,
        LEN_BASE[length_bucket(w)] <= w < LEN_BASE[length_bucket(w)] + pow2(
            EX_LEN_BITS[length_bucket(w)] as nat,
        ),
{
    reveal_with_fuel(length_bucket_below, 17);
    lemma2_to64();
}

/// The code of every value fits its bit length, which is at most 16.
pub proof fn lemma_literal_code_wf(mode: CompressionMode, v: int)
    requires
        0 <= v < 0x306,
    ensures
        literal_code(mode, v).wf(),
        1 <= literal_code(mode, v).len <= 16,
{
    lemma2_to64();
    if v < 0x100 {
        crate::explode::model::lemma_ascii_table_ranges();
        if mode == CompressionMode::ASCII {
            lemma_pow2_adds(1, CH_BITS_ASC[v] as nat);
        }
    } else {
        let w = v - 0x100;
        lemma_length_bucket_range(w);
        let i = length_bucket(w);
        crate::explode::model::lemma_length_table_ranges();
        assert(forall|k: int| 0 <= k < 16 ==> #[trigger] LEN_CODE[k] < pow2(LEN_BITS[k] as nat));
        lemma_length_code_fits(
            LEN_CODE[i] as nat,
            LEN_BITS[i] as nat,
            (w - LEN_BASE[i]) as nat,
            EX_LEN_BITS[i] as nat,
        );
    }
}

/// The first `low` bits of a code and the bits behind them make up the
/// code.
pub proof fn lemma_code_split(code: nat, low: nat, high: nat)
    requires
        code < pow2(low + high),
    ensures
        (Bits { value: code % pow2(low), len: low }).append(
            Bits { value: code / pow2(low), len: high },
        ) == (Bits { value: code, len: low + high }),
        (Bits { value: code % pow2(low), len: low }).wf(),
        (Bits { value: code / pow2(low), len: high }).wf(),
{
    lemma_pow2_pos(low);
    vstd::arithmetic::div_mod::lemma_fundamental_div_mod(code as int, pow2(low) as int);
    vstd::arithmetic::div_mod::lemma_mod_bound(code as int, pow2(low) as int);
    crate::bits::lemma_shift_bound(code, low, high);
    assert(code % pow2(low) + (code / pow2(low)) * pow2(low) == code) by (nonlinear_arith)
        requires
            code == pow2(low) * (code / pow2(low)) + code % pow2(low),
    ;
}

/// Counting the bytes that wait in a buffer which is emptied at 0x800,
/// two additions one after the other count as their sum.
pub proof fn lemma_buffer_steps(waiting: int, first: int, second: int)
    ensures
        (((waiting + first) % 0x800) + second) % 0x800 == (waiting + first + second) % 0x800,
{
    vstd::arithmetic::div_mod::lemma_add_mod_noop(waiting + first, second, 0x800);
    vstd::arithmetic::div_mod::lemma_mod_twice(second, 0x800);
    vstd::arithmetic::div_mod::lemma_add_mod_noop((waiting + first) % 0x800, second, 0x800);
    vstd::arithmetic::div_mod::lemma_mod_twice(waiting + first, 0x800);
}

/// Bits shifted to their place in a byte go on top of the bits that the
/// byte holds without a carry.
pub proof fn lemma_low_part(partial: nat, shifted: nat, used: nat)
    requires
        used <= 7,
        partial < pow2(used),
        shifted % pow2(used) == 0,
    ensures
        partial + shifted % 256 < 256,
        shifted < 256 ==> partial + shifted < pow2(8),
{
    lemma2_to64();
    let p = pow2(used);
    lemma_pow2_pos(used);
    lemma_pow2_adds(used, (8 - used) as nat);
    let low = shifted % 256;
    vstd::arithmetic::div_mod::lemma_mod_bound(shifted as int, 256);
    crate::bits::lemma_bits_split(shifted, used, (8 - used) as nat);
    assert(used + (8 - used) as nat == 8);
    assert(low % p == 0);
    vstd::arithmetic::div_mod::lemma_fundamental_div_mod(low as int, p as int);
    let q = low / p;
    assert(low == p * q);
    assert(q < pow2((8 - used) as nat)) by (nonlinear_arith)
        requires
            p * q < p * pow2((8 - used) as nat),
            p > 0,
    ;
    assert(p * q + p <= p * pow2((8 - used) as nat)) by (nonlinear_arith)
        requires
            q < pow2((8 - used) as nat),
            p > 0,
    ;
}

impl ImplodeWriter {
    /// Writes the header into the output buffer: the mode and the number
    /// of low bits of a distance. The bits of the tokens follow from the
    /// third byte on.
    pub fn initialize(&mut self) -> (result: Result<(), PkLibError>)
        requires
            old(self).output_wf(),
        ensures
            result is Ok,
            final(self).output_wf(),
            final(self).initialized,
            old(self).initialized ==> *final(self) == *old(self),
            final(self).emitted@ == old(self).emitted@,
            *final(self) == (ImplodeWriter {
                state: final(self).state,
                initialized: true,
                ..*old(self)
            }),
            final(self).state == (ImplodeState {
                out_buff: final(self).state.out_buff,
                out_bytes: final(self).state.out_bytes,
                out_bits: final(self).state.out_bits,
                ..old(self).state
            }),
    {
        if self.initialized {
            return Ok(());
        }
        self.state.out_buff = [0u8; 0x802];
        self.state.out_buff[0] = self.state.ctype.to_u8();
        self.state.out_buff[1] = self.state.dsize_bits as u8;
        self.state.out_bytes = 2;
        self.state.out_bits = 0;
        self.initialized = true;
        proof {
            lemma2_to64();
            assert(self.sunk().skip(self.prefix@.len() as int) =~= Seq::<u8>::empty());
            assert(self.stored() =~= seq![self.state.out_buff[0], self.state.out_buff[1]]);
            assert(self.stored().skip(2) =~= Seq::<u8>::empty());
            assert(le_value(self.stored().skip(2)) == 0);
        }
        Ok(())
    }

    /// Hands the complete bytes of the output buffer to the sink and moves
    /// the byte that is not yet full to the start of the buffer.
    pub fn flush_output_buffer(&mut self) -> (result: Result<(), PkLibError>)
        requires
            old(self).output_wf(),
            old(self).initialized,
        ensures
            result is Ok,
            final(self).output_wf(),
            final(self).state.out_bytes == 0,
            final(self).writer@ == old(self).writer@ + old(self).state.out_buff@.subrange(
                0,
                old(self).state.out_bytes as int,
            ),
            final(self).stored() == old(self).stored(),
            *final(self) == (ImplodeWriter {
                state: final(self).state,
                writer: final(self).writer,
                ..*old(self)
            }),
            final(self).state == (ImplodeState {
                out_buff: final(self).state.out_buff,
                out_bytes: 0,
                ..old(self).state
            }),
    {
        let count = self.state.out_bytes as usize;
        let save_byte = self.state.out_buff[count];
        let mut i: usize = 0;
        while i < count
            invariant
                i <= count,
                count == self.state.out_bytes,
                count <= 0x800,
                self.state == old(self).state,
                self.writer@ == old(self).writer@ + self.state.out_buff@.subrange(0, i as int),
                *self == (ImplodeWriter { writer: self.writer, ..*old(self) }),
            decreases count - i,
        {
            self.writer.push(self.state.out_buff[i]);
            proof {
                assert(self.state.out_buff@.subrange(0, i as int).push(
                    self.state.out_buff@[i as int],
                ) =~= self.state.out_buff@.subrange(0, i + 1));
            }
            i = i + 1;
        }
        self.state.out_buff = [0u8; 0x802];
        self.state.out_buff[0] = save_byte;
        self.state.out_bytes = 0;
        proof {
            assert(self.stored() =~= old(self).stored());
            assert(self.sunk() =~= old(self).sunk() + old(self).state.out_buff@.subrange(
                0,
                count as int,
            ));
            assert(self.sunk().take(self.prefix@.len() as int) =~= old(self).sunk().take(
                self.prefix@.len() as int,
            ));
        }
        Ok(())
    }

    /// Writes the `n_bits` bits of `bit_buffer`, at most eight, behind the
    /// bits written so far.
    fn put_bits(&mut self, n_bits: u32, bit_buffer: u32)
        requires
            old(self).output_wf(),
            old(self).initialized,
            old(self).state.out_bytes < 0x800,
            n_bits <= 8,
            bit_buffer < pow2(n_bits as nat),
        ensures
            final(self).output_wf(),
            final(self).state.out_bytes < 0x800,
            Self::buffer_step(*old(self), *final(self)),
            final(self).emitted@ == old(self).emitted@.append(
                Bits { value: bit_buffer as nat, len: n_bits as nat },
            ),
            *final(self) == (ImplodeWriter {
                state: final(self).state,
                writer: final(self).writer,
                emitted: final(self).emitted,
                ..*old(self)
            }),
            final(self).state == (ImplodeState {
                out_buff: final(self).state.out_buff,
                out_bytes: final(self).state.out_bytes,
                out_bits: final(self).state.out_bits,
                ..old(self).state
            }),
    {
        let out_bits = self.state.out_bits;
        let out_bytes = self.state.out_bytes as usize;
        let ghost before = self.emitted@;
        let ghost code = Bits { value: bit_buffer as nat, len: n_bits as nat };
        let ghost whole = before.len / 8;
        let ghost front = self.stored().skip(2);
        let ghost partial = self.state.out_buff[out_bytes as int] as nat;
        proof {
            lemma2_to64();
            lemma_pow2_adds(out_bits as nat, n_bits as nat);
            lemma_pow2_adds((8 * whole) as nat, out_bits as nat);
            lemma_pow2_adds((8 * whole) as nat, 8);
            lemma_pow2_pos(out_bits as nat);
            assert(before.len == 8 * whole + out_bits);
            assert(bit_buffer * pow2(out_bits as nat) < pow2((out_bits + n_bits) as nat))
                by (nonlinear_arith)
                requires
                    bit_buffer < pow2(n_bits as nat),
                    pow2((out_bits + n_bits) as nat) == pow2(out_bits as nat) * pow2(
                        n_bits as nat,
                    ),
                    pow2(out_bits as nat) > 0,
            ;
            if out_bits + n_bits < 15 {
                vstd::arithmetic::power2::lemma_pow2_strictly_increases(
                    (out_bits + n_bits) as nat,
                    15,
                );
            }
            lemma_append_wf(before, code);
        }
        let shifted = bit_buffer * power_of_two(out_bits);
        let low = shifted % 256;
        let high = shifted / 256;
        proof {
            vstd::arithmetic::div_mod::lemma_fundamental_div_mod(shifted as int, 256);
            vstd::arithmetic::div_mod::lemma_mod_multiples_basic(
                bit_buffer as int,
                pow2(out_bits as nat) as int,
            );
            lemma_low_part(partial, shifted as nat, out_bits as nat);
            assert(partial + shifted < pow2((out_bits + n_bits) as nat)) by (nonlinear_arith)
                requires
                    partial < pow2(out_bits as nat),
                    bit_buffer < pow2(n_bits as nat),
                    shifted == bit_buffer * pow2(out_bits as nat),
                    pow2((out_bits + n_bits) as nat) == pow2(out_bits as nat) * pow2(
                        n_bits as nat,
                    ),
            ;
            assert(before.append(code).value == before.value + shifted * pow2(
                (8 * whole) as nat,
            )) by (nonlinear_arith)
                requires
                    before.append(code).value == before.value + bit_buffer * pow2(before.len),
                    pow2(before.len) == pow2((8 * whole) as nat) * pow2(out_bits as nat),
                    shifted == bit_buffer * pow2(out_bits as nat),
            ;
        }
        self.state.out_buff[out_bytes] = self.state.out_buff[out_bytes] + low as u8;
        let new_bits = out_bits + n_bits;
        if new_bits >= 8 {
            self.state.out_bytes = self.state.out_bytes + 1;
            self.state.out_buff[out_bytes + 1] = high as u8;
            self.state.out_bits = new_bits - 8;
            proof {
                self.emitted = Ghost(before.append(code));
                let filled = partial + low;
                assert(self.stored() =~= old(self).stored().push(filled as u8));
                assert(self.stored().skip(2) =~= front.push(filled as u8));
                assert(front.push(filled as u8).drop_last() =~= front);
                assert(le_value(front.push(filled as u8)) == filled * pow2((8 * whole) as nat)
                    + le_value(front));
                assert(self.emitted@.len / 8 == whole + 1);
                assert(8 * (whole + 1) == 8 * whole + 8);
                crate::bits::lemma_shift_bound(shifted as nat, 8, (new_bits - 8) as nat);
                assert(8 + (new_bits - 8) as nat == new_bits);
                assert(high * pow2((8 * whole + 8) as nat) + (filled * pow2((8 * whole) as nat)
                    + le_value(front)) == before.value + shifted * pow2((8 * whole) as nat))
                    by (nonlinear_arith)
                    requires
                        pow2((8 * whole + 8) as nat) == pow2((8 * whole) as nat) * 256,
                        shifted == 256 * high + low,
                        filled == partial + low,
                        partial * pow2((8 * whole) as nat) + le_value(front) == before.value,
                ;
            }
        } else {
            self.state.out_bits = new_bits;
            proof {
                self.emitted = Ghost(before.append(code));
                assert(self.stored() =~= old(self).stored());
                assert(self.emitted@.len / 8 == whole);
                assert(high == 0);
                assert((partial + low) * pow2((8 * whole) as nat) + le_value(front)
                    == before.value + shifted * pow2((8 * whole) as nat)) by (nonlinear_arith)
                    requires
                        shifted == low,
                        partial * pow2((8 * whole) as nat) + le_value(front) == before.value,
                ;
                if new_bits < 8 {
                    vstd::arithmetic::power2::lemma_pow2_strictly_increases(new_bits as nat, 8);
                }
            }
        }
        assert(self.state.out_buff[self.state.out_bytes as int] < pow2(
            self.state.out_bits as nat,
        ));
        assert(self.state.out_bits == self.emitted@.len % 8);
        assert(self.stored().len() == 2 + self.emitted@.len / 8);
        assert(self.stored()[0] == old(self).stored()[0]);
        assert(self.stored()[1] == old(self).stored()[1]);
        assert(self.state.out_buff[self.state.out_bytes as int] * pow2(
            (8 * (self.emitted@.len / 8)) as nat,
        ) + le_value(self.stored().skip(2)) == self.emitted@.value);
        assert(self.writer@ == old(self).writer@);
        assert(self.output_wf());
        if self.state.out_bytes >= 0x800 {
            let _ = self.flush_output_buffer();
        }
    }

    /// Writes the `n_bits` bits of `bit_buffer`, at most sixteen, behind
    /// the bits written so far: the low eight first, then the rest. The
    /// output buffer is handed to the sink whenever it holds 0x800 bytes.
    pub fn output_bits(&mut self, n_bits: u32, bit_buffer: u32) -> (result: Result<(), PkLibError>)
        requires
            old(self).output_wf(),
            old(self).initialized,
            old(self).state.out_bytes < 0x800,
            n_bits <= 16,
            bit_buffer < pow2(n_bits as nat),
        ensures
            result is Ok,
            final(self).output_wf(),
            final(self).state.out_bytes < 0x800,
            Self::buffer_step(*old(self), *final(self)),
            final(self).emitted@ == old(self).emitted@.append(
                Bits { value: bit_buffer as nat, len: n_bits as nat },
            ),
            *final(self) == (ImplodeWriter {
                state: final(self).state,
                writer: final(self).writer,
                emitted: final(self).emitted,
                ..*old(self)
            }),
            final(self).state == (ImplodeState {
                out_buff: final(self).state.out_buff,
                out_bytes: final(self).state.out_bytes,
                out_bits: final(self).state.out_bits,
                ..old(self).state
            }),
    {
        if n_bits > 8 {
            proof {
                lemma2_to64();
                lemma_code_split(bit_buffer as nat, 8, (n_bits - 8) as nat);
                assert(8 + (n_bits - 8) as nat == n_bits);
                lemma_append_assoc(
                    self.emitted@,
                    Bits { value: bit_buffer as nat % 256, len: 8 },
                    Bits { value: bit_buffer as nat / 256, len: (n_bits - 8) as nat },
                );
            }
            self.put_bits(8, bit_buffer % 256);
            let ghost half = *self;
            self.put_bits(n_bits - 8, bit_buffer / 256);
            proof {
                lemma_buffer_steps(
                    old(self).waiting(),
                    half.emitted@.len / 8 - old(self).emitted@.len / 8,
                    self.emitted@.len / 8 - half.emitted@.len / 8,
                );
            }
        } else {
            self.put_bits(n_bits, bit_buffer);
        }
        Ok(())
    }

    /// Writes the end marker, and counts the last byte as complete if it
    /// holds any bits, so that the output buffer holds the rest of the
    /// stream: the bits that are still open are zero.
    pub fn write_end_marker(&mut self) -> (result: Result<(), PkLibError>)
        requires
            old(self).output_wf(),
            old(self).initialized,
            old(self).state.out_bytes < 0x800,
        ensures
            result is Ok,
            final(self).emitted@ == old(self).emitted@.append(
                literal_code(old(self).state.ctype, 0x305),
            ),
            final(self).state.out_bytes <= 0x801,
            final(self).prefix@.len() <= final(self).sunk().len(),
            final(self).sunk().take(final(self).prefix@.len() as int) == final(self).prefix@,
            final(self).taken == old(self).taken,
            final(self).stored() == seq![
                old(self).state.ctype.spec_to_u8(),
                old(self).state.dsize_bits as u8,
            ] + bytes_of_bits(final(self).emitted@),
            final(self).input_buffer == old(self).input_buffer,
            final(self).prefix == old(self).prefix,
            final(self).state.ctype == old(self).state.ctype,
            final(self).state.dsize_bits == old(self).state.dsize_bits,
            final(self).state.dsize_bytes == old(self).state.dsize_bytes,
    {
        proof {
            lemma_literal_code_wf(self.state.ctype, 0x305);
        }
        let bits = self.state.literal_bits[0x305] as u32;
        let code = self.state.literal_codes[0x305] as u32;
        let _ = self.output_bits(bits, code);
        let ghost settled = *self;
        let ghost whole = self.emitted@.len / 8;
        let ghost front = self.stored().skip(2);
        if self.state.out_bits > 0 {
            self.state.out_bytes = self.state.out_bytes + 1;
        }
        proof {
            lemma2_to64();
            let body = self.stored().skip(2);
            let all = bytes_of_bits(self.emitted@);
            let last = settled.state.out_buff[settled.state.out_bytes as int];
            assert(front.len() == whole);
            assert(last * pow2((8 * whole) as nat) + le_value(front) == self.emitted@.value);
            if settled.state.out_bits > 0 {
                assert(self.stored() =~= settled.stored().push(last));
                assert(body =~= front.push(last));
                assert(body.drop_last() =~= front);
                assert(body.last() == last);
                assert(body.len() - 1 == whole);
                assert(le_value(body) == (body.last() as nat) * pow2((8 * (body.len() - 1)) as nat)
                    + le_value(body.drop_last()));
            } else {
                assert(self.stored() =~= settled.stored());
                assert(body =~= front);
                assert(last == 0);
                assert(last * pow2((8 * whole) as nat) == 0) by (nonlinear_arith)
                    requires
                        last == 0,
                ;
            }
            assert(le_value(body) == self.emitted@.value);
            assert(body.len() == all.len());
            assert forall|i: int| 0 <= i < body.len() implies body[i] == all[i] by {
                lemma_le_value_byte(body, i);
            }
            assert(body =~= all);
            assert(self.stored() =~= seq![self.stored()[0], self.stored()[1]] + body);
        }
        Ok(())
    }
}

} // verus!
