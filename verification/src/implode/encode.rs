//! Writing tokens: literals and repetitions.

use crate::bits::{lemma_append_assoc, power_of_two, Bits};
use crate::common::PkLibError;
use crate::implode::model::{distance_code, distance_low_bits, literal_code, token_bits, Token};
use crate::implode::output::{lemma_buffer_steps, lemma_literal_code_wf};
use crate::implode::pattern::MatchResult;
use crate::implode::writer::ImplodeWriter;
use crate::tables::{DIST_BITS, DIST_CODE};
use vstd::arithmetic::power2::{lemma2_to64, lemma_pow2_pos, pow2};
use vstd::prelude::*;

verus! {

impl ImplodeWriter {
    /// Writes the code of a literal byte.
    pub fn encode_literal(&mut self, byte: u8) -> (result: Result<(), PkLibError>)
        requires
            old(self).output_wf(),
            old(self).initialized,
            old(self).state.out_bytes < 0x800,
        ensures
            result is Ok,
            final(self).output_wf(),
            final(self).state.out_bytes < 0x800,
            Self::buffer_step(*old(self), *final(self)),
            final(self).emitted@ == old(self).emitted@.append(
                literal_code(old(self).state.ctype, byte as int),
            ),
            Self::output_step(*old(self), *final(self)),
    {
        proof {
            lemma_literal_code_wf(self.state.ctype, byte as int);
        }
        let bits = self.state.literal_bits[byte as usize] as u32;
        let code = self.state.literal_codes[byte as usize] as u32;
        self.output_bits(bits, code)
    }

    /// A repetition has a code: two to 518 bytes, at a distance of at
    /// least one whose high part is one of the 64 that have a code.
    pub open spec fn encodable(&self, length: int, distance: int) -> bool {
        &&& 2 <= length <= 518
        &&& 1 <= distance
        &&& (distance - 1) / (pow2(
            distance_low_bits(self.state.dsize_bits as int, length) as nat,
        ) as int) < 64
    }

    /// Writes the codes of a repetition: its length, then its distance.
    /// A repetition without a code is rejected and nothing is written: a
    /// length outside 2 to 518 as `InvalidLength`, else a distance of zero
    /// or beyond the 64 high parts as `InvalidDistance`.
    #[verifier::rlimit(60)]
    pub fn encode_match(&mut self, match_result: MatchResult) -> (result: Result<(), PkLibError>)
        requires
            old(self).output_wf(),
            old(self).initialized,
            old(self).state.out_bytes < 0x800,
        ensures
            final(self).output_wf(),
            final(self).state.out_bytes < 0x800,
            Self::output_step(*old(self), *final(self)),
            Self::buffer_step(*old(self), *final(self)),
            !(2 <= match_result.length <= 518) ==> result == Err::<(), PkLibError>(
                PkLibError::InvalidLength(match_result.length as u32),
            ) && *final(self) == *old(self),
            2 <= match_result.length <= 518 && !old(self).encodable(
                match_result.length as int,
                match_result.distance as int,
            ) ==> result == Err::<(), PkLibError>(
                PkLibError::InvalidDistance(match_result.distance as u32),
            ) && *final(self) == *old(self),
            old(self).encodable(match_result.length as int, match_result.distance as int)
                ==> result is Ok && final(self).emitted@ == old(self).emitted@.append(
                token_bits(
                    old(self).state.ctype,
                    old(self).state.dsize_bits as int,
                    Token::Repeat {
                        length: match_result.length as int,
                        distance: match_result.distance as int,
                    },
                ),
            ),
    {
        let length = match_result.length;
        let distance = match_result.distance;
        if length < 2 || length > 518 {
            return Err(PkLibError::InvalidLength(#[verifier::truncate] (length as u32)));
        }
        let low_count: u32 = if length == 2 {
            2
        } else {
            self.state.dsize_bits
        };
        proof {
            lemma2_to64();
            lemma_pow2_pos(low_count as nat);
        }
        let low_size = power_of_two(low_count) as usize;
        if distance == 0 || (distance - 1) / low_size >= 64 {
            return Err(PkLibError::InvalidDistance(#[verifier::truncate] (distance as u32)));
        }
        let length_code = length + 0xFE;
        let dist_code_index = (distance - 1) / low_size;
        let low = ((distance - 1) % low_size) as u32;
        let ghost before = self.emitted@;
        let ghost mode = self.state.ctype;
        let ghost length_bits = literal_code(mode, length_code as int);
        let ghost high_bits = Bits {
            value: DIST_CODE[dist_code_index as int] as nat,
            len: DIST_BITS[dist_code_index as int] as nat,
        };
        let ghost low_bits = Bits { value: low as nat, len: low_count as nat };
        proof {
            lemma_literal_code_wf(mode, length_code as int);
            assert(forall|i: int|
                0 <= i < 64 ==> #[trigger] DIST_BITS[i] <= 8 && DIST_CODE[i] < pow2(
                    DIST_BITS[i] as nat,
                ));
            vstd::arithmetic::div_mod::lemma_mod_bound((distance - 1) as int, low_size as int);
            assert(high_bits.append(low_bits) == distance_code(
                self.state.dsize_bits as int,
                length as int,
                distance as int,
            )) by {
                assert(low as nat * pow2(high_bits.len) == pow2(high_bits.len) * low as nat)
                    by (nonlinear_arith);
            }
            lemma_append_assoc(before.append(length_bits), high_bits, low_bits);
            lemma_append_assoc(before, length_bits, high_bits.append(low_bits));
        }
        let bits = self.state.literal_bits[length_code] as u32;
        let code = self.state.literal_codes[length_code] as u32;
        let _ = self.output_bits(bits, code);
        let ghost first = *self;
        let dist_bits = self.state.dist_bits[dist_code_index] as u32;
        let dist_code = self.state.dist_codes[dist_code_index] as u32;
        let _ = self.output_bits(dist_bits, dist_code);
        let ghost second = *self;
        let _ = self.output_bits(low_count, low);
        proof {
            let start = old(self).emitted@.len / 8;
            lemma_buffer_steps(
                old(self).waiting(),
                first.emitted@.len / 8 - start,
                second.emitted@.len / 8 - first.emitted@.len / 8,
            );
            lemma_buffer_steps(
                old(self).waiting(),
                second.emitted@.len / 8 - start,
                self.emitted@.len / 8 - second.emitted@.len / 8,
            );
        }
        Ok(())
    }
}

} // verus!
