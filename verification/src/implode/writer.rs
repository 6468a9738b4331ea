//! The streaming compressor: takes input in pieces, compresses each block
//! as soon as the data behind it is there, and closes the stream on
//! `finish`.

use crate::bits::{le_value, Bits};
use crate::common::{CompressionMode, DictionarySize, PkLibError};
use crate::implode::model::{
    compressed_to, implode_spec, parse, prefix_bits, settled, stream_bytes, Token,
};
use crate::implode::progress::{
    lemma_settled_reaches, lemma_settled_stable, lemma_stream_splits,
};
use crate::implode::output::lemma_buffer_steps;
use crate::implode::state::ImplodeState;
use vstd::arithmetic::power2::{lemma2_to64, pow2};
use vstd::prelude::*;

verus! {

/// Compresses the bytes written to it into a sink of bytes.
pub struct ImplodeWriter {
    /// The sink: the compressed bytes that were handed on and not yet taken
    /// out, behind what the sink held at the start.
    pub writer: Vec<u8>,
    /// State of the compression.
    pub state: ImplodeState,
    /// Whether the header was written.
    pub initialized: bool,
    /// Whether the end marker was written.
    pub finished: bool,
    /// The input from position `input_base` on: the dictionary before the
    /// next byte to compress, and what is not compressed yet.
    pub input_buffer: Vec<u8>,
    /// Position in the input of the first byte of `input_buffer`.
    pub input_base: usize,
    /// All input taken so far.
    pub input: Ghost<Seq<u8>>,
    /// What the sink held at the start.
    pub prefix: Ghost<Seq<u8>>,
    /// What was taken out of the sink.
    pub taken: Ghost<Seq<u8>>,
    /// The bits of the tokens written so far.
    pub emitted: Ghost<Bits>,
}

impl ImplodeWriter {
    /// All that went into the sink: what was taken out of it and what it
    /// holds.
    pub open spec fn sunk(&self) -> Seq<u8> {
        self.taken@ + self.writer@
    }

    /// The complete bytes of the compressed stream that exist so far: those
    /// that went into the sink behind its start, and those in the output
    /// buffer.
    pub open spec fn stored(&self) -> Seq<u8> {
        self.sunk().skip(self.prefix@.len() as int) + self.state.out_buff@.subrange(
            0,
            self.state.out_bytes as int,
        )
    }

    /// The sink and the output buffer hold the header and the bits written
    /// so far: the complete bytes, and in the byte behind them the bits
    /// that do not fill a byte yet. The output buffer is zero beyond.
    pub open spec fn output_wf(&self) -> bool {
        &&& self.state.tables_wf()
        &&& self.prefix@.len() <= self.sunk().len()
        &&& self.sunk().take(self.prefix@.len() as int) == self.prefix@
        &&& !self.initialized ==> self.sunk() == self.prefix@ && self.emitted@ == (Bits {
            value: 0,
            len: 0,
        })
        &&& self.initialized ==> {
            &&& self.state.out_bytes <= 0x800
            &&& self.state.out_bits <= 7
            &&& self.emitted@.wf()
            &&& self.state.out_bits == self.emitted@.len % 8
            &&& self.stored().len() == 2 + self.emitted@.len / 8
            &&& self.stored()[0] == self.state.ctype.spec_to_u8()
            &&& self.stored()[1] == self.state.dsize_bits
            &&& self.state.out_buff[self.state.out_bytes as int] < pow2(self.state.out_bits as nat)
            &&& self.state.out_buff[self.state.out_bytes as int] * pow2(
                (8 * (self.emitted@.len / 8)) as nat,
            ) + le_value(self.stored().skip(2)) == self.emitted@.value
            &&& forall|i: int|
                self.state.out_bytes < i < 0x802 ==> #[trigger] self.state.out_buff[i] == 0
        }
    }

    /// Number of complete bytes in the output buffer; before the header is
    /// written, the two bytes of the header that will be there.
    pub open spec fn waiting(&self) -> int {
        if self.initialized {
            self.state.out_bytes as int
        } else {
            2
        }
    }

    /// The output buffer is handed to the sink whenever it holds 0x800
    /// complete bytes: between `before` and `after`, the bytes that became
    /// complete went into the buffer, and each time it was full, out of
    /// it.
    pub open spec fn buffer_step(before: ImplodeWriter, after: ImplodeWriter) -> bool {
        after.waiting() == (before.waiting() + after.emitted@.len / 8 - before.emitted@.len / 8)
            % 0x800
    }

    /// Only the sink, the output buffer and the bits written differ
    /// between `before` and `after`.
    pub open spec fn output_step(before: ImplodeWriter, after: ImplodeWriter) -> bool {
        &&& after == (ImplodeWriter {
            state: after.state,
            writer: after.writer,
            emitted: after.emitted,
            ..before
        })
        &&& after.state == (ImplodeState {
            out_buff: after.state.out_buff,
            out_bytes: after.state.out_bytes,
            out_bits: after.state.out_bits,
            ..before.state
        })
    }

    /// The bits of the tokens of the input up to `pos`.
    pub open spec fn bits_before(&self, pos: int) -> Bits {
        prefix_bits(
            self.state.ctype,
            self.state.dsize_bits as int,
            self.input@,
            0,
            pos,
            self.state.dsize_bytes as int,
        )
    }

    /// The bits written so far are those of the tokens of the input up to
    /// `pos`, where a token ends.
    pub open spec fn progress_wf(&self, pos: int) -> bool {
        &&& 0 <= pos <= self.input@.len()
        &&& self.emitted@ == self.bits_before(pos)
        &&& crate::implode::model::reaches(
            self.input@,
            0,
            pos,
            self.state.dsize_bytes as int,
        )
    }

    /// The input buffer holds the input from `input_base` on, which lies
    /// at least a dictionary before the next byte to compress.
    pub open spec fn input_wf(&self) -> bool {
        &&& self.input@.len() <= usize::MAX
        &&& self.input_base + self.input_buffer@.len() == self.input@.len()
        &&& self.input_buffer@ == self.input@.skip(self.input_base as int)
        &&& self.state.input_pos <= self.input@.len()
        &&& self.input_base + vstd::math::min(
            self.state.input_pos as int,
            self.state.dsize_bytes as int,
        ) <= self.state.input_pos
    }

    /// The writer is ready to take input: what it compressed so far are
    /// tokens that no further input changes.
    pub open spec fn wf(&self) -> bool {
        &&& self.output_wf()
        &&& self.input_wf()
        &&& self.state.index_wf()
        &&& self.state.work_bytes <= 0x2204
        &&& self.initialized ==> self.state.out_bytes < 0x800
        &&& !self.initialized ==> self.state.input_pos == 0
        &&& self.progress_wf(self.state.input_pos as int)
        &&& settled(
            self.input@,
            0,
            self.state.input_pos as int,
            self.state.dsize_bytes as int,
        )
        &&& !self.finished
    }

    /// A compressor that writes behind what `writer` holds.
    pub fn new(writer: Vec<u8>, mode: CompressionMode, dict_size: DictionarySize) -> (result: Result<
        ImplodeWriter,
        PkLibError,
    >)
        ensures
            result is Ok,
            result->Ok_0.wf(),
            result->Ok_0.prefix@ == writer@,
            result->Ok_0.writer@ == writer@,
            result->Ok_0.taken@.len() == 0,
            result->Ok_0.input@.len() == 0,
            result->Ok_0.state.ctype == mode,
            result->Ok_0.state.dsize_bits == dict_size.spec_bits(),
            result->Ok_0.state.dsize_bytes == dict_size.spec_bytes(),
            !result->Ok_0.initialized,
    {
        let state = match ImplodeState::new(mode, dict_size) {
            Ok(state) => state,
            Err(e) => {
                return Err(e);
            },
        };
        let ghost prefix = writer@;
        let result = ImplodeWriter {
            writer,
            state,
            initialized: false,
            finished: false,
            input_buffer: Vec::new(),
            input_base: 0,
            input: Ghost(Seq::empty()),
            prefix: Ghost(prefix),
            taken: Ghost(Seq::empty()),
            emitted: Ghost(Bits { value: 0, len: 0 }),
        };
        proof {
            assert(result.sunk() =~= prefix);
            assert(result.input_buffer@ =~= result.input@.skip(0));
            assert(result.sunk().take(prefix.len() as int) =~= prefix);
        }
        Ok(result)
    }

    /// Takes `buf` as further input and compresses every block of 0x1000
    /// bytes behind which the 516 bytes that a repetition may reach are
    /// there. Input that lies more than a dictionary before the next byte
    /// to compress is let go. Returns the number of bytes taken, which is
    /// all of them. The whole input must not be longer than the greatest
    /// number that the machine holds.
    pub fn write(&mut self, buf: &[u8]) -> (result: Result<usize, PkLibError>)
        requires
            old(self).wf(),
            old(self).input@.len() + buf@.len() <= usize::MAX,
        ensures
            result == Ok::<usize, PkLibError>(buf@.len() as usize),
            final(self).wf(),
            final(self).input@ == old(self).input@ + buf@,
            final(self).prefix == old(self).prefix,
            final(self).taken == old(self).taken,
            final(self).state.ctype == old(self).state.ctype,
            final(self).state.dsize_bits == old(self).state.dsize_bits,
            final(self).state.dsize_bytes == old(self).state.dsize_bytes,
            final(self).state.input_pos == compressed_to(
                old(self).input@ + buf@,
                old(self).state.input_pos as int,
                old(self).state.dsize_bytes as int,
            ),
            final(self).input@.len() - final(self).state.input_pos < 0x1204,
            final(self).input_buffer@.len() < 0x1204 + final(self).state.dsize_bytes + 0x4000,
            Self::buffer_step(*old(self), *final(self)),
    {
        let ghost before = self.input@;
        self.input_buffer.extend_from_slice(buf);
        proof {
            self.input = Ghost(before + buf@);
            assert(self.input@.take(before.len() as int) =~= before);
            assert(self.input_buffer@ =~= self.input@.skip(self.input_base as int));
            lemma_settled_stable(
                self.state.ctype,
                self.state.dsize_bits as int,
                before,
                self.input@,
                0,
                self.state.input_pos as int,
                self.state.dsize_bytes as int,
            );
            lemma_settled_reaches(
                self.input@,
                0,
                self.state.input_pos as int,
                self.state.dsize_bytes as int,
            );
        }
        proof {
            assert(self.initialized ==> self.waiting() % 0x800 == self.waiting());
        }
        while self.input_base + self.input_buffer.len() - self.state.input_pos >= 0x1204
            invariant
                self.wf(),
                self.input@ == old(self).input@ + buf@,
                self.prefix == old(self).prefix,
                self.taken == old(self).taken,
                self.state.ctype == old(self).state.ctype,
                self.state.dsize_bits == old(self).state.dsize_bits,
                self.state.dsize_bytes == old(self).state.dsize_bytes,
                self.state.input_pos >= old(self).state.input_pos,
                Self::buffer_step(*old(self), *self),
                compressed_to(
                    self.input@,
                    self.state.input_pos as int,
                    self.state.dsize_bytes as int,
                ) == compressed_to(
                    self.input@,
                    old(self).state.input_pos as int,
                    self.state.dsize_bytes as int,
                ),
            decreases self.input@.len() - self.state.input_pos,
        {
            let ghost entered = *self;
            let _ = self.initialize();
            self.load_window();
            let ghost loaded = *self;
            let _ = self.compress_buffer();
            proof {
                lemma_buffer_steps(
                    old(self).waiting(),
                    entered.emitted@.len / 8 - old(self).emitted@.len / 8,
                    self.emitted@.len / 8 - loaded.emitted@.len / 8,
                );
            }
        }
        self.release_input();
        Ok(buf.len())
    }

    /// Lets go of the input that lies more than a dictionary before the
    /// next byte to compress, once that is 0x4000 bytes or more.
    pub fn release_input(&mut self)
        requires
            old(self).input_wf(),
            old(self).state.tables_wf(),
        ensures
            final(self).input_wf(),
            final(self).input_base == ({
                let keep = old(self).state.input_pos - vstd::math::min(
                    old(self).state.input_pos as int,
                    old(self).state.dsize_bytes as int,
                );
                if keep - old(self).input_base >= 0x4000 {
                    keep
                } else {
                    old(self).input_base as int
                }
            }),
            final(self).state.input_pos - final(self).input_base < 0x4000 + final(self).state.dsize_bytes,
            *final(self) == (ImplodeWriter {
                input_buffer: final(self).input_buffer,
                input_base: final(self).input_base,
                ..*old(self)
            }),
    {
        proof {
            lemma2_to64();
        }
        let dict = self.state.dsize_bytes as usize;
        let back = if self.state.input_pos < dict {
            self.state.input_pos
        } else {
            dict
        };
        let keep_from = self.state.input_pos - back;
        if keep_from - self.input_base >= 0x4000 {
            let tail = self.input_buffer.split_off(keep_from - self.input_base);
            self.input_buffer = tail;
            self.input_base = keep_from;
            proof {
                assert(self.input_buffer@ =~= self.input@.skip(self.input_base as int));
            }
        }
    }

    /// Hands the complete bytes of the output buffer on to the sink.
    pub fn flush(&mut self) -> (result: Result<(), PkLibError>)
        requires
            old(self).wf(),
        ensures
            result is Ok,
            final(self).wf(),
            final(self).input == old(self).input,
            final(self).stored() == old(self).stored(),
            final(self).prefix == old(self).prefix,
            final(self).taken == old(self).taken,
            final(self).emitted == old(self).emitted,
            final(self).initialized == old(self).initialized,
            final(self).initialized ==> final(self).state.out_bytes == 0,
            final(self).state.input_pos == old(self).state.input_pos,
            final(self).state.ctype == old(self).state.ctype,
            final(self).state.dsize_bits == old(self).state.dsize_bits,
            final(self).state.dsize_bytes == old(self).state.dsize_bytes,
    {
        if self.initialized {
            let result = self.flush_output_buffer();
            proof {
                old(self).state.lemma_index_frame(self.state);
            }
            result
        } else {
            Ok(())
        }
    }

    /// Takes out of the sink what it holds. All that is taken out, in
    /// order, and what `finish` returns make up the compressed stream.
    pub fn take_output(&mut self) -> (output: Vec<u8>)
        requires
            old(self).wf(),
        ensures
            final(self).wf(),
            output@ == old(self).writer@,
            final(self).writer@.len() == 0,
            final(self).taken@ == old(self).taken@ + old(self).writer@,
            *final(self) == (ImplodeWriter {
                writer: final(self).writer,
                taken: final(self).taken,
                ..*old(self)
            }),
    {
        let mut output = Vec::new();
        core::mem::swap(&mut output, &mut self.writer);
        proof {
            self.taken = Ghost(self.taken@ + output@);
            assert(self.sunk() =~= old(self).sunk());
        }
        output
    }

    /// Compresses the input that is left, writes the end marker and hands
    /// the rest of the stream to the sink, which is returned. What the sink
    /// held at the start, and behind it the compressed stream of all input,
    /// is what was taken out of the sink and what is returned.
    #[verifier::loop_isolation(false)]
    pub fn finish(self) -> (result: Result<Vec<u8>, PkLibError>)
        requires
            self.wf(),
        ensures
            result is Ok,
            self.taken@ + result->Ok_0@ == self.prefix@ + stream_bytes(
                self.state.ctype,
                self.state.dsize_bits as int,
                parse(self.input@, 0, self.state.dsize_bytes as int),
            ),
    {
        let mut this = self;
        let _ = this.initialize();
        let _ = this.flush_remaining_data();
        proof {
            let data = this.input@;
            let dict = this.state.dsize_bytes as int;
            assert(parse(data, data.len() as int, dict) =~= Seq::<Token>::empty());
            lemma_stream_splits(
                this.state.ctype,
                this.state.dsize_bits as int,
                data,
                0,
                data.len() as int,
                dict,
            );
        }
        let _ = this.write_end_marker();
        let count = this.state.out_bytes as usize;
        let ghost start = this.writer@;
        let ghost marked = this;
        let mut i: usize = 0;
        while i < count
            invariant
                i <= count,
                this == (ImplodeWriter { writer: this.writer, ..marked }),
                count == this.state.out_bytes,
                count <= 0x801,
                this.writer@ == start + this.state.out_buff@.subrange(0, i as int),
            decreases count - i,
        {
            this.writer.push(this.state.out_buff[i]);
            proof {
                assert(this.state.out_buff@.subrange(0, i as int).push(
                    this.state.out_buff@[i as int],
                ) =~= this.state.out_buff@.subrange(0, i + 1));
            }
            i = i + 1;
        }
        this.finished = true;
        proof {
            let prefix = this.prefix@;
            let all = this.taken@ + this.writer@;
            let before = marked.sunk();
            assert(prefix.len() <= before.len());
            assert(before.take(prefix.len() as int) == prefix);
            assert(all =~= before + marked.state.out_buff@.subrange(0, count as int));
            assert(before =~= before.take(prefix.len() as int) + before.skip(prefix.len() as int));
            assert(all =~= prefix + marked.stored());
        }
        Ok(this.writer)
    }
}

/// Compresses `data` in memory: the stream of `implode_spec`.
pub fn implode_bytes(data: &[u8], mode: CompressionMode, dict_size: DictionarySize) -> (result: Result<
    Vec<u8>,
    PkLibError,
>)
    ensures
        result is Ok,
        result->Ok_0@ == implode_spec(data@, mode, dict_size),
{
    let mut writer = match ImplodeWriter::new(Vec::new(), mode, dict_size) {
        Ok(writer) => writer,
        Err(e) => {
            return Err(e);
        },
    };
    proof {
        assert(data@.len() == data.len());
    }
    let _ = writer.write(data);
    proof {
        assert(writer.input@ =~= data@);
        assert(writer.prefix@ =~= Seq::<u8>::empty());
        assert(writer.taken@ =~= Seq::<u8>::empty());
    }
    let ghost taken = writer.taken@;
    let result = writer.finish();
    proof {
        let stream = implode_spec(data@, mode, dict_size);
        assert(Seq::<u8>::empty() + stream =~= stream);
        assert(taken + result->Ok_0@ =~= result->Ok_0@);
    }
    result
}

} // verus!
