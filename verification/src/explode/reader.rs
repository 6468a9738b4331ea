//! A reader that takes a compressed stream in pieces and hands out the
//! decompressed bytes on demand.

use crate::bits::{bits_of_bytes, Bits};
use crate::common::PkLibError;
use crate::explode::extend::{
    lemma_extends_parts, lemma_more_bytes_extend, lemma_reached_extends,
    lemma_reached_run, lemma_reached_skips, lemma_skip_bytes, reached,
};
use crate::explode::model::{
    explode_outcome, explode_partial, explode_run, explode_spec, explode_step,
    lemma_explode_run_extends, lemma_explode_step_rest, mode_of_byte, Outcome, Step,
};
use crate::explode::state::ExplodeState;
use vstd::prelude::*;

verus! {

/// Whether more input may turn the error into another outcome: that is so
/// for the errors of an input that ends too early.
pub open spec fn may_change(e: PkLibError) -> bool {
    e is InvalidFormat || e is UnexpectedEof
}

/// Decompresses a stream block by block and hands the output out in the
/// pieces that the caller asks for. The stream may be given whole, or
/// piece by piece with `feed` until `close`.
pub struct ExplodeReader {
    /// The header, and behind it the input that was given and not let go.
    pub input: Vec<u8>,
    /// Whether all input was given.
    pub closed: bool,
    /// State of the decompression.
    pub state: ExplodeState,
    /// Whether the header was read.
    pub initialized: bool,
    /// Whether the end marker was read.
    pub finished: bool,
    /// Output that was decompressed and not yet handed out, from
    /// `output_pos` on.
    pub output_buffer: Vec<u8>,
    /// Index in `output_buffer` of the next byte to hand out.
    pub output_pos: usize,
    /// All output decompressed so far.
    pub history: Ghost<Seq<u8>>,
    /// Number of bytes handed out so far.
    pub delivered: Ghost<int>,
    /// All input given so far.
    pub fed: Ghost<Seq<u8>>,
    /// Number of bytes behind the header that were let go.
    pub dropped: Ghost<int>,
    /// Number of tokens accepted so far.
    pub steps: Ghost<nat>,
}

impl ExplodeReader {
    /// Number of bytes that left the window: those handed out and those
    /// waiting in `output_buffer`.
    pub open spec fn flushed(&self) -> int {
        self.delivered@ + self.output_buffer.len() - self.output_pos
    }

    /// Number of bytes waiting in `output_buffer`.
    pub open spec fn buffered(&self) -> int {
        self.output_buffer.len() - self.output_pos
    }

    /// The token stream of the input given so far.
    pub open spec fn stream(&self) -> Bits {
        bits_of_bytes(self.fed@.skip(2))
    }

    /// The reader's fields agree with each other and with the input given
    /// so far: the tokens accepted lead from the start of the stream to
    /// where the reader stands, with the output decompressed so far, of
    /// which every finished block of 0x1000 bytes but the last has left the
    /// window.
    pub open spec fn base_wf(&self) -> bool {
        &&& self.output_pos <= self.output_buffer.len()
        &&& 0 <= self.delivered@
        &&& 0 <= self.dropped@
        &&& !self.initialized ==> !self.finished && self.output_buffer.len() == 0
            && self.delivered@ == 0 && self.history@.len() == 0 && self.dropped@ == 0
            && self.steps@ == 0 && self.input@ == self.fed@
        &&& self.initialized ==> {
            &&& ExplodeState::header_valid(self.fed@)
            &&& self.state.tables_wf()
            &&& self.state.ctype == mode_of_byte(self.fed@[0])
            &&& self.state.dsize_bits == self.fed@[1]
            &&& 2 + self.dropped@ <= self.fed@.len()
            &&& self.input@ == self.fed@.take(2) + self.fed@.skip(2 + self.dropped@)
            &&& self.flushed() <= self.history@.len()
            &&& self.output_buffer@.skip(self.output_pos as int) == self.history@.subrange(
                self.delivered@,
                self.flushed(),
            )
            &&& !self.finished ==> {
                &&& self.state.reader_wf(self.input@)
                &&& self.state.window_holds(self.history@)
                &&& self.history@.len() - self.flushed() == self.state.output_pos - 0x1000
                &&& self.flushed() % 0x1000 == 0
                &&& reached(
                    self.state.ctype,
                    self.state.dsize_bits as int,
                    self.stream(),
                    Seq::<u8>::empty(),
                    self.steps@,
                ) == Some((self.state.rest(self.input@), self.history@))
            }
            &&& self.finished ==> explode_outcome(self.fed@) == (Outcome {
                output: self.history@,
                error: None,
            }) && self.flushed() == self.history@.len()
        }
    }

    /// The reader's fields agree with each other and with the input given
    /// so far, and every finished block of 0x1000 bytes has left the
    /// window.
    pub open spec fn wf(&self) -> bool {
        &&& self.base_wf()
        &&& self.initialized && !self.finished ==> self.state.output_pos < 0x2000
    }

    /// Where the reader stands, decompression of what is left gives what
    /// decompression of the whole input gives, and the output so far is
    /// the start of it.
    pub proof fn lemma_outcome(&self)
        requires
            self.wf(),
            self.initialized,
            !self.finished,
        ensures
            self.state.rest(self.input@).len >= 8,
            explode_run(
                self.state.ctype,
                self.state.dsize_bits as int,
                self.state.rest(self.input@),
                self.history@,
            ) == explode_outcome(self.fed@),
            self.history@.len() <= explode_partial(self.fed@).len(),
            self.history@ == explode_partial(self.fed@).take(self.history@.len() as int),
            self.state.window_wf(self.history@),
    {
        vstd::arithmetic::div_mod::lemma_fundamental_div_mod(self.flushed(), 0x1000);
        vstd::arithmetic::div_mod::lemma_fundamental_div_mod_converse(
            self.history@.len() as int,
            0x1000,
            self.flushed() / 0x1000,
            self.state.output_pos - 0x1000,
        );
        let mode = self.state.ctype;
        let bits = self.state.dsize_bits as int;
        lemma_reached_run(mode, bits, self.stream(), Seq::<u8>::empty(), self.steps@);
        lemma_explode_run_extends(mode, bits, self.state.rest(self.input@), self.history@);
    }

    /// While a block waits in the window, the output decompressed so far
    /// is the start of what decompression of the input given so far gives.
    pub proof fn lemma_base_partial(&self)
        requires
            self.base_wf(),
            self.initialized,
            !self.finished,
        ensures
            self.history@.len() <= explode_partial(self.fed@).len(),
            self.history@ == explode_partial(self.fed@).take(self.history@.len() as int),
    {
        let mode = self.state.ctype;
        let bits = self.state.dsize_bits as int;
        lemma_reached_run(mode, bits, self.stream(), Seq::<u8>::empty(), self.steps@);
        lemma_explode_run_extends(mode, bits, self.state.rest(self.input@), self.history@);
    }

    /// The output decompressed so far is the start of what decompression
    /// of the input given so far gives.
    pub proof fn lemma_partial(&self)
        requires
            self.wf(),
            self.initialized,
        ensures
            self.history@.len() <= explode_partial(self.fed@).len(),
            self.history@ == explode_partial(self.fed@).take(self.history@.len() as int),
    {
        if !self.finished {
            self.lemma_outcome();
        } else {
            assert(self.history@ =~= self.history@.take(self.history@.len() as int));
        }
    }

    /// Number of bytes that the next `read` can hand out: what waits in
    /// the buffer, else the next block of 0x1000 bytes, else what is left
    /// before the end marker. It is 0 where decompression of the input
    /// given so far stops at an error.
    pub open spec fn next_available(&self) -> int {
        let outcome = explode_outcome(self.fed@);
        if self.buffered() > 0 {
            self.buffered()
        } else if self.finished {
            0
        } else if self.delivered@ + 0x1000 <= outcome.output.len() {
            0x1000
        } else if outcome.error is None {
            outcome.output.len() - self.delivered@
        } else {
            0
        }
    }

    /// A reader of the stream `input`, which is all the input. Nothing is
    /// read before the first call of `read` or `expand`.
    pub fn new(input: Vec<u8>) -> (result: Result<ExplodeReader, PkLibError>)
        ensures
            result is Ok,
            result->Ok_0.wf(),
            result->Ok_0.input@ == input@,
            result->Ok_0.fed@ == input@,
            result->Ok_0.closed,
            !result->Ok_0.initialized,
            !result->Ok_0.finished,
            result->Ok_0.delivered@ == 0,
            result->Ok_0.output_pos == 0,
            result->Ok_0.output_buffer@.len() == 0,
    {
        let ghost fed = input@;
        Ok(
            ExplodeReader {
                input,
                closed: true,
                state: ExplodeState::new(),
                initialized: false,
                finished: false,
                output_buffer: Vec::new(),
                output_pos: 0,
                history: Ghost(Seq::empty()),
                delivered: Ghost(0),
                fed: Ghost(fed),
                dropped: Ghost(0),
                steps: Ghost(0),
            },
        )
    }

    /// A reader that has no input yet: the stream is given piece by piece
    /// with `feed`, and `close` tells that it is complete.
    pub fn open() -> (reader: ExplodeReader)
        ensures
            reader.wf(),
            reader.fed@.len() == 0,
            !reader.closed,
            !reader.initialized,
            !reader.finished,
            reader.delivered@ == 0,
    {
        ExplodeReader {
            input: Vec::new(),
            closed: false,
            state: ExplodeState::new(),
            initialized: false,
            finished: false,
            output_buffer: Vec::new(),
            output_pos: 0,
            history: Ghost(Seq::empty()),
            delivered: Ghost(0),
            fed: Ghost(Seq::empty()),
            dropped: Ghost(0),
            steps: Ghost(0),
        }
    }

    /// Takes `more` as the next piece of the stream. Input behind the end
    /// marker is not taken.
    #[verifier::rlimit(40)]
    pub fn feed(&mut self, more: &[u8])
        requires
            old(self).wf(),
            !old(self).closed,
        ensures
            final(self).wf(),
            final(self).fed@ == if old(self).finished {
                old(self).fed@
            } else {
                old(self).fed@ + more@
            },
            *final(self) == (ExplodeReader {
                input: final(self).input,
                fed: final(self).fed,
                ..*old(self)
            }),
    {
        if self.finished {
            return ;
        }
        let ghost before = self.fed@;
        let ghost held = self.input@;
        self.input.extend_from_slice(more);
        proof {
            self.fed = Ghost(before + more@);
            let now = self.fed@;
            if self.initialized {
                let mode = self.state.ctype;
                let bits = self.state.dsize_bits as int;
                let nothing = Seq::<u8>::empty();
                let dropped = self.dropped@;
                let old_stream = bits_of_bytes(before.skip(2));
                let new_stream = bits_of_bytes(now.skip(2));
                let consumed = self.state.consumed() as nat;
                let place = (8 * dropped + consumed) as nat;
                assert(now.skip(2) =~= before.skip(2) + more@);
                assert(self.input@ =~= now.take(2) + now.skip(2 + dropped));
                assert(held.skip(2) =~= before.skip(2).skip(dropped));
                assert(self.input@.skip(2) =~= now.skip(2).skip(dropped));
                lemma_more_bytes_extend(before.skip(2), more@);
                lemma_skip_bytes(before.skip(2), dropped, consumed);
                lemma_skip_bytes(now.skip(2), dropped, consumed);
                let old_rest = old(self).state.rest(held);
                let new_rest = self.state.rest(self.input@);
                assert(old_rest == old_stream.skip(place));
                assert(new_rest == new_stream.skip(place));
                lemma_reached_skips(mode, bits, old_stream, nothing, self.steps@);
                lemma_extends_parts(new_stream, old_stream, place);
                lemma_extends_parts(new_rest, old_rest, (8 + self.state.extra_bits) as nat);
                lemma_reached_extends(mode, bits, new_stream, old_stream, nothing, self.steps@);
                lemma_reached_skips(mode, bits, new_stream, nothing, self.steps@);
            } else {
                assert(self.input@ =~= now);
            }
        }
    }

    /// Tells that all input was given: an input that ends too early is
    /// an error from now on.
    pub fn close(&mut self)
        requires
            old(self).wf(),
        ensures
            final(self).wf(),
            *final(self) == (ExplodeReader { closed: true, ..*old(self) }),
    {
        self.closed = true;
    }

    /// Reads the header and builds the derived tables, once. As long as
    /// the header is not complete and more input may come, nothing is
    /// done.
    #[verifier::rlimit(40)]
    pub fn initialize(&mut self) -> (result: Result<(), PkLibError>)
        requires
            old(self).wf(),
        ensures
            old(self).initialized ==> result is Ok && *final(self) == *old(self),
            !old(self).initialized ==> {
                let error = explode_outcome(old(self).fed@).error;
                if ExplodeState::header_valid(old(self).fed@) {
                    result is Ok && final(self).wf() && final(self).initialized
                } else if may_change(error->Some_0) && !old(self).closed {
                    result is Ok && *final(self) == *old(self)
                } else {
                    result == Err::<(), PkLibError>(error->Some_0)
                }
            },
            !ExplodeState::header_valid(old(self).fed@) ==> explode_outcome(
                old(self).fed@,
            ).error is Some && explode_partial(old(self).fed@).len() == 0,
            final(self).fed == old(self).fed,
            final(self).closed == old(self).closed,
            final(self).finished == old(self).finished,
            final(self).output_buffer@ == old(self).output_buffer@,
            final(self).output_pos == old(self).output_pos,
            final(self).delivered@ == old(self).delivered@,
    {
        if self.initialized {
            return Ok(());
        }
        let n = self.input.len();
        if n < 3 && !self.closed {
            if n >= 1 && self.input[0] > 1 {
                return Err(PkLibError::InvalidCompressionMode(self.input[0]));
            }
            if n >= 2 && (self.input[1] < 4 || self.input[1] > 6) {
                return Err(PkLibError::InvalidDictionaryBits(self.input[1]));
            }
            return Ok(());
        }
        match self.state.initialize(self.input.as_slice()) {
            Ok(()) => {},
            Err(e) => {
                return Err(e);
            },
        }
        self.initialized = true;
        proof {
            assert(self.history@ =~= Seq::<u8>::empty());
            assert(self.input@ =~= self.fed@.take(2) + self.fed@.skip(2));
            assert(self.output_buffer@.skip(0) =~= self.history@.subrange(0, 0));
        }
        Ok(())
    }

    /// Lets go of the input that was read, once that is 0x800 bytes or
    /// more.
    #[verifier::rlimit(40)]
    pub fn release_input(&mut self)
        requires
            old(self).base_wf(),
            old(self).initialized,
            !old(self).finished,
        ensures
            final(self).base_wf(),
            final(self).state.in_pos == ({
                let spare: int = if old(self).state.extra_bits > 0 {
                    1
                } else {
                    0
                };
                if old(self).state.in_pos >= 3 + spare + 0x800 {
                    3 + spare
                } else {
                    old(self).state.in_pos as int
                }
            }),
            *final(self) == (ExplodeReader {
                input: final(self).input,
                state: final(self).state,
                dropped: final(self).dropped,
                ..*old(self)
            }),
            final(self).state == (ExplodeState {
                in_pos: final(self).state.in_pos,
                ..old(self).state
            }),
    {
        let spare: usize = if self.state.extra_bits > 0 {
            1
        } else {
            0
        };
        if self.state.in_pos >= 3 + spare + 0x800 {
            let count = self.state.in_pos - 3 - spare;
            let ghost held = self.input@;
            let ghost consumed = self.state.consumed();
            let tail = self.input.split_off(2 + count);
            let _ = self.input.split_off(2);
            self.input.extend_from_slice(tail.as_slice());
            self.state.in_pos = self.state.in_pos - count;
            proof {
                let dropped = self.dropped@;
                self.dropped = Ghost(dropped + count);
                let fed = self.fed@;
                assert(self.input@ =~= fed.take(2) + fed.skip(2 + dropped + count));
                assert(self.input@.skip(2) =~= held.skip(2).skip(count as int));
                lemma_skip_bytes(held.skip(2), count as int, (consumed - 8 * count) as nat);
                assert(self.state.rest(self.input@) == old(self).state.rest(held));
            }
        }
    }

    /// Takes the next token: a literal or a repetition goes into the
    /// window. Returns 0 for a token that was taken, 1 for the end marker,
    /// and 2 for a token that the end of the input cuts short while more
    /// input may come; in both of these cases the reader stands where it
    /// stood.
    #[verifier::rlimit(40)]
    pub fn take_token(&mut self) -> (result: Result<u8, PkLibError>)
        requires
            old(self).wf(),
            old(self).initialized,
            !old(self).finished,
        ensures
            match explode_step(
                old(self).state.ctype,
                old(self).state.dsize_bits as int,
                old(self).state.rest(old(self).input@),
                old(self).history@,
            ) {
                Step::End => result == Ok::<u8, PkLibError>(1) && *final(self) == *old(self),
                Step::Fail(e) => if e is InvalidFormat && !old(self).closed {
                    result == Ok::<u8, PkLibError>(2) && *final(self) == *old(self)
                } else {
                    result == Err::<u8, PkLibError>(e)
                },
                Step::Next { rest, out } => {
                    &&& result == Ok::<u8, PkLibError>(0)
                    &&& final(self).base_wf()
                    &&& final(self).history@ == out
                    &&& final(self).state.rest(final(self).input@).len < old(self).state.rest(
                        old(self).input@,
                    ).len
                },
            },
            *final(self) == (ExplodeReader {
                state: final(self).state,
                history: final(self).history,
                steps: final(self).steps,
                ..*old(self)
            }),
    {
        let ghost before = self.history@;
        let ghost s = self.state.rest(self.input@);
        proof {
            self.lemma_outcome();
            lemma_explode_step_rest(self.state.ctype, self.state.dsize_bits as int, s, before);
        }
        let bit_buff = self.state.bit_buff;
        let extra_bits = self.state.extra_bits;
        let in_pos = self.state.in_pos;
        let ended = match self.state.expand_token(self.input.as_slice(), Ghost(before)) {
            Ok(ended) => ended,
            Err(e) => {
                if matches!(e, PkLibError::InvalidFormat) && !self.closed {
                    self.state.bit_buff = bit_buff;
                    self.state.extra_bits = extra_bits;
                    self.state.in_pos = in_pos;
                    assert(self.state == old(self).state);
                    return Ok(2);
                }
                return Err(e);
            },
        };
        if ended {
            self.state.bit_buff = bit_buff;
            self.state.extra_bits = extra_bits;
            self.state.in_pos = in_pos;
            assert(self.state == old(self).state);
            return Ok(1);
        }
        proof {
            let step = explode_step(self.state.ctype, self.state.dsize_bits as int, s, before);
            self.history = Ghost(step->out);
            self.steps = Ghost(self.steps@ + 1);
            assert(reached(
                self.state.ctype,
                self.state.dsize_bits as int,
                self.stream(),
                Seq::<u8>::empty(),
                (self.steps@ - 1) as nat,
            ) == Some((s, before)));
            assert(before =~= self.history@.take(before.len() as int));
            assert(self.history@.subrange(self.delivered@, self.flushed()) =~= before.subrange(
                self.delivered@,
                self.flushed(),
            ));
        }
        Ok(0)
    }

    /// Ends the stream at the end marker: the output that has not filled
    /// a block goes behind `output_buffer`. Returns the number of bytes
    /// added.
    #[verifier::rlimit(40)]
    pub fn end_stream(&mut self) -> (added: usize)
        requires
            old(self).wf(),
            old(self).initialized,
            !old(self).finished,
            explode_step(
                old(self).state.ctype,
                old(self).state.dsize_bits as int,
                old(self).state.rest(old(self).input@),
                old(self).history@,
            ) is End,
        ensures
            final(self).wf(),
            final(self).finished,
            added == old(self).history@.len() - old(self).flushed(),
            final(self).output_buffer@ == old(self).output_buffer@ + old(self).history@.skip(
                old(self).flushed(),
            ),
            explode_outcome(old(self).fed@) == (Outcome {
                output: old(self).history@,
                error: None,
            }),
            *final(self) == (ExplodeReader {
                finished: true,
                output_buffer: final(self).output_buffer,
                ..*old(self)
            }),
    {
        proof {
            self.lemma_outcome();
        }
        let ghost history = self.history@;
        let ghost flushed = self.flushed();
        self.finished = true;
        let pending = self.state.output_pos - 0x1000;
        self.state.flush_rest(&mut self.output_buffer, Ghost(history));
        proof {
            assert(history.skip(flushed) =~= history.subrange(flushed, history.len() as int));
            assert(self.output_buffer@.skip(self.output_pos as int) =~= history.subrange(
                self.delivered@,
                flushed,
            ) + history.subrange(flushed, history.len() as int));
            assert(self.output_buffer@.skip(self.output_pos as int) =~= history.subrange(
                self.delivered@,
                history.len() as int,
            ));
        }
        pending
    }

    /// Hands the finished block of 0x1000 bytes from the window on behind
    /// `output_buffer`, and lets go of input that was read.
    #[verifier::rlimit(40)]
    pub fn flush_block(&mut self)
        requires
            old(self).base_wf(),
            old(self).initialized,
            !old(self).finished,
            old(self).state.output_pos >= 0x2000,
        ensures
            final(self).wf(),
            !final(self).finished,
            final(self).initialized,
            final(self).output_buffer@ == old(self).output_buffer@ + old(self).history@.subrange(
                old(self).flushed(),
                old(self).flushed() + 0x1000,
            ),
            old(self).flushed() + 0x1000 <= old(self).history@.len(),
            *final(self) == (ExplodeReader {
                input: final(self).input,
                state: final(self).state,
                dropped: final(self).dropped,
                output_buffer: final(self).output_buffer,
                ..*old(self)
            }),
    {
        let ghost now = self.history@;
        let ghost flushed = self.flushed();
        self.state.flush_window(&mut self.output_buffer, Ghost(now));
        proof {
            assert(self.output_buffer@.skip(self.output_pos as int) =~= now.subrange(
                self.delivered@,
                flushed,
            ) + now.subrange(flushed, flushed + 0x1000));
            assert(self.output_buffer@.skip(self.output_pos as int) =~= now.subrange(
                self.delivered@,
                flushed + 0x1000,
            ));
        }
        self.release_input();
    }

    /// Decompresses until a block of 0x1000 bytes is finished, or to the
    /// end of the stream, and puts the new output behind `output_buffer`.
    /// Returns the number of bytes added.
    ///
    /// A token that is rejected gives its error at once: the output of the
    /// tokens before it that did not fill a block is not handed out. A
    /// token that the end of the input cuts short while more input may
    /// come is left for later: nothing is added then, and the reader has
    /// taken every token that is complete.
    #[verifier::rlimit(40)]
    pub fn expand(&mut self) -> (result: Result<usize, PkLibError>)
        requires
            old(self).wf(),
        ensures
            final(self).fed == old(self).fed,
            final(self).closed == old(self).closed,
            final(self).delivered@ == old(self).delivered@,
            final(self).output_pos == old(self).output_pos,
            old(self).finished ==> result == Ok::<usize, PkLibError>(0) && *final(self) == *old(self),
            !old(self).finished ==> {
                let outcome = explode_outcome(old(self).fed@);
                let partial = outcome.output;
                let flushed = old(self).flushed();
                if flushed + 0x1000 <= partial.len() {
                    &&& result == Ok::<usize, PkLibError>(0x1000)
                    &&& final(self).wf()
                    &&& !final(self).finished
                    &&& final(self).output_buffer@ == old(self).output_buffer@ + partial.subrange(
                        flushed,
                        flushed + 0x1000,
                    )
                } else if outcome.error is None {
                    &&& result == Ok::<usize, PkLibError>((partial.len() - flushed) as usize)
                    &&& final(self).wf()
                    &&& final(self).finished
                    &&& final(self).output_buffer@ == old(self).output_buffer@ + partial.skip(
                        flushed,
                    )
                } else if may_change(outcome.error->Some_0) && !old(self).closed {
                    &&& result == Ok::<usize, PkLibError>(0)
                    &&& final(self).wf()
                    &&& !final(self).finished
                    &&& final(self).output_buffer@ == old(self).output_buffer@
                    &&& final(self).history@ == partial
                } else {
                    result == Err::<usize, PkLibError>(outcome.error->Some_0)
                }
            },
    {
        if self.finished {
            return Ok(0);
        }
        match self.initialize() {
            Ok(()) => {},
            Err(e) => {
                return Err(e);
            },
        }
        let ghost outcome = explode_outcome(self.fed@);
        let ghost partial = outcome.output;
        let ghost flushed = self.flushed();
        if !self.initialized {
            proof {
                assert(self.history@ =~= partial);
            }
            return Ok(0);
        }
        loop
            invariant
                self.wf(),
                self.initialized,
                !self.finished,
                !old(self).finished,
                self.fed == old(self).fed,
                self.closed == old(self).closed,
                self.delivered@ == old(self).delivered@,
                self.output_pos == old(self).output_pos,
                self.output_buffer@ == old(self).output_buffer@,
                outcome == explode_outcome(self.fed@),
                partial == outcome.output,
                flushed == old(self).flushed(),
            decreases self.state.rest(self.input@).len,
        {
            proof {
                self.lemma_outcome();
            }
            let taken = match self.take_token() {
                Ok(taken) => taken,
                Err(e) => {
                    return Err(e);
                },
            };
            if taken == 2 {
                return Ok(0);
            }
            if taken == 1 {
                let added = self.end_stream();
                return Ok(added);
            }
            if self.state.output_pos >= 0x2000 {
                proof {
                    self.lemma_base_partial();
                }
                let ghost now = self.history@;
                self.flush_block();
                proof {
                    assert(now.subrange(flushed, flushed + 0x1000) =~= partial.subrange(
                        flushed,
                        flushed + 0x1000,
                    ));
                }
                return Ok(0x1000);
            }
        }
    }

    /// Copies the bytes that wait in `output_buffer` into `buf`, as many as
    /// fit, and returns their number.
    fn take_buffered(&mut self, buf: &mut [u8]) -> (count: usize)
        requires
            old(self).wf(),
            old(self).initialized,
        ensures
            final(self).wf(),
            count == vstd::math::min(old(buf)@.len() as int, old(self).buffered()),
            final(buf)@ == old(self).output_buffer@.subrange(
                old(self).output_pos as int,
                old(self).output_pos + count,
            ) + old(buf)@.skip(count as int),
            final(self).delivered@ == old(self).delivered@ + count,
            final(self).output_pos == old(self).output_pos + count,
            *final(self) == (ExplodeReader {
                output_pos: final(self).output_pos,
                delivered: final(self).delivered,
                ..*old(self)
            }),
    {
        let available = self.output_buffer.len() - self.output_pos;
        let to_copy = if buf.len() < available {
            buf.len()
        } else {
            available
        };
        let start = self.output_pos;
        let mut i: usize = 0;
        while i < to_copy
            invariant
                i <= to_copy,
                to_copy <= buf@.len(),
                buf@.len() == old(buf)@.len(),
                start + to_copy <= self.output_buffer.len(),
                *self == *old(self),
                buf@ == self.output_buffer@.subrange(start as int, start + i) + old(buf)@.skip(
                    i as int,
                ),
            decreases to_copy - i,
        {
            buf[i] = self.output_buffer[start + i];
            proof {
                assert(buf@ =~= self.output_buffer@.subrange(start as int, start + i + 1) + old(buf)@.skip(i as int + 1));
            }
            i = i + 1;
        }
        self.output_pos = start + to_copy;
        proof {
            self.delivered = Ghost(self.delivered@ + to_copy);
            assert(self.output_buffer@.skip(self.output_pos as int) =~= old(self).output_buffer@.skip(start as int).skip(to_copy as int));
            assert(self.history@.subrange(self.delivered@, self.flushed()) =~= self.history@.subrange(
                old(self).delivered@,
                self.flushed(),
            ).skip(to_copy as int));
        }
        to_copy
    }

    /// Empties `output_buffer` once all of it was handed out, so that the
    /// next block does not go behind bytes that are no longer needed. A
    /// buffer of which bytes still wait stays as it is.
    fn release_output(&mut self)
        requires
            old(self).wf(),
            old(self).initialized,
        ensures
            final(self).wf(),
            final(self).buffered() == old(self).buffered(),
            final(self).flushed() == old(self).flushed(),
            old(self).buffered() == 0 ==> final(self).output_buffer@.len() == 0 && final(self).output_pos == 0,
            old(self).buffered() > 0 ==> final(self).output_buffer@ == old(self).output_buffer@
                && final(self).output_pos == old(self).output_pos,
            *final(self) == (ExplodeReader {
                output_buffer: final(self).output_buffer,
                output_pos: final(self).output_pos,
                ..*old(self)
            }),
    {
        if self.output_pos >= self.output_buffer.len() {
            self.output_buffer.clear();
            self.output_pos = 0;
            proof {
                assert(self.output_buffer@.skip(0) =~= self.history@.subrange(
                    self.delivered@,
                    self.flushed(),
                ));
            }
        }
    }

    /// Hands out the next bytes of the output: what waits in the buffer,
    /// else what decompressing one more block gives, as many as fit into
    /// `buf`. Returns their number. It is 0 for an empty `buf`, at the end
    /// of the output, and where the input given so far ends inside a token
    /// or the header while more may come.
    ///
    /// The error of a token that is rejected comes once every block
    /// finished before it was handed out; the error of an input that ends
    /// too early comes only once the input is closed.
    #[verifier::rlimit(40)]
    pub fn read(&mut self, buf: &mut [u8]) -> (result: Result<usize, PkLibError>)
        requires
            old(self).wf(),
        ensures
            final(self).fed == old(self).fed,
            final(self).closed == old(self).closed,
            final(buf)@.len() == old(buf)@.len(),
            result is Err <==> {
                let outcome = explode_outcome(old(self).fed@);
                &&& old(self).buffered() == 0
                &&& !old(self).finished
                &&& old(self).delivered@ + 0x1000 > outcome.output.len()
                &&& outcome.error is Some
                &&& old(self).closed || !may_change(outcome.error->Some_0)
            },
            result is Err ==> explode_outcome(old(self).fed@).error == Some(result->Err_0),
            result is Ok ==> {
                let count = result->Ok_0;
                &&& final(self).wf()
                &&& count == vstd::math::min(old(buf)@.len() as int, old(self).next_available())
                &&& final(self).delivered@ == old(self).delivered@ + count
                &&& final(buf)@ == explode_partial(old(self).fed@).subrange(
                    old(self).delivered@,
                    old(self).delivered@ + count,
                ) + old(buf)@.skip(count as int)
            },
    {
        let ghost partial = explode_partial(self.fed@);
        if self.output_pos >= self.output_buffer.len() && !self.finished {
            proof {
                assert(self.output_buffer@.skip(self.output_pos as int).len() == 0);
            }
            match self.expand() {
                Ok(_) => {},
                Err(e) => {
                    return Err(e);
                },
            }
        }
        if !self.initialized {
            proof {
                assert(partial.subrange(self.delivered@, self.delivered@ + 0) + buf@.skip(0)
                    =~= buf@);
            }
            return Ok(0);
        }
        let ghost before = *self;
        proof {
            self.lemma_partial();
            assert(before.buffered() == old(self).next_available());
        }
        let count = self.take_buffered(buf);
        proof {
            assert(before.output_buffer@.subrange(
                before.output_pos as int,
                before.output_pos + count,
            ) =~= before.output_buffer@.skip(before.output_pos as int).take(count as int));
            assert(before.history@.subrange(before.delivered@, before.flushed()).take(
                count as int,
            ) =~= partial.subrange(before.delivered@, before.delivered@ + count));
        }
        self.release_output();
        Ok(count)
    }
}

/// Decompresses `data` in memory.
///
/// Returns the output of the stream, or the error of its header or of the
/// first token that is rejected. No input makes it panic.
pub fn explode_bytes(data: &[u8]) -> (result: Result<Vec<u8>, PkLibError>)
    ensures
        match result {
            Ok(output) => explode_spec(data@) == Ok::<Seq<u8>, PkLibError>(output@),
            Err(e) => explode_spec(data@) == Err::<Seq<u8>, PkLibError>(e),
        },
{
    let mut reader = match ExplodeReader::new(vstd::slice::slice_to_vec(data)) {
        Ok(reader) => reader,
        Err(e) => {
            return Err(e);
        },
    };
    let ghost partial = explode_partial(data@);
    loop
        invariant
            reader.wf(),
            reader.fed@ == data@,
            reader.closed,
            !reader.finished,
            reader.output_pos == 0,
            reader.delivered@ == 0,
            partial == explode_partial(data@),
            reader.output_buffer@ == partial.take(reader.output_buffer.len() as int),
            reader.output_buffer.len() <= partial.len(),
        decreases partial.len() - reader.output_buffer.len(),
    {
        match reader.expand() {
            Ok(_) => {
                proof {
                    assert(reader.output_buffer@ =~= partial.take(
                        reader.output_buffer.len() as int,
                    ));
                }
                if reader.finished {
                    proof {
                        assert(reader.output_buffer@ =~= partial);
                    }
                    return Ok(reader.output_buffer);
                }
            },
            Err(e) => {
                return Err(e);
            },
        }
    }
}

/// Decompresses data taken from an MPQ archive. Such data is an ordinary
/// stream: mode byte, dictionary byte, tokens.
pub fn explode_mpq_bytes(data: &[u8]) -> (result: Result<Vec<u8>, PkLibError>)
    ensures
        match result {
            Ok(output) => explode_spec(data@) == Ok::<Seq<u8>, PkLibError>(output@),
            Err(e) => explode_spec(data@) == Err::<Seq<u8>, PkLibError>(e),
        },
{
    explode_bytes(data)
}

} // verus!
