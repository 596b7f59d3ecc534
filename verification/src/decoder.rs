//! Streaming decoder: parses the compressed bit stream into zero/one bit runs
//! and emits the packed payload bytes.
use vstd::prelude::*;
use crate::format::parse_symbol;
use crate::format::sym_cont;
use crate::format::sym_count;
use crate::format::sym_len;
use crate::format::sym_term;

verus! {

/// Possible states the decoder can be in.
#[derive(Clone, Copy, Debug, PartialEq, Eq, Structural)]
pub enum DecoderState {
    /// The decoder is still able to consume bytes.
    CanConsume,
    /// The decoder is still able to produce bytes.
    CanProduce,
    /// The decoder has reached the terminal state.
    Terminated {
        /// Whether the encoded data was not padded using zero bits.
        corrupted: bool,
        /// Whether the decoded data did not end on a byte boundary.
        unaligned: bool,
    },
}

/// Streaming decoder context.
#[derive(Debug)]
pub struct Decoder {
    symbol_bits: usize,
    queued_bits: usize,
    output_bits: usize,

    symbol_data: u32,
    output_data: u8,

    queued_mode: bool,
    symbol_mode: bool,
    symbol_term: bool,
}

impl Decoder {
    /// Structural well-formedness: the symbol window is left-justified with
    /// its unused low bits zero, the partial output byte holds at most eight
    /// bits, and a terminated decoder has drained its run and keeps fewer
    /// than eight tail bits.
    pub closed spec fn inv(self) -> bool {
        &&& self.symbol_bits <= 31
        &&& self.output_bits <= 8
        &&& (self.symbol_data << (self.symbol_bits as u32)) == 0
        &&& (self.output_data as u32) < (1u32 << (self.output_bits as u32))
        &&& (self.symbol_term ==> self.queued_bits == 0 && self.symbol_bits <= 7)
    }

    /// The end-of-stream marker has been parsed.
    pub closed spec fn is_terminal(self) -> bool {
        self.symbol_term
    }

    /// Nonzero bits follow the end-of-stream marker.
    pub closed spec fn corrupted(self) -> bool {
        self.symbol_data != 0
    }

    /// The decoded payload did not end on a byte boundary.
    pub closed spec fn unaligned(self) -> bool {
        self.output_bits != 0
    }

    /// Number of valid bits in the trailing partial output byte.
    pub closed spec fn partial_len(self) -> usize {
        self.output_bits
    }

    /// The trailing partial output byte, right-aligned.
    pub closed spec fn partial_data(self) -> u8 {
        self.output_data
    }

    /// Output is owed that the buffer cannot take: a whole run byte or a
    /// completed partial byte stands ready.
    pub closed spec fn output_blocked(self) -> bool {
        self.queued_bits >= 8 || self.output_bits == 8
    }

    /// The decoder is genuinely starved: no run is pending and the buffered
    /// window holds less than one whole symbol.
    pub closed spec fn starving(self) -> bool {
        self.queued_bits == 0 && self.symbol_bits < 24 && !self.symbol_term
    }

    /// `step` has nothing left to do: the marker was parsed and every whole
    /// output byte was emitted.
    pub closed spec fn terminated(self) -> bool {
        self.symbol_term && self.output_bits < 8
    }

    /// The all-zero starting state as a value.
    pub closed spec fn start() -> Decoder {
        Decoder {
            symbol_bits: 0,
            queued_bits: 0,
            output_bits: 0,
            symbol_data: 0,
            output_data: 0,
            queued_mode: false,
            symbol_mode: false,
            symbol_term: false,
        }
    }

    /// The all-zero starting state.
    pub closed spec fn is_initial(self) -> bool {
        self == Self::start()
    }

    /// How the slice helper reads a finished decoding `run`: starvation is a
    /// truncated input, a blocked output wants more space, and a terminated
    /// stream is classified by its flags, corruption first.
    pub closed spec fn slice_outcome(o: (int, int, Seq<u8>, DecoderState, Decoder)) -> Result<
        usize,
        DecodeSliceError,
    > {
        match o.3 {
            DecoderState::CanConsume => Err(DecodeSliceError::TruncatedInput),
            DecoderState::CanProduce => Err(DecodeSliceError::NeedsMoreSpace),
            DecoderState::Terminated { corrupted, unaligned } => {
                if corrupted {
                    Err(DecodeSliceError::Corrupted)
                } else if unaligned {
                    Err(DecodeSliceError::Unaligned)
                } else {
                    Ok(o.1 as usize)
                }
            },
        }
    }

    /// The symbol window after the bytes of `bs` are shifted in, oldest
    /// first, each entering at bit position `24 - bits` for the window's bit
    /// count at that moment.
    pub closed spec fn fill_window(w: u32, sb: int, bs: Seq<u8>) -> u32
        decreases bs.len(),
    {
        if bs.len() == 0 {
            w
        } else {
            (Self::fill_window(w, sb, bs.drop_last()) | ((bs.last() as u32)
                << ((24 - (sb + 8 * (bs.len() - 1))) as u32)))
        }
    }

    /// Bytes the window still needs before a whole symbol can be parsed.
    pub closed spec fn fill_delta(sb: int) -> int {
        if sb >= 24 {
            0
        } else if sb >= 16 {
            1
        } else if sb >= 8 {
            2
        } else {
            3
        }
    }

    /// The consume phase as a function: refill the window and parse one
    /// symbol, or report starvation. Returns the next state, the new input
    /// offset, and whether the decoder starved.
    pub closed spec fn consume_spec(d: Decoder, input: Seq<u8>, cl: int) -> (Decoder, int, bool) {
        if d.queued_bits > 0 || d.symbol_term {
            (d, cl, false)
        } else if input.len() - cl < Self::fill_delta(d.symbol_bits as int) {
            (
                Decoder {
                    symbol_data: Self::fill_window(
                        d.symbol_data,
                        d.symbol_bits as int,
                        input.subrange(cl, input.len() as int),
                    ),
                    symbol_bits: (d.symbol_bits + 8 * (input.len() - cl)) as usize,
                    ..d
                },
                input.len() as int,
                true,
            )
        } else {
            let cl1 = cl + Self::fill_delta(d.symbol_bits as int);
            let w1 = Self::fill_window(d.symbol_data, d.symbol_bits as int, input.subrange(cl, cl1));
            let sb1 = d.symbol_bits + 8 * Self::fill_delta(d.symbol_bits as int);
            (
                Decoder {
                    symbol_data: (w1 << (sym_len(w1, d.symbol_mode) as u32)),
                    symbol_bits: ((sb1 - sym_len(w1, d.symbol_mode)) as usize),
                    queued_bits: sym_count(w1, d.symbol_mode) as usize,
                    queued_mode: (if sym_count(w1, d.symbol_mode) > 0 {
                        d.symbol_mode
                    } else {
                        d.queued_mode
                    }),
                    symbol_term: sym_term(w1),
                    symbol_mode: (if sym_cont(w1) {
                        d.symbol_mode
                    } else {
                        !d.symbol_mode
                    }),
                    ..d
                },
                cl1,
                false,
            )
        }
    }

    /// The produce phase as a function: move queued run bits towards the
    /// output. Returns the next state, the output bytes, the new output
    /// offset, and whether the buffer filled up.
    pub closed spec fn produce_spec(d: Decoder, out: Seq<u8>, pl: int) -> (Decoder, Seq<u8>, int, bool) {
        if d.output_bits == 0 && d.queued_bits >= 8 {
            let t = (if d.queued_bits as int / 8 <= out.len() - pl {
                d.queued_bits as int / 8
            } else {
                out.len() - pl
            });
            if t == 0 {
                (d, out, pl, true)
            } else {
                let val = (if d.queued_mode {
                    0xFFu8
                } else {
                    0u8
                });
                (
                    Decoder { queued_bits: (d.queued_bits - 8 * t) as usize, ..d },
                    out.map(|i: int, v: u8| if pl <= i < pl + t { val } else { v }),
                    pl + t,
                    false,
                )
            }
        } else if d.output_bits != 8 && d.queued_bits != 0 {
            let a = (if d.queued_bits <= 8 - d.output_bits {
                d.queued_bits as int
            } else {
                8 - d.output_bits
            });
            (
                Decoder {
                    output_data: ((d.output_data << (a as u8)) | (if d.queued_mode {
                        ((1u8 << (a as u8)) - 1) as u8
                    } else {
                        0u8
                    })),
                    output_bits: (d.output_bits + a) as usize,
                    queued_bits: (d.queued_bits - a) as usize,
                    ..d
                },
                out,
                pl,
                false,
            )
        } else if d.output_bits == 8 {
            if pl < out.len() {
                (
                    Decoder { output_data: 0, output_bits: 0, ..d },
                    out.update(pl, d.output_data),
                    pl + 1,
                    false,
                )
            } else {
                (d, out, pl, true)
            }
        } else {
            (d, out, pl, false)
        }
    }

    /// The whole decoding loop as a function of the starting state, the
    /// input bytes and the output buffer: alternate `consume_spec` and
    /// `produce_spec` until starved, blocked, or terminated. `None` when the
    /// given fuel runs out first.
    pub closed spec fn run(d: Decoder, input: Seq<u8>, cl: int, out: Seq<u8>, pl: int, fuel: nat) -> Option<
        (int, int, Seq<u8>, DecoderState, Decoder),
    >
        decreases fuel,
    {
        if fuel == 0 {
            None
        } else {
            let (d1, cl1, starved) = Self::consume_spec(d, input, cl);
            if starved {
                Some((cl1, pl, out, DecoderState::CanConsume, d1))
            } else {
                let (d2, out2, pl2, full) = Self::produce_spec(d1, out, pl);
                if full {
                    Some((cl1, pl2, out2, DecoderState::CanProduce, d2))
                } else if d2.symbol_term {
                    Some((
                        cl1,
                        pl2,
                        out2,
                        DecoderState::Terminated {
                            corrupted: d2.symbol_data != 0,
                            unaligned: d2.output_bits != 0,
                        },
                        d2,
                    ))
                } else {
                    Self::run(d2, input, cl1, out2, pl2, (fuel - 1) as nat)
                }
            }
        }
    }


    /// More fuel never changes a finished run: the interpreter is
    /// deterministic, and the fuel only bounds how many times the two phases
    /// may alternate.
    pub proof fn lemma_run_fuel_monotonic(
        d: Decoder,
        input: Seq<u8>,
        cl: int,
        out: Seq<u8>,
        pl: int,
        f1: nat,
        f2: nat,
    )
        requires
            f1 <= f2,
            Self::run(d, input, cl, out, pl, f1) is Some,
        ensures
            Self::run(d, input, cl, out, pl, f2) == Self::run(d, input, cl, out, pl, f1),
        decreases f1,
    {
        if f1 > 0 {
            let (d1, cl1, starved) = Self::consume_spec(d, input, cl);
            if !starved {
                let (d2, out2, pl2, full) = Self::produce_spec(d1, out, pl);
                if !full && !d2.symbol_term {
                    Self::lemma_run_fuel_monotonic(
                        d2,
                        input,
                        cl1,
                        out2,
                        pl2,
                        (f1 - 1) as nat,
                        (f2 - 1) as nat,
                    );
                }
            }
        }
    }

    /// The bare end-of-stream marker decodes to the empty payload: from the
    /// initial state, one round of the machine consumes the three marker
    /// bytes `0x00 0x0F 0xFF`, writes nothing, and terminates clean and
    /// aligned.
    pub proof fn lemma_decode_marker(out: Seq<u8>)
        ensures
            (match Self::run(Self::start(), seq![0x00u8, 0x0Fu8, 0xFFu8], 0, out, 0, 1) {
                Some(o) => {
                    &&& o.0 == 3
                    &&& o.1 == 0
                    &&& o.2 =~= out
                    &&& o.3 == (DecoderState::Terminated { corrupted: false, unaligned: false })
                    &&& o.4.terminated()
                },
                None => false,
            }),
    {
        let input = seq![0x00u8, 0x0Fu8, 0xFFu8];
        let taken = input.subrange(0, 3);
        let b2 = seq![0x00u8, 0x0Fu8];
        let b1 = seq![0x00u8];
        assert(taken =~= input);
        assert(taken.drop_last() =~= b2);
        assert(b2.drop_last() =~= b1);
        assert(b1.drop_last() =~= Seq::<u8>::empty());
        assert(Self::fill_window(0, 0, Seq::<u8>::empty()) == 0u32);
        assert(Self::fill_window(0, 0, b1) == (0u32 | (0x00u32 << 24u32)));
        assert(Self::fill_window(0, 0, b2) == (Self::fill_window(0, 0, b1) | (0x0Fu32
            << 16u32)));
        assert(Self::fill_window(0, 0, taken) == (Self::fill_window(0, 0, b2) | (0xFFu32
            << 8u32)));
        let w1 = Self::fill_window(0, 0, taken);
        assert(w1 == ((0u32 | (0x00u32 << 24)) | (0x0Fu32 << 16)) | (0xFFu32 << 8));
        assert(w1 == 0x000FFF00u32 && (w1 >> 20) == 0 && ((w1 >> 8) & 0xFFF) == 0xFFF
            && (w1 << 24) == 0) by (bit_vector)
            requires
                w1 == ((0u32 | (0x00u32 << 24)) | (0x0Fu32 << 16)) | (0xFFu32 << 8),
        ;
        crate::format::lemma_leading_zeros_long(w1);
        assert(sym_term(w1) && sym_len(w1, false) == 24 && sym_count(w1, false) == 0);
        let (d1, cl1, starved) = Self::consume_spec(Self::start(), input, 0);
        assert(cl1 == 3 && !starved && d1.symbol_term && d1.symbol_data == 0
            && d1.symbol_bits == 0 && d1.queued_bits == 0 && d1.output_bits == 0);
    }

    /// Constructs a new decoder instance in its initial state.
    pub fn new() -> (d: Self)
        ensures
            d.is_initial(),
            d.inv(),
            !d.is_terminal(),
            d.partial_len() == 0,
    {
        proof {
            assert(0u32 << 0u32 == 0u32 && (0u32 < (1u32 << 0u32))) by (bit_vector);
        }
        Self {
            symbol_bits: 0,
            queued_bits: 0,
            output_bits: 0,

            symbol_data: 0,
            output_data: 0,

            queued_mode: false,
            symbol_mode: false,
            symbol_term: false,
        }
    }

    /// Resets this decoder instance to its initial state.
    pub fn reset(&mut self)
        ensures
            final(self).is_initial(),
            final(self).inv(),
            !final(self).is_terminal(),
            final(self).partial_len() == 0,
    {
        *self = Self::new();
    }

    /// Steps this decoder instance, returning a `(bytes consumed, bytes
    /// produced, state)` tuple.
    ///
    /// The returned counts, the bytes written, the reported state and the
    /// decoder's new state are exactly what the machine model `run` yields
    /// on the given input from the starting state.
    #[verifier::rlimit(80)]
    pub fn step(&mut self, consumed: &[u8], produced: &mut [u8]) -> (r: (usize, usize, DecoderState))
        requires
            old(self).inv(),
        ensures
            final(self).inv(),
            r.0 <= consumed@.len(),
            r.1 <= old(produced)@.len(),
            final(produced)@.len() == old(produced)@.len(),
            forall|i: int| r.1 <= i < old(produced)@.len() ==> final(produced)@[i] == old(produced)@[i],
            (r.2 is Terminated) <==> final(self).terminated(),
            r.2 is Terminated ==> r.2 == (DecoderState::Terminated {
                corrupted: final(self).corrupted(),
                unaligned: final(self).unaligned(),
            }),
            r.2 is CanConsume ==> r.0 == consumed@.len() && final(self).starving(),
            r.2 is CanProduce ==> r.1 == old(produced)@.len() && final(self).output_blocked(),
            old(self).terminated() ==> *final(self) == *old(self) && r.0 == 0 && r.1 == 0,
            exists|f: nat| Self::run(*old(self), consumed@, 0, old(produced)@, 0, f)
                == Some((r.0 as int, r.1 as int, final(produced)@, r.2, *final(self))),
    {
        let mut consumed_len: usize = 0;
        let mut produced_len: usize = 0;
        let ghost mut steps: nat = 0;

        loop
            invariant_except_break
                forall|f: nat| Self::run(*old(self), consumed@, 0, old(produced)@, 0, f + steps)
                    == #[trigger] Self::run(
                    *self,
                    consumed@,
                    consumed_len as int,
                    produced@,
                    produced_len as int,
                    f,
                ),
            invariant
                self.inv(),
                consumed_len <= consumed@.len(),
                produced_len <= produced@.len(),
                produced@.len() == old(produced)@.len(),
                forall|i: int| produced_len <= i < old(produced)@.len()
                    ==> produced@[i] == old(produced)@[i],
                old(self).terminated() ==> *self == *old(self) && consumed_len == 0
                    && produced_len == 0,
            ensures
                self.inv(),
                self.symbol_term,
                self.output_bits < 8,
                consumed_len <= consumed@.len(),
                produced_len <= produced@.len(),
                produced@.len() == old(produced)@.len(),
                forall|i: int| produced_len <= i < old(produced)@.len()
                    ==> produced@[i] == old(produced)@[i],
                old(self).terminated() ==> *self == *old(self) && consumed_len == 0
                    && produced_len == 0,
                exists|f: nat| Self::run(*old(self), consumed@, 0, old(produced)@, 0, f)
                    == Some((
                    consumed_len as int,
                    produced_len as int,
                    produced@,
                    DecoderState::Terminated {
                        corrupted: self.symbol_data != 0,
                        unaligned: self.output_bits != 0,
                    },
                    *self,
                )),
            decreases
                8 * (consumed@.len() - consumed_len) + self.symbol_bits,
                self.queued_bits,
                self.output_bits,
        {
            let ghost pre = *self;
            let ghost pre_cl = consumed_len as int;
            let ghost pre_out = produced@;
            let ghost pre_pl = produced_len as int;

            let starved = self.consume(consumed, &mut consumed_len);

            proof {
                if pre.queued_bits == 0 && !pre.symbol_term && !starved {
                    assert(consumed_len as int == pre_cl + Self::fill_delta(
                        pre.symbol_bits as int,
                    ));
                }
                assert((*self, consumed_len as int, starved) == Self::consume_spec(
                    pre,
                    consumed@,
                    pre_cl,
                ));
            }

            if starved {
                proof {
                    assert(Self::run(pre, consumed@, pre_cl, pre_out, pre_pl, 1) == Some((
                        consumed_len as int,
                        produced_len as int,
                        produced@,
                        DecoderState::CanConsume,
                        *self,
                    )));
                    assert(Self::run(*old(self), consumed@, 0, old(produced)@, 0, 1 + steps)
                        == Some((
                        consumed_len as int,
                        produced_len as int,
                        produced@,
                        DecoderState::CanConsume,
                        *self,
                    )));
                }
                return (consumed_len, produced_len, DecoderState::CanConsume);
            }

            let ghost d1 = *self;
            let full = self.produce(produced, &mut produced_len);

            proof {
                let spec_step = Self::produce_spec(d1, pre_out, pre_pl);
                assert(produced@ =~= spec_step.1);
                assert((*self, produced@, produced_len as int, full) == spec_step);
            }

            if full {
                proof {
                    assert(Self::run(*old(self), consumed@, 0, old(produced)@, 0, 1 + steps)
                        == Some((
                        consumed_len as int,
                        produced_len as int,
                        produced@,
                        DecoderState::CanProduce,
                        *self,
                    )));
                }
                return (consumed_len, produced_len, DecoderState::CanProduce);
            }

            if self.symbol_term {
                proof {
                    assert(Self::run(*old(self), consumed@, 0, old(produced)@, 0, 1 + steps)
                        == Some((
                        consumed_len as int,
                        produced_len as int,
                        produced@,
                        DecoderState::Terminated {
                            corrupted: self.symbol_data != 0,
                            unaligned: self.output_bits != 0,
                        },
                        *self,
                    )));
                }
                break;
            }

            proof {
                assert forall|f: nat|
                    Self::run(*old(self), consumed@, 0, old(produced)@, 0, f + (steps + 1))
                        == #[trigger] Self::run(
                        *self,
                        consumed@,
                        consumed_len as int,
                        produced@,
                        produced_len as int,
                        f,
                    ) by {
                    assert(Self::run(pre, consumed@, pre_cl, pre_out, pre_pl, (f + 1) as nat)
                        == Self::run(
                        *self,
                        consumed@,
                        consumed_len as int,
                        produced@,
                        produced_len as int,
                        f,
                    ));
                    assert((f + 1) + steps == f + (steps + 1));
                }
                steps = steps + 1;
            }
        }

        (
            consumed_len,
            produced_len,
            DecoderState::Terminated {
                corrupted: self.symbol_data != 0,
                unaligned: self.output_bits != 0,
            },
        )
    }

    /// Retrieves the (right-aligned) last partial output byte.
    pub fn partial_output_byte(&self) -> (r: Option<(u8, usize)>)
        requires
            self.inv(),
        ensures
            r == (if self.is_terminal() && self.partial_len() != 0 {
                Some((self.partial_data(), self.partial_len()))
            } else {
                None::<(u8, usize)>
            }),
            r matches Some((data, bits)) ==> 0 < bits <= 8 && (data as u32) < (1u32
                << (bits as u32)),
    {
        if self.symbol_term && self.output_bits != 0 {
            Some((self.output_data, self.output_bits))
        } else {
            None
        }
    }

    /// Refills the symbol window and parses one symbol out of it. Returns
    /// true when starved for input mid-symbol.
    fn consume(&mut self, consumed: &[u8], consumed_len: &mut usize) -> (starved: bool)
        requires
            old(self).inv(),
            *old(consumed_len) <= consumed@.len(),
        ensures
            final(self).inv(),
            *old(consumed_len) <= *final(consumed_len) <= consumed@.len(),
            final(self).output_bits == old(self).output_bits,
            final(self).output_data == old(self).output_data,
            starved ==> *final(consumed_len) == consumed@.len() && !final(self).symbol_term
                && final(self).queued_bits == 0 && final(self).symbol_bits < 24
                && final(self).queued_mode == old(self).queued_mode
                && final(self).symbol_mode == old(self).symbol_mode,
            old(self).symbol_term ==> *final(self) == *old(self)
                && *final(consumed_len) == *old(consumed_len) && !starved,
            old(self).queued_bits > 0 ==> *final(self) == *old(self)
                && *final(consumed_len) == *old(consumed_len) && !starved,
            !starved && old(self).queued_bits == 0 && !old(self).symbol_term
                ==> 8 * (consumed@.len() - *final(consumed_len)) + final(self).symbol_bits
                    < 8 * (consumed@.len() - *old(consumed_len)) + old(self).symbol_bits,
            // exact refill and parse: consumed bytes enter the window at bit
            // position `24 - bits`; once at least 24 bits stand buffered, the
            // symbol at the top is parsed per the format's spec functions
            ({
                let taken = consumed@.subrange(
                    *old(consumed_len) as int,
                    *final(consumed_len) as int,
                );
                let w1 = Self::fill_window(
                    old(self).symbol_data,
                    old(self).symbol_bits as int,
                    taken,
                );
                let sb1 = old(self).symbol_bits + 8 * taken.len();
                &&& (starved ==> final(self).symbol_data == w1
                    && final(self).symbol_bits == sb1)
                &&& (!starved && old(self).queued_bits == 0 && !old(self).symbol_term ==> {
                    &&& 24 <= sb1 <= 31
                    &&& final(self).symbol_bits == sb1 - sym_len(w1, old(self).symbol_mode)
                    &&& final(self).symbol_data == w1
                        << (sym_len(w1, old(self).symbol_mode) as u32)
                    &&& final(self).queued_bits == sym_count(w1, old(self).symbol_mode)
                    &&& final(self).symbol_term == sym_term(w1)
                    &&& final(self).queued_mode == (if sym_count(w1, old(self).symbol_mode)
                        > 0 {
                        old(self).symbol_mode
                    } else {
                        old(self).queued_mode
                    })
                    &&& final(self).symbol_mode == (if sym_cont(w1) {
                        old(self).symbol_mode
                    } else {
                        !old(self).symbol_mode
                    })
                })
            }),
    {
        if self.queued_bits == 0 && !self.symbol_term {
            while self.symbol_bits < 24
                invariant
                    self.inv(),
                    *old(consumed_len) <= *consumed_len <= consumed@.len(),
                    self.queued_bits == 0,
                    old(self).queued_bits == 0,
                    *consumed_len == *old(consumed_len) ==> self.symbol_data
                        == old(self).symbol_data && self.symbol_bits == old(self).symbol_bits,
                    self.symbol_data == Self::fill_window(
                        old(self).symbol_data,
                        old(self).symbol_bits as int,
                        consumed@.subrange(*old(consumed_len) as int, *consumed_len as int),
                    ),
                    old(self).symbol_bits >= 24 ==> *consumed_len == *old(consumed_len),
                    self.queued_mode == old(self).queued_mode,
                    self.symbol_mode == old(self).symbol_mode,
                    self.symbol_term == old(self).symbol_term,
                    self.output_bits == old(self).output_bits,
                    self.output_data == old(self).output_data,
                    !self.symbol_term,
                    8 * (consumed@.len() - *consumed_len) + self.symbol_bits
                        == 8 * (consumed@.len() - *old(consumed_len)) + old(self).symbol_bits,
                    *consumed_len > *old(consumed_len) ==> self.symbol_bits >= 8,
                decreases 32 - self.symbol_bits,
            {
                if *consumed_len < consumed.len() {
                    let byte = consumed[*consumed_len];
                    proof {
                        let d = self.symbol_data;
                        let sb = self.symbol_bits;
                        assert(((d | ((byte as u32) << ((24 - sb) as u32)))
                            << ((sb + 8) as u32)) == 0) by (bit_vector)
                            requires
                                (d << (sb as u32)) == 0,
                                sb < 24,
                        ;
                    }
                    proof {
                        let lo = *old(consumed_len) as int;
                        let hi = *consumed_len as int;
                        assert(consumed@.subrange(lo, hi + 1).drop_last()
                            =~= consumed@.subrange(lo, hi));
                        assert(consumed@.subrange(lo, hi + 1).last() == consumed@[hi]);
                    }
                    self.symbol_data = self.symbol_data | ((byte as u32) << (24 - self.symbol_bits));
                    self.symbol_bits = self.symbol_bits + 8;
                    *consumed_len = *consumed_len + 1;
                } else {
                    return true;
                }
            }

            let s = parse_symbol(self.symbol_data, self.symbol_mode);

            proof {
                let d = self.symbol_data;
                let sb = self.symbol_bits;
                let so = s.shift;
                assert(((d << (so as u32)) << ((sb - so) as u32)) == (d << (sb as u32)))
                    by (bit_vector)
                    requires
                        so <= sb <= 31,
                ;
            }

            self.symbol_bits = self.symbol_bits - s.shift;
            self.symbol_data = self.symbol_data << (s.shift as u32);

            if s.count > 0 {
                self.queued_bits = s.count;
                self.queued_mode = self.symbol_mode;
            }

            if s.term {
                self.symbol_term = true;
            }

            if !s.cont {
                self.symbol_mode = !self.symbol_mode;
            }
        }

        false
    }

    /// Emits queued run bits into the output buffer. Returns true when out of
    /// output space.
    fn produce(&mut self, produced: &mut [u8], produced_len: &mut usize) -> (full: bool)
        requires
            old(self).inv(),
            *old(produced_len) <= old(produced)@.len(),
        ensures
            final(self).inv(),
            final(produced)@.len() == old(produced)@.len(),
            *old(produced_len) <= *final(produced_len) <= old(produced)@.len(),
            final(self).symbol_bits == old(self).symbol_bits,
            final(self).symbol_data == old(self).symbol_data,
            final(self).symbol_mode == old(self).symbol_mode,
            final(self).symbol_term == old(self).symbol_term,
            final(self).queued_mode == old(self).queued_mode,
            forall|i: int| 0 <= i < *old(produced_len) ==> final(produced)@[i] == old(produced)@[i],
            forall|i: int| *final(produced_len) <= i < old(produced)@.len()
                ==> final(produced)@[i] == old(produced)@[i],
            full ==> *final(self) == *old(self) && *final(produced_len) == *old(produced_len)
                && *old(produced_len) == old(produced)@.len(),
            full ==> old(self).queued_bits >= 8 || old(self).output_bits == 8,
            // whole run bytes
            !full && old(self).output_bits == 0 && old(self).queued_bits >= 8 ==> {
                &&& *final(produced_len) > *old(produced_len)
                &&& *final(produced_len) - *old(produced_len)
                    == (if old(self).queued_bits / 8
                        <= old(produced)@.len() - *old(produced_len) {
                        old(self).queued_bits as int / 8
                    } else {
                        old(produced)@.len() - *old(produced_len)
                    })
                &&& final(self).queued_bits == old(self).queued_bits
                    - 8 * (*final(produced_len) - *old(produced_len))
                &&& final(self).output_bits == 0
                &&& final(self).output_data == old(self).output_data
                &&& forall|i: int| *old(produced_len) <= i < *final(produced_len)
                    ==> final(produced)@[i] == (if old(self).queued_mode { 0xFFu8 } else { 0u8 })
            },
            // partial byte fill
            !(old(self).output_bits == 0 && old(self).queued_bits >= 8)
                && old(self).output_bits != 8 && old(self).queued_bits != 0 ==> {
                &&& !full
                &&& *final(produced_len) == *old(produced_len)
                &&& final(self).queued_bits == old(self).queued_bits
                    - (final(self).output_bits - old(self).output_bits)
                &&& final(self).output_bits > old(self).output_bits
                &&& final(self).output_bits == (if old(self).queued_bits
                    <= 8 - old(self).output_bits {
                    old(self).output_bits + old(self).queued_bits
                } else {
                    8int
                })
                &&& final(self).output_data == ((old(self).output_data
                    << ((final(self).output_bits - old(self).output_bits) as u8))
                    | (if old(self).queued_mode {
                        ((1u8 << ((final(self).output_bits - old(self).output_bits) as u8)) - 1) as u8
                    } else {
                        0u8
                    }))
            },
            // completed byte
            !full && old(self).output_bits == 8 ==> {
                &&& *final(produced_len) == *old(produced_len) + 1
                &&& final(produced)@[*old(produced_len) as int] == old(self).output_data
                &&& final(self).output_bits == 0
                &&& final(self).output_data == 0
                &&& final(self).queued_bits == old(self).queued_bits
            },
            // nothing to do
            old(self).queued_bits == 0 && old(self).output_bits < 8 ==> !full
                && *final(self) == *old(self) && *final(produced_len) == *old(produced_len),
    {
        if self.output_bits == 0 && self.queued_bits >= 8 {
            let space = produced.len() - *produced_len;
            let mut transfer = self.queued_bits / 8;
            if space < transfer {
                transfer = space;
            }

            if transfer == 0 {
                return true;
            }

            let val: u8 = if self.queued_mode {
                0xFF
            } else {
                0x00
            };
            let base = *produced_len;
            let mut i: usize = 0;
            while i < transfer
                invariant
                    i <= transfer,
                    base + transfer <= produced@.len(),
                    base + transfer <= usize::MAX,
                    produced@.len() == old(produced)@.len(),
                    forall|j: int| 0 <= j < base ==> produced@[j] == old(produced)@[j],
                    forall|j: int| base <= j < base + i ==> produced@[j] == val,
                    forall|j: int| base + i <= j < old(produced)@.len()
                        ==> produced@[j] == old(produced)@[j],
                decreases transfer - i,
            {
                produced[base + i] = val;
                i = i + 1;
            }

            assert(8 * transfer <= self.queued_bits);
            self.queued_bits = self.queued_bits - transfer * 8;
            *produced_len = *produced_len + transfer;
        } else if self.output_bits != 8 && self.queued_bits != 0 {
            let mut amount = 8 - self.output_bits;
            if self.queued_bits < amount {
                amount = self.queued_bits;
            }

            let word: u8 = if self.queued_mode {
                proof {
                    assert(1u8 << (amount as u8) >= 1) by (bit_vector)
                        requires
                            amount < 8,
                    ;
                }
                (1u8 << amount) - 1
            } else {
                0
            };

            proof {
                let od = self.output_data;
                let ob = self.output_bits;
                let a = amount;
                assert((((od << (a as u8)) | word) as u32) < (1u32 << ((ob + a) as u32)))
                    by (bit_vector)
                    requires
                        (od as u32) < (1u32 << (ob as u32)),
                        ob + a <= 8,
                        a < 8,
                        word == 0u8 || word == (1u8 << (a as u8)) - 1,
                ;
            }
            self.output_data = (self.output_data << amount) | word;
            self.output_bits = self.output_bits + amount;
            self.queued_bits = self.queued_bits - amount;
        } else if self.output_bits == 8 {
            if *produced_len < produced.len() {
                proof {
                    assert(0u32 < (1u32 << 0u32)) by (bit_vector);
                }
                produced[*produced_len] = self.output_data;
                self.output_data = 0;
                self.output_bits = 0;
                *produced_len = *produced_len + 1;
            } else {
                return true;
            }
        }

        false
    }
}

impl Default for Decoder {
    fn default() -> (d: Self)
        ensures
            d.is_initial(),
            d.inv(),
    {
        Self::new()
    }
}

/// Errors that may occur while decoding a slice.
#[derive(Clone, Copy, Debug, PartialEq, Eq, Structural)]
pub enum DecodeSliceError {
    /// More input bytes were required for decoding.
    TruncatedInput,
    /// More output space was required for decoding.
    NeedsMoreSpace,
    /// The encoded data was not padded using zero bits.
    Corrupted,
    /// The decoded data did not end on a byte boundary.
    Unaligned,
}

/// Convenient helper function to directly decode arbitrary data from a
/// destination byte slice.
pub fn decode_from_slice(input: &[u8], output: &mut [u8]) -> (r: Result<usize, DecodeSliceError>)
    ensures
        final(output)@.len() == old(output)@.len(),
        r matches Ok(n) ==> n <= old(output)@.len() && forall|i: int| n <= i < old(output)@.len()
            ==> final(output)@[i] == old(output)@[i],
        exists|f: nat| (match #[trigger] Decoder::run(
            Decoder::start(),
            input@,
            0,
            old(output)@,
            0,
            f,
        ) {
            Some(o) => final(output)@ == o.2 && r == Decoder::slice_outcome(o),
            None => false,
        }),
        input@ =~= seq![0x00u8, 0x0Fu8, 0xFFu8] ==> r == Ok::<usize, DecodeSliceError>(0usize)
            && final(output)@ =~= old(output)@,
{
    let mut decoder = Decoder::new();

    let (consumed_len, produced_len, state) = decoder.step(input, output);

    proof {
        if input@ =~= seq![0x00u8, 0x0Fu8, 0xFFu8] {
            let f = choose|f: nat|
                Decoder::run(Decoder::start(), input@, 0, old(output)@, 0, f) == Some((
                    consumed_len as int,
                    produced_len as int,
                    output@,
                    state,
                    decoder,
                ));
            Decoder::lemma_decode_marker(old(output)@);
            if f < 1 {
                assert(false);
            } else {
                Decoder::lemma_run_fuel_monotonic(
                    Decoder::start(),
                    input@,
                    0,
                    old(output)@,
                    0,
                    1,
                    f,
                );
            }
        }
    }

    match state {
        DecoderState::CanConsume => Err(DecodeSliceError::TruncatedInput),
        DecoderState::CanProduce => Err(DecodeSliceError::NeedsMoreSpace),
        DecoderState::Terminated { corrupted, unaligned } => {
            if corrupted {
                Err(DecodeSliceError::Corrupted)
            } else if unaligned {
                Err(DecodeSliceError::Unaligned)
            } else {
                Ok(produced_len)
            }
        },
    }
}

} // verus!
